use hotkey_plugin::hotkey_config::KeyRepeatSettings;
use hotkey_plugin::key_repeat_state::KeyRepeatState;

fn settings() -> KeyRepeatSettings {
    KeyRepeatSettings {
        initial_delay: 300,
        delay: 150,
    }
}

#[test]
fn default_key_repeat_timing() {
    let d = KeyRepeatSettings::default();
    assert_eq!(d.initial_delay, 300);
    assert_eq!(d.delay, 150);
}

#[test]
fn no_pulse_before_initial_delay() {
    let mut state = KeyRepeatState::from_settings(&settings());
    state.tick(100, true);
    assert!(!state.key_repeated());
    state.tick(100, true);
    assert!(!state.key_repeated());
    state.tick(99, true);
    assert!(!state.key_repeated());
}

#[test]
fn pulse_at_initial_delay_then_every_delay() {
    let mut state = KeyRepeatState::from_settings(&settings());
    // Hold continuously: first pulse once 300 ms have accumulated.
    state.tick(100, true);
    assert!(!state.key_repeated());
    state.tick(100, true);
    assert!(!state.key_repeated());
    state.tick(100, true);
    assert!(state.key_repeated()); // t = 300
    // Then one pulse every 150 ms.
    state.tick(100, true);
    assert!(!state.key_repeated()); // t = 400
    state.tick(50, true);
    assert!(state.key_repeated()); // t = 450 = 300 + 150
    state.tick(150, true);
    assert!(state.key_repeated()); // t = 600 = 300 + 2 * 150
    state.tick(75, true);
    assert!(!state.key_repeated());
    state.tick(75, true);
    assert!(state.key_repeated()); // t = 750 = 300 + 3 * 150
}

#[test]
fn release_restarts_initial_wait() {
    let mut state = KeyRepeatState::from_settings(&settings());
    state.tick(300, true);
    assert!(state.key_repeated());
    state.tick(100, true);
    assert!(!state.key_repeated());
    // Release: the fast phase is abandoned.
    state.tick(10, false);
    assert!(!state.key_repeated());
    // Re-press: the full 300 ms wait starts over.
    state.tick(299, true);
    assert!(!state.key_repeated());
    state.tick(1, true);
    assert!(state.key_repeated());
}

#[test]
fn one_large_tick_fires_once_in_initial_wait() {
    let mut state = KeyRepeatState::from_settings(&settings());
    state.tick(1000, true);
    assert!(state.key_repeated());
    // The pulse switched to the fast phase with a fresh timer.
    state.tick(149, true);
    assert!(!state.key_repeated());
    state.tick(1, true);
    assert!(state.key_repeated());
}

#[test]
fn reset_restores_initial_wait() {
    let mut state = KeyRepeatState::from_settings(&settings());
    state.tick(300, true);
    assert!(state.key_repeated());
    state.reset();
    state.tick(299, true);
    assert!(!state.key_repeated());
    state.tick(1, true);
    assert!(state.key_repeated());
}
