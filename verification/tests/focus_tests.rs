use hotkey_plugin::hotkey_config::HotkeyConfig;
use hotkey_plugin::hotkey_config::KeyRepeatSettings;
use hotkey_plugin::hotkey_states::set_hotkey_states_from_input;
use hotkey_plugin::hotkey_states::HotkeyStates;
use hotkey_plugin::input_snapshot::InputSnapshot;
use hotkey_plugin::window_focus_state::WindowFocusState;

const JUMP: u64 = 1;
const KEY_A: u32 = 110;

fn make_states() -> HotkeyStates {
    let mut config = HotkeyConfig::empty();
    config.insert_normal(JUMP, KEY_A);
    HotkeyStates::from_settings(config, KeyRepeatSettings::default())
}

fn holding_a() -> InputSnapshot {
    let mut input = InputSnapshot::empty();
    input.pressed_keys = vec![KEY_A];
    input
}

#[test]
fn default_is_in_focus() {
    assert_eq!(WindowFocusState::default(), WindowFocusState::InFocus);
}

#[test]
fn focus_transitions() {
    let mut focus = WindowFocusState::default();
    // Focused, in focus: allowed.
    assert!(focus.interaction_allowed(true, true));
    // Unfocused: not allowed, whatever is held.
    assert!(!focus.interaction_allowed(false, false));
    // Focused again but a key still held: still not allowed.
    assert!(!focus.interaction_allowed(true, true));
    // Focused, everything released: allowed again.
    assert!(focus.interaction_allowed(true, false));
    assert!(focus.interaction_allowed(true, true));
}

#[test]
fn focus_episode_unsticks_keys() {
    let mut states = make_states();
    let mut focus = WindowFocusState::default();

    // Focused with key A held: processing runs.
    let mut input = holding_a();
    set_hotkey_states_from_input(&mut states, &mut focus, true, &mut input, 16);
    let mut input = holding_a();
    set_hotkey_states_from_input(&mut states, &mut focus, true, &mut input, 16);
    assert!(states.pressed(JUMP));

    // Unfocused: processing is suppressed and the backend's pressed-key
    // set is forcibly cleared, so A cannot stay stuck pressed.
    let mut input = holding_a();
    set_hotkey_states_from_input(&mut states, &mut focus, false, &mut input, 16);
    assert!(input.pressed_keys.is_empty());
    assert!(states.pressed(JUMP)); // the registry itself was not touched

    // Focused again, but A still reported held: still suppressed.
    let mut input = holding_a();
    set_hotkey_states_from_input(&mut states, &mut focus, true, &mut input, 16);
    assert!(input.pressed_keys.is_empty());

    // Focused, nothing held: processing resumes.
    let mut input = InputSnapshot::empty();
    set_hotkey_states_from_input(&mut states, &mut focus, true, &mut input, 16);
    assert!(!states.pressed(JUMP));
    assert!(states.just_released(JUMP));
}
