use hotkey_plugin::hotkey_config::HotkeyConfig;
use hotkey_plugin::hotkey_config::KeyRepeatSettings;
use hotkey_plugin::hotkey_states::HotkeyStates;
use hotkey_plugin::input_snapshot::InputSnapshot;

const JUMP: u64 = 1;
const DUCK: u64 = 2;
const KEY_W: u32 = 100;
const KEY_S: u32 = 102;

fn make_states() -> HotkeyStates {
    let mut config = HotkeyConfig::empty();
    config.insert_normal(JUMP, KEY_W);
    config.insert_normal(DUCK, KEY_S);
    HotkeyStates::from_settings(config, KeyRepeatSettings::default())
}

fn idle() -> InputSnapshot {
    InputSnapshot::empty()
}

fn holding(key: u32, just: bool) -> InputSnapshot {
    let mut input = InputSnapshot::empty();
    input.pressed_keys = vec![key];
    if just {
        input.just_pressed_keys = vec![key];
    }
    input
}

#[test]
fn unknown_action_queries_are_false() {
    let states = make_states();
    assert!(!states.pressed(99));
    assert!(!states.just_pressed(99));
    assert!(!states.just_released(99));
    assert!(!states.repeated(99));
}

#[test]
fn first_seen_tick_reports_nothing() {
    let mut states = make_states();
    // The very first update only starts tracking; the real evaluation is
    // deferred to the next tick.
    states.update(&holding(KEY_W, true), 16);
    assert!(!states.pressed(JUMP));
    assert!(!states.just_pressed(JUMP));
}

#[test]
fn press_edges_and_levels() {
    let mut states = make_states();
    states.update(&idle(), 16);
    states.update(&holding(KEY_W, true), 16);
    assert!(states.just_pressed(JUMP));
    assert!(states.pressed(JUMP));
    assert!(!states.just_released(JUMP));
    assert!(!states.pressed(DUCK));
    // Still held: the edge clears, the level stays.
    states.update(&holding(KEY_W, false), 16);
    assert!(!states.just_pressed(JUMP));
    assert!(states.pressed(JUMP));
    // Released: the release edge fires once.
    states.update(&idle(), 16);
    assert!(states.just_released(JUMP));
    assert!(!states.pressed(JUMP));
    states.update(&idle(), 16);
    assert!(!states.just_released(JUMP));
}

#[test]
fn repeated_on_the_press_tick() {
    let mut states = make_states();
    states.update(&idle(), 16);
    states.update(&holding(KEY_W, true), 16);
    // The very first press already counts as a repeat pulse, before any
    // repeat-timer firing.
    assert!(states.just_pressed(JUMP));
    assert!(states.repeated(JUMP));
}

#[test]
fn repeated_pulses_while_held() {
    let mut states = make_states();
    states.update(&idle(), 16);
    states.update(&holding(KEY_W, true), 16);
    assert!(states.repeated(JUMP));
    // 300 ms initial delay not yet over.
    states.update(&holding(KEY_W, false), 150);
    assert!(!states.repeated(JUMP));
    states.update(&holding(KEY_W, false), 150);
    assert!(states.repeated(JUMP));
    // Then every 150 ms.
    states.update(&holding(KEY_W, false), 150);
    assert!(states.repeated(JUMP));
    states.update(&holding(KEY_W, false), 75);
    assert!(!states.repeated(JUMP));
    states.update(&holding(KEY_W, false), 75);
    assert!(states.repeated(JUMP));
}

#[test]
fn flush_clears_every_query() {
    let mut states = make_states();
    states.update(&idle(), 16);
    states.update(&holding(KEY_W, true), 16);
    assert!(states.pressed(JUMP));
    states.flush();
    assert!(!states.pressed(JUMP));
    assert!(!states.just_pressed(JUMP));
    assert!(!states.just_released(JUMP));
    assert!(!states.repeated(JUMP));
    assert!(!states.pressed(DUCK));
}

#[test]
fn iter_just_pressed_lists_edge_actions() {
    let mut states = make_states();
    states.update(&idle(), 16);
    assert_eq!(states.iter_just_pressed(), Vec::<u64>::new());
    states.update(&holding(KEY_W, true), 16);
    assert_eq!(states.iter_just_pressed(), vec![JUMP]);
}

#[test]
fn forced_state_hooks() {
    let mut states = make_states();
    states.just_press_hotkey(JUMP);
    assert!(states.just_pressed(JUMP));
    assert!(states.pressed(JUMP));
    states.press_hotkey(DUCK);
    assert!(states.pressed(DUCK));
    assert!(!states.just_pressed(DUCK));
    states.release_hotkey(JUMP);
    assert!(states.just_released(JUMP));
    assert!(!states.pressed(JUMP));
}

#[test]
fn get_exposes_the_binding() {
    let states = make_states();
    let list = states.get(JUMP).unwrap();
    assert_eq!(list.iter().len(), 1);
    assert!(states.get(99).is_none());
}
