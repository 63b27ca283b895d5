use hotkey_plugin::action::Action;
use hotkey_plugin::hotkey::Hotkey;
use hotkey_plugin::hotkey_config::HotkeyConfig;
use hotkey_plugin::hotkey_config::KeyRepeatSettings;
use hotkey_plugin::hotkey_listener::HotkeyListener;
use hotkey_plugin::hotkey_states::HotkeyStates;
use hotkey_plugin::input_snapshot::InputSnapshot;
use hotkey_plugin::modifier::Modifier;
use hotkey_plugin::modifier::KEY_CONTROL_LEFT;

const JUMP: u64 = 1;
const DUCK: u64 = 2;
const KEY_W: u32 = 100;
const KEY_S: u32 = 102;
const KEY_UP: u32 = 101;
const KEY_ESCAPE: u32 = 50;
const KEY_DELETE: u32 = 51;

fn make_config() -> HotkeyConfig {
    let mut config = HotkeyConfig::empty();
    config.insert_normal(JUMP, KEY_UP);
    config.insert_normal(DUCK, KEY_S);
    config
}

fn make_listener() -> HotkeyListener {
    HotkeyListener::new(Action::Key(KEY_ESCAPE), Action::Key(KEY_DELETE))
}

fn holding(keys: Vec<u32>) -> InputSnapshot {
    let mut input = InputSnapshot::empty();
    input.pressed_keys = keys;
    input
}

#[test]
fn capture_commits_key_with_modifiers() {
    let mut config = make_config();
    let mut listener = make_listener();
    listener.set_currently_listening(JUMP, 0);
    assert_eq!(listener.get_pending_capture(), Some((JUMP, 0)));

    listener.listen(&mut config, &holding(vec![KEY_W, KEY_CONTROL_LEFT]));

    let list = config.get(JUMP).unwrap();
    assert_eq!(
        *list.get(0).unwrap(),
        Hotkey {
            key: Action::Key(KEY_W),
            modifiers: vec![Modifier::Control],
        }
    );
    // The capture is cleared by the commit.
    assert_eq!(listener.get_pending_capture(), None);
}

#[test]
fn capture_out_of_range_slot_appends() {
    let mut config = make_config();
    let mut listener = make_listener();
    listener.set_currently_listening(JUMP, 7);
    listener.listen(&mut config, &holding(vec![KEY_W]));
    let list = config.get(JUMP).unwrap();
    assert_eq!(list.iter().len(), 2);
    assert_eq!(list.get(1).unwrap().key, Action::Key(KEY_W));
}

#[test]
fn reserved_remove_key_deletes_the_slot() {
    let mut config = make_config();
    let mut listener = make_listener();
    listener.set_currently_listening(DUCK, 0);

    listener.listen(&mut config, &holding(vec![KEY_DELETE]));

    let list = config.get(DUCK).unwrap();
    assert_eq!(list.iter().len(), 0);
    assert_eq!(listener.get_pending_capture(), None);
}

#[test]
fn reserved_cancel_key_discards() {
    let mut config = make_config();
    let mut listener = make_listener();
    listener.set_currently_listening(JUMP, 0);

    listener.listen(&mut config, &holding(vec![KEY_ESCAPE]));

    let list = config.get(JUMP).unwrap();
    assert_eq!(list.get(0).unwrap().key, Action::Key(KEY_UP));
    assert_eq!(listener.get_pending_capture(), None);
}

#[test]
fn ambiguous_input_defers_the_capture() {
    let mut config = make_config();
    let mut listener = make_listener();
    listener.set_currently_listening(JUMP, 0);

    // Two non-modifier keys held: wait.
    listener.listen(&mut config, &holding(vec![KEY_W, KEY_S]));
    assert_eq!(listener.get_pending_capture(), Some((JUMP, 0)));
    // Only modifiers held: wait.
    listener.listen(&mut config, &holding(vec![KEY_CONTROL_LEFT]));
    assert_eq!(listener.get_pending_capture(), Some((JUMP, 0)));
    // Nothing held: wait.
    listener.listen(&mut config, &holding(vec![]));
    assert_eq!(listener.get_pending_capture(), Some((JUMP, 0)));
    assert_eq!(config.get(JUMP).unwrap().get(0).unwrap().key, Action::Key(KEY_UP));
}

#[test]
fn listen_without_capture_does_nothing() {
    let mut config = make_config();
    let mut listener = make_listener();
    listener.listen(&mut config, &holding(vec![KEY_W]));
    assert_eq!(config.get(JUMP).unwrap().get(0).unwrap().key, Action::Key(KEY_UP));
}

#[test]
fn clear_currently_listening_abandons_capture() {
    let mut listener = make_listener();
    listener.set_currently_listening(JUMP, 0);
    listener.clear_currently_listening();
    assert_eq!(listener.get_pending_capture(), None);
}

#[test]
fn apply_hotkey_settings_respects_the_flag() {
    let mut live = HotkeyStates::from_settings(make_config(), KeyRepeatSettings::default());
    let mut edited = make_config();
    edited.insert_normal(JUMP, KEY_W);
    let mut listener = make_listener();

    // Flag not set: the live registry keeps its bindings.
    listener.apply_hotkey_settings(&edited, &mut live);
    assert_eq!(live.get(JUMP).unwrap().iter().len(), 1);

    // Flag set: the edited bindings are pushed into the live registry.
    listener.apply_settings();
    listener.apply_hotkey_settings(&edited, &mut live);
    assert_eq!(live.get(JUMP).unwrap().iter().len(), 2);
}
