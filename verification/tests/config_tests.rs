use hotkey_plugin::action::Action;
use hotkey_plugin::hotkey::Hotkey;
use hotkey_plugin::hotkey_config::HotkeyConfig;
use hotkey_plugin::modifier::Modifier;
use hotkey_plugin::Hotkeys;

const JUMP: u64 = 1;
const DUCK: u64 = 2;
const KEY_W: u32 = 100;
const KEY_UP: u32 = 101;
const KEY_S: u32 = 102;

#[test]
fn empty_config_has_no_bindings() {
    let config = HotkeyConfig::empty();
    assert!(config.get(JUMP).is_none());
    assert_eq!(config.entries().len(), 0);
}

#[test]
fn insert_normal_appends_alternatives() {
    let mut config = HotkeyConfig::empty();
    config.insert_normal(JUMP, KEY_W);
    config.insert_normal(JUMP, KEY_UP);
    let list = config.get(JUMP).unwrap();
    assert_eq!(list.iter().len(), 2);
    assert_eq!(list.get(0).unwrap().key, Action::Key(KEY_W));
    assert_eq!(list.get(1).unwrap().key, Action::Key(KEY_UP));
}

#[test]
fn insert_with_modifiers_keeps_the_modifier_set() {
    let mut config = HotkeyConfig::empty();
    config.insert_with_modifiers(JUMP, KEY_W, &vec![Modifier::Control, Modifier::Alt]);
    let list = config.get(JUMP).unwrap();
    assert_eq!(
        *list.get(0).unwrap(),
        Hotkey {
            key: Action::Key(KEY_W),
            modifiers: vec![Modifier::Control, Modifier::Alt],
        }
    );
}

#[test]
fn update_from_is_left_biased() {
    let mut a = HotkeyConfig::empty();
    a.insert_normal(JUMP, KEY_W);
    let mut b = HotkeyConfig::empty();
    b.insert_normal(JUMP, KEY_UP);
    b.insert_normal(DUCK, KEY_S);

    a.update_from(&b);

    // The existing entry of `a` wins; the missing one is filled from `b`.
    let jump = a.get(JUMP).unwrap();
    assert_eq!(jump.iter().len(), 1);
    assert_eq!(jump.get(0).unwrap().key, Action::Key(KEY_W));
    let duck = a.get(DUCK).unwrap();
    assert_eq!(duck.get(0).unwrap().key, Action::Key(KEY_S));
    // Order: the entries of `a` first, then the new ones in `b`'s order.
    assert_eq!(a.entries()[0].0, JUMP);
    assert_eq!(a.entries()[1].0, DUCK);
}

#[test]
fn update_from_with_empty_other_changes_nothing() {
    let mut a = HotkeyConfig::empty();
    a.insert_normal(JUMP, KEY_W);
    let b = HotkeyConfig::empty();
    a.update_from(&b);
    assert_eq!(a.entries().len(), 1);
}

#[test]
fn insert_hotkeys_replaces_wholesale() {
    let mut config = HotkeyConfig::empty();
    config.insert_normal(JUMP, KEY_W);
    config.insert_hotkeys(
        JUMP,
        Hotkeys::new(vec![Hotkey {
            key: Action::Button(1),
            modifiers: vec![],
        }]),
    );
    let list = config.get(JUMP).unwrap();
    assert_eq!(list.iter().len(), 1);
    assert_eq!(list.get(0).unwrap().key, Action::Button(1));
}

#[test]
fn clone_preserves_the_table() {
    let mut config = HotkeyConfig::empty();
    config.insert_with_modifiers(JUMP, KEY_W, &vec![Modifier::Shift]);
    let copy = config.clone();
    assert_eq!(copy, config);
}
