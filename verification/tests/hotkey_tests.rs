use hotkey_plugin::action::Action;
use hotkey_plugin::hotkey::Hotkey;
use hotkey_plugin::input_snapshot::InputSnapshot;
use hotkey_plugin::modifier::Modifier;
use hotkey_plugin::modifier::KEY_ALT_LEFT;
use hotkey_plugin::modifier::KEY_CONTROL_LEFT;
use hotkey_plugin::modifier::KEY_CONTROL_RIGHT;
use hotkey_plugin::modifier::KEY_SHIFT_LEFT;
use hotkey_plugin::mouse_wheel_action::MouseWheelAction;
use hotkey_plugin::Hotkeys;

const KEY_W: u32 = 100;
const KEY_S: u32 = 102;

fn input_with_keys(keys: Vec<u32>) -> InputSnapshot {
    let mut input = InputSnapshot::empty();
    input.pressed_keys = keys;
    input
}

#[test]
fn modifier_key_codes() {
    assert!(Modifier::Control.is(KEY_CONTROL_LEFT));
    assert!(Modifier::Control.is(KEY_CONTROL_RIGHT));
    assert!(!Modifier::Control.is(KEY_SHIFT_LEFT));
    assert_eq!(Modifier::Control.get_key_codes(), vec![KEY_CONTROL_LEFT, KEY_CONTROL_RIGHT]);
    assert_eq!(Modifier::from_key_code(KEY_SHIFT_LEFT), Some(Modifier::Shift));
    assert_eq!(Modifier::from_key_code(KEY_ALT_LEFT), Some(Modifier::Alt));
    assert_eq!(Modifier::from_key_code(KEY_W), None);
    assert_eq!(Modifier::Control.to_str(), "ctrl");
    assert_eq!(Modifier::Shift.to_str(), "shift");
    assert_eq!(Modifier::Alt.to_str(), "alt");
}

#[test]
fn pressed_needs_exact_modifier_match() {
    let hotkey = Hotkey {
        key: Action::Key(KEY_W),
        modifiers: vec![Modifier::Control],
    };
    // Exact match: key and exactly Control held.
    assert!(hotkey.pressed(&input_with_keys(vec![KEY_W, KEY_CONTROL_LEFT])));
    // Missing modifier (strict subset of the requirement).
    assert!(!hotkey.pressed(&input_with_keys(vec![KEY_W])));
    // Extra modifier (strict superset of the requirement).
    assert!(!hotkey.pressed(&input_with_keys(vec![KEY_W, KEY_CONTROL_LEFT, KEY_SHIFT_LEFT])));
}

#[test]
fn pressed_without_modifiers_rejects_any_modifier() {
    let hotkey = Hotkey {
        key: Action::Key(KEY_W),
        modifiers: vec![],
    };
    assert!(hotkey.pressed(&input_with_keys(vec![KEY_W])));
    assert!(!hotkey.pressed(&input_with_keys(vec![KEY_W, KEY_ALT_LEFT])));
}

#[test]
fn two_modifier_requirement() {
    let hotkey = Hotkey {
        key: Action::Key(KEY_W),
        modifiers: vec![Modifier::Control, Modifier::Shift],
    };
    assert!(hotkey.pressed(&input_with_keys(vec![KEY_W, KEY_CONTROL_LEFT, KEY_SHIFT_LEFT])));
    // Strict subset of the requirement held: rejected.
    assert!(!hotkey.pressed(&input_with_keys(vec![KEY_W, KEY_CONTROL_LEFT])));
}

#[test]
fn either_physical_modifier_key_satisfies() {
    let hotkey = Hotkey {
        key: Action::Key(KEY_W),
        modifiers: vec![Modifier::Control],
    };
    assert!(hotkey.pressed(&input_with_keys(vec![KEY_W, KEY_CONTROL_RIGHT])));
}

#[test]
fn button_pressed_and_just_pressed() {
    let hotkey = Hotkey {
        key: Action::Button(3),
        modifiers: vec![],
    };
    let mut input = InputSnapshot::empty();
    input.pressed_buttons = vec![3];
    assert!(hotkey.pressed(&input));
    assert!(!hotkey.just_pressed(&input));
    input.just_pressed_buttons = vec![3];
    assert!(hotkey.just_pressed(&input));
}

#[test]
fn scroll_never_level_pressed() {
    let hotkey = Hotkey {
        key: Action::Scroll(MouseWheelAction::Up),
        modifiers: vec![],
    };
    let mut input = InputSnapshot::empty();
    input.wheel_deltas = vec![1];
    assert!(!hotkey.pressed(&input));
    assert!(hotkey.just_pressed(&input));
}

#[test]
fn scroll_direction_matches_sign() {
    let up = Hotkey {
        key: Action::Scroll(MouseWheelAction::Up),
        modifiers: vec![],
    };
    let down = Hotkey {
        key: Action::Scroll(MouseWheelAction::Down),
        modifiers: vec![],
    };
    let mut input = InputSnapshot::empty();
    input.wheel_deltas = vec![-2];
    assert!(!up.just_pressed(&input));
    assert!(down.just_pressed(&input));
    input.wheel_deltas = vec![0];
    assert!(!up.just_pressed(&input));
    assert!(!down.just_pressed(&input));
}

#[test]
fn key_just_pressed_edge() {
    let hotkey = Hotkey {
        key: Action::Key(KEY_W),
        modifiers: vec![],
    };
    let mut input = InputSnapshot::empty();
    input.pressed_keys = vec![KEY_W];
    assert!(!hotkey.just_pressed(&input));
    input.just_pressed_keys = vec![KEY_W];
    assert!(hotkey.just_pressed(&input));
}

#[test]
fn hotkey_list_is_a_disjunction() {
    let list = Hotkeys::new(vec![
        Hotkey {
            key: Action::Key(KEY_W),
            modifiers: vec![],
        },
        Hotkey {
            key: Action::Key(KEY_S),
            modifiers: vec![],
        },
    ]);
    assert!(list.pressed(&input_with_keys(vec![KEY_S])));
    assert!(list.pressed(&input_with_keys(vec![KEY_W])));
    assert!(!list.pressed(&input_with_keys(vec![101])));
    let empty = Hotkeys::new(vec![]);
    assert!(!empty.pressed(&input_with_keys(vec![KEY_W])));
}

#[test]
fn change_hotkey_overwrites_or_appends() {
    let mut list = Hotkeys::new(vec![Hotkey {
        key: Action::Key(KEY_W),
        modifiers: vec![],
    }]);
    // Overwrite in place.
    list.change_hotkey(
        0,
        Hotkey {
            key: Action::Key(KEY_S),
            modifiers: vec![],
        },
    );
    assert_eq!(list.get(0).unwrap().key, Action::Key(KEY_S));
    // A far out-of-range slot appends instead of erroring.
    list.change_hotkey(
        9,
        Hotkey {
            key: Action::Key(KEY_W),
            modifiers: vec![],
        },
    );
    assert_eq!(list.iter().len(), 2);
    assert_eq!(list.get(1).unwrap().key, Action::Key(KEY_W));
}

#[test]
fn try_remove_hotkey_is_total() {
    let mut list = Hotkeys::new(vec![
        Hotkey {
            key: Action::Key(KEY_W),
            modifiers: vec![],
        },
        Hotkey {
            key: Action::Key(KEY_S),
            modifiers: vec![],
        },
    ]);
    // Out of range: silent no-op.
    list.try_remove_hotkey(5);
    assert_eq!(list.iter().len(), 2);
    list.try_remove_hotkey(0);
    assert_eq!(list.iter().len(), 1);
    assert_eq!(list.get(0).unwrap().key, Action::Key(KEY_S));
}

#[test]
fn display_joins_modifiers_in_canonical_order() {
    let hotkey = Hotkey {
        key: Action::Key(KEY_W),
        modifiers: vec![Modifier::Alt, Modifier::Control],
    };
    assert_eq!(hotkey.to_display_string("W", "+"), "ctrl+alt+W");
    let bare = Hotkey {
        key: Action::Key(KEY_W),
        modifiers: vec![],
    };
    assert_eq!(bare.to_display_string("W", "+"), "W");
    let all = Hotkey {
        key: Action::Key(KEY_W),
        modifiers: vec![Modifier::Shift, Modifier::Alt, Modifier::Control],
    };
    assert_eq!(all.to_display_string("W", " + "), "ctrl + shift + alt + W");
}
