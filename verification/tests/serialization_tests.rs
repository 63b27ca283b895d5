use hotkey_plugin::action::Action;
use hotkey_plugin::hotkey::Hotkey;
use hotkey_plugin::hotkey_config::HotkeyConfig;
use hotkey_plugin::hotkey_config::KeyRepeatSettings;
use hotkey_plugin::modifier::Modifier;
use hotkey_plugin::mouse_wheel_action::MouseWheelAction;
use hotkey_plugin::serialization::decode_config;
use hotkey_plugin::serialization::encode_config;
use hotkey_plugin::Hotkeys;

const JUMP: u64 = 1;
const DUCK: u64 = 2;
const ZOOM: u64 = 3;
const KEY_W: u32 = 100;
const KEY_S: u32 = 102;

fn mixed_config() -> HotkeyConfig {
    let mut config = HotkeyConfig::empty();
    config.key_repeat = KeyRepeatSettings {
        initial_delay: 250,
        delay: 125,
    };
    config.insert_with_modifiers(JUMP, KEY_W, &vec![Modifier::Control]);
    config.insert_normal(JUMP, KEY_S);
    config.insert_hotkeys(
        DUCK,
        Hotkeys::new(vec![Hotkey {
            key: Action::Button(2),
            modifiers: vec![Modifier::Shift, Modifier::Alt],
        }]),
    );
    config.insert_hotkeys(
        ZOOM,
        Hotkeys::new(vec![
            Hotkey {
                key: Action::Scroll(MouseWheelAction::Up),
                modifiers: vec![],
            },
            Hotkey {
                key: Action::Scroll(MouseWheelAction::Down),
                modifiers: vec![Modifier::Control],
            },
        ]),
    );
    config
}

#[test]
fn round_trip_preserves_the_table() {
    let config = mixed_config();
    let bytes = encode_config(&config);
    let decoded = decode_config(&bytes).expect("a freshly encoded table must decode");
    assert_eq!(decoded, config);
}

#[test]
fn round_trip_of_the_empty_table() {
    let config = HotkeyConfig::empty();
    let bytes = encode_config(&config);
    let decoded = decode_config(&bytes).expect("a freshly encoded table must decode");
    assert_eq!(decoded, config);
}

#[test]
fn truncated_input_is_rejected() {
    let config = mixed_config();
    let mut bytes = encode_config(&config);
    bytes.pop();
    assert!(decode_config(&bytes).is_none());
}

#[test]
fn trailing_garbage_is_rejected() {
    let config = mixed_config();
    let mut bytes = encode_config(&config);
    bytes.push(0);
    assert!(decode_config(&bytes).is_none());
}

#[test]
fn empty_input_is_rejected() {
    assert!(decode_config(&Vec::new()).is_none());
}

#[test]
fn unknown_input_tag_is_rejected() {
    // Header: delays 250 and 125, one binding of action 7 with one hotkey
    // whose physical-input tag is invalid.
    let mut bytes = Vec::new();
    bytes.extend_from_slice(&250u32.to_le_bytes());
    bytes.extend_from_slice(&125u32.to_le_bytes());
    bytes.extend_from_slice(&1u64.to_le_bytes());
    bytes.extend_from_slice(&7u64.to_le_bytes());
    bytes.extend_from_slice(&1u64.to_le_bytes());
    bytes.push(9); // no such tag
    assert!(decode_config(&bytes).is_none());
}

#[test]
fn duplicate_action_keys_are_rejected() {
    // Two bindings carrying the same action id: a malformed table.
    let mut bytes = Vec::new();
    bytes.extend_from_slice(&250u32.to_le_bytes());
    bytes.extend_from_slice(&125u32.to_le_bytes());
    bytes.extend_from_slice(&2u64.to_le_bytes());
    bytes.extend_from_slice(&7u64.to_le_bytes());
    bytes.extend_from_slice(&0u64.to_le_bytes());
    bytes.extend_from_slice(&7u64.to_le_bytes());
    bytes.extend_from_slice(&0u64.to_le_bytes());
    assert!(decode_config(&bytes).is_none());
}

#[test]
fn hand_written_bytes_decode() {
    // One binding: action 7 bound to key 100 with Control.
    let mut bytes = Vec::new();
    bytes.extend_from_slice(&300u32.to_le_bytes());
    bytes.extend_from_slice(&150u32.to_le_bytes());
    bytes.extend_from_slice(&1u64.to_le_bytes());
    bytes.extend_from_slice(&7u64.to_le_bytes());
    bytes.extend_from_slice(&1u64.to_le_bytes());
    bytes.push(2); // keyboard-key tag
    bytes.extend_from_slice(&100u32.to_le_bytes());
    bytes.extend_from_slice(&1u64.to_le_bytes());
    bytes.push(0); // Control
    let decoded = decode_config(&bytes).expect("well-formed bytes must decode");
    assert_eq!(decoded.key_repeat.initial_delay, 300);
    assert_eq!(decoded.key_repeat.delay, 150);
    let list = decoded.get(7).unwrap();
    assert_eq!(
        *list.get(0).unwrap(),
        Hotkey {
            key: Action::Key(100),
            modifiers: vec![Modifier::Control],
        }
    );
}
