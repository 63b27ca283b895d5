//! The interactive rebinding controller: tracks which action/slot is
//! capturing, consumes the next unambiguous key, and applies the
//! cancel/remove/commit policy. Only keyboard keys are capturable: the
//! listener inspects the keyboard snapshot alone.

use vstd::prelude::*;

use crate::action::Action;
use crate::assoc::contains_key;
use crate::assoc::find_key;
use crate::assoc::key_index;
use crate::assoc::lemma_contains_key_exists;
use crate::assoc::lemma_key_index;
use crate::assoc::lemma_lookup_update;
use crate::hotkey::Hotkey;
use crate::hotkey::HotkeyView;
use crate::hotkey_config::HotkeyConfig;
use crate::hotkey_states::HotkeyStates;
use crate::input_snapshot::InputSnapshot;
use crate::modifier::Modifier;
use crate::modifier::KEY_ALT_LEFT;
use crate::modifier::KEY_ALT_RIGHT;
use crate::modifier::KEY_CONTROL_LEFT;
use crate::modifier::KEY_CONTROL_RIGHT;
use crate::modifier::KEY_SHIFT_LEFT;
use crate::modifier::KEY_SHIFT_RIGHT;

verus! {

/// The rebinding controller: at most one pending capture, the two
/// reserved inputs, and the flag asking for the edited bindings to be
/// pushed into the live registry.
#[derive(Clone, Copy, Debug, PartialEq, Eq)]
pub struct HotkeyListener {
    pub currently_listening: Option<(u64, usize)>,
    pub cancel_action: Action,
    pub remove_action: Action,
    pub should_apply_settings: bool,
}

/// The currently held keys that are not modifier keys, in snapshot order.
pub open spec fn spec_non_modifier_keys(keys: Seq<u32>) -> Seq<u32>
    decreases keys.len(),
{
    if keys.len() == 0 {
        Seq::<u32>::empty()
    } else if Modifier::spec_from_key_code(keys.last()) is None {
        spec_non_modifier_keys(keys.drop_last()).push(keys.last())
    } else {
        spec_non_modifier_keys(keys.drop_last())
    }
}

/// The logical modifiers with a held key, as a duplicate-free sequence in
/// the fixed canonical order.
pub open spec fn spec_held_modifiers(keys: Seq<u32>) -> Seq<Modifier> {
    (if keys.contains(KEY_CONTROL_LEFT) || keys.contains(KEY_CONTROL_RIGHT) {
        seq![Modifier::Control]
    } else {
        Seq::<Modifier>::empty()
    }) + (if keys.contains(KEY_SHIFT_LEFT) || keys.contains(KEY_SHIFT_RIGHT) {
        seq![Modifier::Shift]
    } else {
        Seq::<Modifier>::empty()
    }) + (if keys.contains(KEY_ALT_LEFT) || keys.contains(KEY_ALT_RIGHT) {
        seq![Modifier::Alt]
    } else {
        Seq::<Modifier>::empty()
    })
}

/// The assignment policy on the binding sequence, for a committed capture
/// of `action` with `modifiers`: the reserved cancel input discards; for a
/// bound action the reserved remove input deletes the slot (out-of-range:
/// no-op) and any other input writes a new hotkey into the slot
/// (overwrite, or append when the slot is beyond the list); an unbound
/// action is left untouched.
pub open spec fn spec_assign(
    listener: HotkeyListener,
    cfg: Seq<(u64, Seq<HotkeyView>)>,
    modifiers: Seq<Modifier>,
    action: Action,
) -> Seq<(u64, Seq<HotkeyView>)>
    recommends
        listener.currently_listening is Some,
{
    let name = listener.currently_listening.unwrap().0;
    let num = listener.currently_listening.unwrap().1;
    if action == listener.cancel_action {
        cfg
    } else if !contains_key(cfg, name) {
        cfg
    } else {
        let ki = key_index(cfg, name);
        let hks = cfg[ki].1;
        if action == listener.remove_action {
            cfg.update(
                ki,
                (
                    name,
                    if num < hks.len() {
                        hks.remove(num as int)
                    } else {
                        hks
                    },
                ),
            )
        } else {
            let new_hotkey = HotkeyView { key: action, modifiers };
            cfg.update(
                ki,
                (
                    name,
                    if num < hks.len() {
                        hks.update(num as int, new_hotkey)
                    } else {
                        hks.push(new_hotkey)
                    },
                ),
            )
        }
    }
}

/// Linear membership scan.
fn keys_contain(keys: &Vec<u32>, key: u32) -> (r: bool)
    ensures
        r == keys@.contains(key),
{
    let mut i: usize = 0;
    while i < keys.len()
        invariant
            0 <= i <= keys@.len(),
            forall|j: int| 0 <= j < i ==> keys@[j] != key,
        decreases keys@.len() - i,
    {
        if keys[i] == key {
            return true;
        }
        i += 1;
    }
    false
}

/// The logical modifiers with a held key, in the fixed canonical order.
fn held_modifiers(keys: &Vec<u32>) -> (r: Vec<Modifier>)
    ensures
        r@ == spec_held_modifiers(keys@),
{
    let mut r: Vec<Modifier> = Vec::new();
    if keys_contain(keys, KEY_CONTROL_LEFT) || keys_contain(keys, KEY_CONTROL_RIGHT) {
        r.push(Modifier::Control);
    }
    if keys_contain(keys, KEY_SHIFT_LEFT) || keys_contain(keys, KEY_SHIFT_RIGHT) {
        r.push(Modifier::Shift);
    }
    if keys_contain(keys, KEY_ALT_LEFT) || keys_contain(keys, KEY_ALT_RIGHT) {
        r.push(Modifier::Alt);
    }
    proof {
        assert(r@ =~= spec_held_modifiers(keys@));
    }
    r
}

/// The held keys that are not modifier keys, in snapshot order.
fn non_modifier_keys(keys: &Vec<u32>) -> (r: Vec<u32>)
    ensures
        r@ == spec_non_modifier_keys(keys@),
{
    let mut r: Vec<u32> = Vec::new();
    let mut i: usize = 0;
    while i < keys.len()
        invariant
            0 <= i <= keys@.len(),
            r@ == spec_non_modifier_keys(keys@.take(i as int)),
        decreases keys@.len() - i,
    {
        proof {
            assert(keys@.take(i as int + 1).drop_last() =~= keys@.take(i as int));
            assert(keys@.take(i as int + 1).last() == keys@[i as int]);
        }
        if Modifier::from_key_code(keys[i]).is_none() {
            r.push(keys[i]);
        }
        i += 1;
    }
    proof {
        assert(keys@.take(keys@.len() as int) =~= keys@);
    }
    r
}

impl HotkeyListener {
    /// A listener with the given reserved cancel and remove inputs, not
    /// yet capturing.
    pub fn new(cancel_action: Action, remove_action: Action) -> (r: Self)
        ensures
            r.currently_listening is None,
            r.cancel_action == cancel_action,
            r.remove_action == remove_action,
            !r.should_apply_settings,
    {
        HotkeyListener {
            currently_listening: None,
            cancel_action,
            remove_action,
            should_apply_settings: false,
        }
    }

    /// Begin capturing for `(currently_listening, num)`, overwriting any
    /// pending capture.
    pub fn set_currently_listening(&mut self, currently_listening: u64, num: usize)
        ensures
            *final(self) == (HotkeyListener {
                currently_listening: Some((currently_listening, num)),
                ..*old(self)
            }),
    {
        self.currently_listening = Some((currently_listening, num));
    }

    /// Abandon any pending capture.
    pub fn clear_currently_listening(&mut self)
        ensures
            *final(self) == (HotkeyListener { currently_listening: None, ..*old(self) }),
    {
        self.currently_listening = None;
    }

    /// Ask for the edited bindings to be pushed into the live registry.
    pub fn apply_settings(&mut self)
        ensures
            *final(self) == (HotkeyListener { should_apply_settings: true, ..*old(self) }),
    {
        self.should_apply_settings = true;
    }

    /// The pending capture, for UI highlighting.
    pub fn get_pending_capture(&self) -> (r: Option<(u64, usize)>)
        ensures
            r == self.currently_listening,
    {
        self.currently_listening
    }

    /// One tick of capture progression. While a capture is pending and
    /// exactly one non-modifier key is held, commit it: the held modifier
    /// keys become the modifier set, the lone key the candidate input, and
    /// the assignment policy is applied; the capture ends whatever the
    /// outcome. With zero or several non-modifier keys held, wait.
    pub fn listen(&mut self, settings_hotkeys: &mut HotkeyConfig, input: &InputSnapshot)
        requires
            old(settings_hotkeys).wf(),
        ensures
            final(settings_hotkeys).wf(),
            final(settings_hotkeys)@.key_repeat == old(settings_hotkeys)@.key_repeat,
            final(self).cancel_action == old(self).cancel_action,
            final(self).remove_action == old(self).remove_action,
            final(self).should_apply_settings == old(self).should_apply_settings,
            old(self).currently_listening is None || spec_non_modifier_keys(
                input@.pressed_keys,
            ).len() != 1 ==> *final(self) == *old(self) && final(settings_hotkeys)@ == old(
                settings_hotkeys)@,
            old(self).currently_listening is Some && spec_non_modifier_keys(
                input@.pressed_keys,
            ).len() == 1 ==> final(self).currently_listening is None && final(
                settings_hotkeys)@.map == spec_assign(
                *old(self),
                old(settings_hotkeys)@.map,
                spec_held_modifiers(input@.pressed_keys),
                Action::Key(spec_non_modifier_keys(input@.pressed_keys)[0]),
            ),
    {
        if self.currently_listening.is_none() {
            return ;
        }
        let others = non_modifier_keys(&input.pressed_keys);
        if others.len() == 1 {
            let pressed_key = others[0];
            let modifiers = held_modifiers(&input.pressed_keys);
            self.assign(settings_hotkeys, modifiers, Action::Key(pressed_key));
        }
    }

    /// Apply the policy for a committed capture and end the capture.
    fn assign(&mut self, config: &mut HotkeyConfig, modifiers: Vec<Modifier>, action: Action)
        requires
            old(self).currently_listening is Some,
            old(config).wf(),
        ensures
            final(config).wf(),
            final(config)@.key_repeat == old(config)@.key_repeat,
            final(config)@.map == spec_assign(*old(self), old(config)@.map, modifiers@, action),
            *final(self) == (HotkeyListener { currently_listening: None, ..*old(self) }),
    {
        let (name, num) = match self.currently_listening {
            Some(pair) => pair,
            None => {
                proof {
                    assert(false);
                }
                (0, 0)
            },
        };
        // Taking the pending pair ends the capture, whatever happens below.
        self.currently_listening = None;
        if action == self.cancel_action {
            return ;
        }
        let found = find_key(&config.map, name);
        match found {
            None => {
                proof {
                    lemma_contains_key_exists(config@.map, name);
                }
            },
            Some(i) => {
                proof {
                    assert(config@.map[i as int].0 == name);
                    lemma_contains_key_exists(config@.map, name);
                    lemma_key_index(config@.map, name);
                    assert(key_index(config@.map, name) == i as int);
                }
                if action == self.remove_action {
                    let mut hks = config.map[i].1.clone();
                    proof {
                        lemma_lookup_update(
                            config@.map,
                            i as int,
                            if num < hks@.len() {
                                hks@.remove(num as int)
                            } else {
                                hks@
                            },
                        );
                    }
                    hks.try_remove_hotkey(num);
                    config.map[i] = (name, hks);
                    proof {
                        assert(config@.map =~= spec_assign(
                            *old(self),
                            old(config)@.map,
                            modifiers@,
                            action,
                        ));
                    }
                } else {
                    let new_hotkey = Hotkey { key: action, modifiers };
                    let ghost nh = new_hotkey@;
                    let mut hks = config.map[i].1.clone();
                    proof {
                        lemma_lookup_update(
                            config@.map,
                            i as int,
                            if num < hks@.len() {
                                hks@.update(num as int, nh)
                            } else {
                                hks@.push(nh)
                            },
                        );
                    }
                    hks.change_hotkey(num, new_hotkey);
                    config.map[i] = (name, hks);
                    proof {
                        assert(config@.map =~= spec_assign(
                            *old(self),
                            old(config)@.map,
                            modifiers@,
                            action,
                        ));
                    }
                }
            },
        }
    }

    /// Push the edited bindings into the live registry, once asked to.
    /// The flag stays set, so later edits keep flowing through as well.
    pub fn apply_hotkey_settings(&self, config: &HotkeyConfig, live_hotkeys: &mut HotkeyStates)
        requires
            config.wf(),
            old(live_hotkeys).wf(),
        ensures
            final(live_hotkeys).wf(),
            final(live_hotkeys)@.key_repeat == old(live_hotkeys)@.key_repeat,
            final(live_hotkeys)@.states == old(live_hotkeys)@.states,
            self.should_apply_settings ==> final(live_hotkeys)@.config == config@,
            !self.should_apply_settings ==> final(live_hotkeys)@.config == old(
                live_hotkeys,
            )@.config,
    {
        if self.should_apply_settings {
            live_hotkeys.config = config.clone();
        }
    }
}

} // verus!
