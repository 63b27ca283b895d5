//! One hotkey: a physical input plus a required modifier set, evaluated
//! against a raw input snapshot.

use vstd::prelude::*;
use vstd::string::StringExecFns;

use crate::action::Action;
use crate::input_snapshot::InputSnapshot;
use crate::input_snapshot::InputSnapshotView;
use crate::modifier::Modifier;
use crate::modifier::KEY_ALT_LEFT;
use crate::modifier::KEY_ALT_RIGHT;
use crate::modifier::KEY_CONTROL_LEFT;
use crate::modifier::KEY_CONTROL_RIGHT;
use crate::modifier::KEY_SHIFT_LEFT;
use crate::modifier::KEY_SHIFT_RIGHT;
use crate::mouse_wheel_action::MouseWheelAction;

verus! {

/// Mathematical model of a hotkey.
pub ghost struct HotkeyView {
    pub key: Action,
    pub modifiers: Seq<Modifier>,
}

/// Is the logical modifier `m` active in `input`, that is, is at least one
/// of its underlying physical keys currently held?
pub open spec fn modifier_active(m: Modifier, input: InputSnapshotView) -> bool {
    input.pressed_keys.contains(m.spec_key_codes()[0]) || input.pressed_keys.contains(
        m.spec_key_codes()[1],
    )
}

/// Exact-match modifier policy: the set of active modifiers must equal the
/// declared modifier requirement — no extra active modifier, none missing.
pub open spec fn spec_modifiers_match(mods: Seq<Modifier>, input: InputSnapshotView) -> bool {
    &&& (mods.contains(Modifier::Control) <==> modifier_active(Modifier::Control, input))
    &&& (mods.contains(Modifier::Shift) <==> modifier_active(Modifier::Shift, input))
    &&& (mods.contains(Modifier::Alt) <==> modifier_active(Modifier::Alt, input))
}

/// Does some wheel event of this tick scroll in direction `a`? Up means a
/// positive vertical delta, Down a negative one.
pub open spec fn spec_scroll_matches(a: MouseWheelAction, deltas: Seq<i32>) -> bool {
    exists|i: int|
        0 <= i < deltas.len() && (match a {
            MouseWheelAction::Up => deltas[i] > 0,
            MouseWheelAction::Down => deltas[i] < 0,
        })
}

impl HotkeyView {
    /// Level-triggered evaluation: modifiers match exactly and the bound
    /// input is currently held. Scroll inputs have no held state, so a
    /// scroll hotkey is never level-pressed.
    pub open spec fn spec_pressed(self, input: InputSnapshotView) -> bool {
        spec_modifiers_match(self.modifiers, input) && match self.key {
            Action::Button(button) => input.pressed_buttons.contains(button),
            Action::Key(key) => input.pressed_keys.contains(key),
            Action::Scroll(_) => false,
        }
    }

    /// Edge-triggered evaluation: modifiers match exactly and the bound
    /// input became pressed this tick (for scroll: some event of this tick
    /// has the matching sign).
    pub open spec fn spec_just_pressed(self, input: InputSnapshotView) -> bool {
        spec_modifiers_match(self.modifiers, input) && match self.key {
            Action::Button(button) => input.just_pressed_buttons.contains(button),
            Action::Key(key) => input.just_pressed_keys.contains(key),
            Action::Scroll(action) => spec_scroll_matches(action, input.wheel_deltas),
        }
    }
}

/// One physical input plus its required modifier set. Immutable once
/// constructed; rebinding replaces it wholesale.
#[derive(Debug, PartialEq, Eq)]
pub struct Hotkey {
    pub key: Action,
    pub modifiers: Vec<Modifier>,
}

impl View for Hotkey {
    type V = HotkeyView;

    open spec fn view(&self) -> HotkeyView {
        HotkeyView { key: self.key, modifiers: self.modifiers@ }
    }
}

impl Clone for Hotkey {
    fn clone(&self) -> (res: Self)
        ensures
            res@ == self@,
    {
        let mut modifiers: Vec<Modifier> = Vec::new();
        let mut i: usize = 0;
        while i < self.modifiers.len()
            invariant
                0 <= i <= self.modifiers@.len(),
                modifiers@ == self.modifiers@.take(i as int),
            decreases self.modifiers@.len() - i,
        {
            modifiers.push(self.modifiers[i]);
            proof {
                assert(modifiers@ =~= self.modifiers@.take(i as int + 1));
            }
            i += 1;
        }
        proof {
            assert(modifiers@ =~= self.modifiers@);
        }
        Hotkey { key: self.key, modifiers }
    }
}

/// Linear membership scan.
fn vec_modifier_contains(v: &Vec<Modifier>, m: Modifier) -> (r: bool)
    ensures
        r == v@.contains(m),
{
    let mut i: usize = 0;
    while i < v.len()
        invariant
            0 <= i <= v@.len(),
            forall|j: int| 0 <= j < i ==> v@[j] != m,
        decreases v@.len() - i,
    {
        if v[i] == m {
            return true;
        }
        i += 1;
    }
    false
}

impl Hotkey {
    /// Does the set of active modifiers in `input` exactly equal this
    /// hotkey's modifier requirement?
    fn modifiers_pressed(&self, input: &InputSnapshot) -> (r: bool)
        ensures
            r == spec_modifiers_match(self.modifiers@, input@),
    {
        let control_active = input.key_pressed(KEY_CONTROL_LEFT) || input.key_pressed(
            KEY_CONTROL_RIGHT,
        );
        let shift_active = input.key_pressed(KEY_SHIFT_LEFT) || input.key_pressed(KEY_SHIFT_RIGHT);
        let alt_active = input.key_pressed(KEY_ALT_LEFT) || input.key_pressed(KEY_ALT_RIGHT);
        (vec_modifier_contains(&self.modifiers, Modifier::Control) == control_active) && (
        vec_modifier_contains(&self.modifiers, Modifier::Shift) == shift_active) && (
        vec_modifier_contains(&self.modifiers, Modifier::Alt) == alt_active)
    }

    /// Level-triggered: is this hotkey held right now?
    pub fn pressed(&self, input: &InputSnapshot) -> (r: bool)
        ensures
            r == self@.spec_pressed(input@),
    {
        self.modifiers_pressed(input) && match self.key {
            Action::Button(button) => input.button_pressed(button),
            Action::Key(key) => input.key_pressed(key),
            Action::Scroll(_) => false,
        }
    }

    /// Edge-triggered: did this hotkey become pressed this tick?
    pub fn just_pressed(&self, input: &InputSnapshot) -> (r: bool)
        ensures
            r == self@.spec_just_pressed(input@),
    {
        self.modifiers_pressed(input) && match self.key {
            Action::Button(button) => input.button_just_pressed(button),
            Action::Key(key) => input.key_just_pressed(key),
            Action::Scroll(action) => scroll_matches(action, &input.wheel_deltas),
        }
    }

    /// The display text of this hotkey: the labels of its active modifiers
    /// in the fixed canonical order Control, Shift, Alt, each followed by
    /// `separator`, then `key_name`, the host-supplied display name of the
    /// bound input (hosts usually pass an empty name for button and scroll
    /// bindings).
    pub fn to_display_string(&self, key_name: &str, separator: &str) -> (r: String)
        ensures
            r@ == spec_display(self@, key_name@, separator@),
    {
        let mut r = String::new();
        if vec_modifier_contains(&self.modifiers, Modifier::Control) {
            r.append(Modifier::Control.to_str());
            r.append(separator);
        }
        if vec_modifier_contains(&self.modifiers, Modifier::Shift) {
            r.append(Modifier::Shift.to_str());
            r.append(separator);
        }
        if vec_modifier_contains(&self.modifiers, Modifier::Alt) {
            r.append(Modifier::Alt.to_str());
            r.append(separator);
        }
        r.append(key_name);
        proof {
            assert(r@ =~= spec_display(self@, key_name@, separator@));
        }
        r
    }
}

/// The display text of a hotkey: present modifiers' labels in canonical
/// order, each followed by the separator, then the key's display name.
pub open spec fn spec_display(h: HotkeyView, key_name: Seq<char>, separator: Seq<char>) -> Seq<
    char,
> {
    (if h.modifiers.contains(Modifier::Control) {
        Modifier::Control.spec_to_str() + separator
    } else {
        Seq::<char>::empty()
    }) + (if h.modifiers.contains(Modifier::Shift) {
        Modifier::Shift.spec_to_str() + separator
    } else {
        Seq::<char>::empty()
    }) + (if h.modifiers.contains(Modifier::Alt) {
        Modifier::Alt.spec_to_str() + separator
    } else {
        Seq::<char>::empty()
    }) + key_name
}

/// Does some wheel delta of this tick match direction `action`?
fn scroll_matches(action: MouseWheelAction, deltas: &Vec<i32>) -> (r: bool)
    ensures
        r == spec_scroll_matches(action, deltas@),
{
    let mut i: usize = 0;
    while i < deltas.len()
        invariant
            0 <= i <= deltas@.len(),
            forall|j: int|
                0 <= j < i ==> !(match action {
                    MouseWheelAction::Up => deltas@[j] > 0,
                    MouseWheelAction::Down => deltas@[j] < 0,
                }),
        decreases deltas@.len() - i,
    {
        let matched = match action {
            MouseWheelAction::Up => deltas[i] > 0,
            MouseWheelAction::Down => deltas[i] < 0,
        };
        if matched {
            return true;
        }
        i += 1;
    }
    false
}

/// Exact-match law: a hotkey whose modifier requirement differs from the
/// set of active modifiers — strict subset, strict superset, or otherwise —
/// is neither pressed nor just-pressed.
pub proof fn lemma_modifier_exact_match(h: HotkeyView, input: InputSnapshotView, m: Modifier)
    requires
        h.modifiers.contains(m) != modifier_active(m, input),
    ensures
        !h.spec_pressed(input),
        !h.spec_just_pressed(input),
{
}

} // verus!
