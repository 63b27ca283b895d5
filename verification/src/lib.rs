//! A hotkey resolution and state-transition engine. A configurable
//! mapping from logical actions to physical input combinations (keys,
//! mouse buttons, wheel directions, each with a required modifier set) is
//! resolved once per simulation tick against a raw input snapshot, and
//! edge-triggered, level-triggered and repeat queries are exposed to the
//! application. Live interactive rebinding, a window-focus guard against
//! stuck keys, and an exact byte serialization of the binding table are
//! included. The host feeds the engine plain values each tick: held keys
//! and buttons, this tick's wheel deltas, the focus flag and the elapsed
//! time in milliseconds; actions are identified by plain `u64` ids.

pub mod action;
pub mod assoc;
pub mod hotkey;
pub mod hotkey_config;
pub mod hotkey_listener;
pub mod hotkey_state;
pub mod hotkey_states;
pub mod input_snapshot;
pub mod key_repeat_state;
pub mod modifier;
pub mod mouse_wheel_action;
pub mod serialization;
pub mod window_focus_state;

use vstd::prelude::*;

use crate::hotkey::Hotkey;
use crate::hotkey::HotkeyView;
use crate::input_snapshot::InputSnapshot;
use crate::input_snapshot::InputSnapshotView;

verus! {

/// Does some hotkey of the list hold level-pressed in `input`?
pub open spec fn spec_list_pressed(hotkeys: Seq<HotkeyView>, input: InputSnapshotView) -> bool {
    exists|i: int| 0 <= i < hotkeys.len() && hotkeys[i].spec_pressed(input)
}

/// Did some hotkey of the list become pressed this tick?
pub open spec fn spec_list_just_pressed(
    hotkeys: Seq<HotkeyView>,
    input: InputSnapshotView,
) -> bool {
    exists|i: int| 0 <= i < hotkeys.len() && hotkeys[i].spec_just_pressed(input)
}

/// The ordered list of alternative hotkeys bound to one logical action.
/// Activation is a disjunction: any satisfied alternative activates the
/// action. Rebinding addresses a slot by its position in the list.
#[derive(Debug, PartialEq, Eq)]
pub struct Hotkeys(pub Vec<Hotkey>);

impl View for Hotkeys {
    type V = Seq<HotkeyView>;

    open spec fn view(&self) -> Seq<HotkeyView> {
        Seq::new(self.0@.len(), |i: int| self.0@[i]@)
    }
}

impl Clone for Hotkeys {
    fn clone(&self) -> (res: Self)
        ensures
            res@ == self@,
    {
        let mut v: Vec<Hotkey> = Vec::new();
        let mut i: usize = 0;
        while i < self.0.len()
            invariant
                0 <= i <= self.0@.len(),
                v@.len() == i,
                forall|j: int| 0 <= j < i ==> v@[j]@ == self@[j],
            decreases self.0@.len() - i,
        {
            v.push(self.0[i].clone());
            i += 1;
        }
        let res = Hotkeys(v);
        proof {
            assert(res@ =~= self@);
        }
        res
    }
}

impl Hotkeys {
    /// A list holding exactly the given hotkeys, in order.
    pub fn new(hotkeys: Vec<Hotkey>) -> (r: Self)
        ensures
            r@ == Seq::new(hotkeys@.len(), |i: int| hotkeys@[i]@),
    {
        Hotkeys(hotkeys)
    }

    /// Append a hotkey as the last alternative.
    pub fn push(&mut self, hotkey: Hotkey)
        ensures
            final(self)@ == old(self)@.push(hotkey@),
    {
        self.0.push(hotkey);
        proof {
            assert(self@ =~= old(self)@.push(hotkey@));
        }
    }

    /// Disjunction over the alternatives: did any become pressed this tick?
    pub fn just_pressed(&self, input: &InputSnapshot) -> (r: bool)
        ensures
            r == spec_list_just_pressed(self@, input@),
    {
        let mut i: usize = 0;
        while i < self.0.len()
            invariant
                0 <= i <= self.0@.len(),
                forall|j: int| 0 <= j < i ==> !self@[j].spec_just_pressed(input@),
            decreases self.0@.len() - i,
        {
            if self.0[i].just_pressed(input) {
                proof {
                    assert(self@[i as int].spec_just_pressed(input@));
                }
                return true;
            }
            i += 1;
        }
        false
    }

    /// Disjunction over the alternatives: is any held right now?
    pub fn pressed(&self, input: &InputSnapshot) -> (r: bool)
        ensures
            r == spec_list_pressed(self@, input@),
    {
        let mut i: usize = 0;
        while i < self.0.len()
            invariant
                0 <= i <= self.0@.len(),
                forall|j: int| 0 <= j < i ==> !self@[j].spec_pressed(input@),
            decreases self.0@.len() - i,
        {
            if self.0[i].pressed(input) {
                proof {
                    assert(self@[i as int].spec_pressed(input@));
                }
                return true;
            }
            i += 1;
        }
        false
    }

    /// Delete the hotkey at slot `num`; out-of-range slots are a no-op.
    pub fn try_remove_hotkey(&mut self, num: usize)
        ensures
            final(self)@ == if num < old(self)@.len() {
                old(self)@.remove(num as int)
            } else {
                old(self)@
            },
    {
        if self.0.len() > num {
            self.0.remove(num);
            proof {
                assert(self@ =~= old(self)@.remove(num as int));
            }
        }
    }

    /// Overwrite slot `num` with `hotkey`; a slot beyond the current length
    /// appends instead — the grow-on-demand policy of rebinding.
    pub fn change_hotkey(&mut self, num: usize, hotkey: Hotkey)
        ensures
            final(self)@ == if num < old(self)@.len() {
                old(self)@.update(num as int, hotkey@)
            } else {
                old(self)@.push(hotkey@)
            },
    {
        if self.0.len() <= num {
            self.0.push(hotkey);
            proof {
                assert(self@ =~= old(self)@.push(hotkey@));
            }
        } else {
            self.0[num] = hotkey;
            proof {
                assert(self@ =~= old(self)@.update(num as int, hotkey@));
            }
        }
    }

    /// The alternatives, in order, for display of the current bindings.
    pub fn iter(&self) -> (r: &Vec<Hotkey>)
        ensures
            r@.len() == self@.len(),
            forall|i: int| 0 <= i < r@.len() ==> r@[i]@ == self@[i],
    {
        &self.0
    }

    /// The hotkey at slot `num`, if that slot exists.
    pub fn get(&self, num: usize) -> (r: Option<&Hotkey>)
        ensures
            match r {
                Some(h) => num < self@.len() && h@ == self@[num as int],
                None => num >= self@.len(),
            },
    {
        if num < self.0.len() {
            Some(&self.0[num])
        } else {
            None
        }
    }
}

} // verus!
