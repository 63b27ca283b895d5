//! The per-action derived state for one tick: the edge- and
//! level-triggered flags plus the repeat timing state.

use vstd::prelude::*;

use crate::hotkey_config::KeyRepeatSettings;
use crate::input_snapshot::InputSnapshot;
use crate::input_snapshot::InputSnapshotView;
use crate::key_repeat_state::spec_fresh_repeat;
use crate::key_repeat_state::spec_key_repeated;
use crate::key_repeat_state::spec_reset_repeat;
use crate::key_repeat_state::spec_tick_repeat;
use crate::key_repeat_state::KeyRepeatState;
use crate::hotkey::HotkeyView;
use crate::spec_list_just_pressed;
use crate::spec_list_pressed;
use crate::Hotkeys;

verus! {

/// One action's state, derived each tick from the action's hotkey list
/// and the raw input snapshot.
#[derive(Clone, Copy, Debug, PartialEq, Eq, Structural)]
pub struct HotkeyState {
    pub just_pressed: bool,
    pub pressed: bool,
    pub just_released: bool,
    pub repeat_state: KeyRepeatState,
    pub repeated: bool,
}

/// A freshly tracked action: nothing pressed, repeat timer at the start
/// of its initial wait.
pub open spec fn spec_fresh_state(settings: KeyRepeatSettings) -> HotkeyState {
    HotkeyState {
        just_pressed: false,
        pressed: false,
        just_released: false,
        repeat_state: spec_fresh_repeat(settings),
        repeated: false,
    }
}

/// What one tick does to an action's state, given its hotkey list and the
/// input snapshot: edges from the list evaluation, release from the
/// previous level, repeat from the timer — with the first press itself
/// counting as a repeat pulse.
pub open spec fn spec_update_state(
    s: HotkeyState,
    hotkeys: Seq<HotkeyView>,
    input: InputSnapshotView,
    delta: u32,
) -> HotkeyState {
    let just_pressed = spec_list_just_pressed(hotkeys, input);
    let pressed = spec_list_pressed(hotkeys, input);
    let just_released = s.pressed && !pressed;
    let ticked = spec_tick_repeat(s.repeat_state, delta, pressed);
    let fired = spec_key_repeated(ticked);
    HotkeyState {
        just_pressed,
        pressed,
        just_released,
        repeat_state: fired.0,
        repeated: fired.1 || just_pressed,
    }
}

/// What `reset` does: clear every flag and restart the repeat timer.
pub open spec fn spec_reset_state(s: HotkeyState) -> HotkeyState {
    HotkeyState {
        just_pressed: false,
        pressed: false,
        just_released: false,
        repeat_state: spec_reset_repeat(s.repeat_state),
        repeated: false,
    }
}

impl HotkeyState {
    /// A freshly tracked action's state.
    pub fn from_settings(key_repeat_settings: &KeyRepeatSettings) -> (r: Self)
        ensures
            r == spec_fresh_state(*key_repeat_settings),
    {
        HotkeyState {
            just_pressed: false,
            pressed: false,
            just_released: false,
            repeat_state: KeyRepeatState::from_settings(key_repeat_settings),
            repeated: false,
        }
    }

    /// Derive this action's state for the current tick. A press reports a
    /// repeat pulse on its very first tick, before any timer firing.
    pub fn update(&mut self, hotkey: &Hotkeys, input: &InputSnapshot, delta: u32)
        ensures
            *final(self) == spec_update_state(*old(self), hotkey@, input@, delta),
            final(self).just_pressed ==> final(self).repeated,
    {
        self.just_pressed = hotkey.just_pressed(input);
        let previously_pressed = self.pressed;
        self.pressed = hotkey.pressed(input);
        self.just_released = previously_pressed && !self.pressed;
        self.repeat_state.tick(delta, self.pressed);
        let fired = self.repeat_state.key_repeated();
        self.repeated = fired || self.just_pressed;
    }

    /// Clear every flag and restart the repeat timer, decoupled from
    /// normal release detection.
    pub fn reset(&mut self)
        ensures
            *final(self) == spec_reset_state(*old(self)),
    {
        self.just_pressed = false;
        self.pressed = false;
        self.just_released = false;
        self.repeated = false;
        self.repeat_state.reset();
    }
}

} // verus!
