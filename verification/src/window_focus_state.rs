//! The focus gate: suppresses input processing while window focus is
//! being reclaimed, so that the input that caused the refocus cannot be
//! seen as a phantom press.

use vstd::prelude::*;

verus! {

/// The two-state focus gate, re-evaluated fresh every tick from the
/// focus flag and the current press state only.
#[derive(Clone, Copy, Debug, PartialEq, Eq, Structural)]
pub enum WindowFocusState {
    InFocus,
    OutOfFocusOrWaitingForInputRelease,
}

impl Default for WindowFocusState {
    fn default() -> (r: Self)
        ensures
            r == WindowFocusState::InFocus,
    {
        WindowFocusState::InFocus
    }
}

/// The transition: next state and whether interaction is allowed, given
/// the focus flag and whether any key or button is currently held.
pub open spec fn spec_focus_step(
    s: WindowFocusState,
    focused: bool,
    any_input_pressed: bool,
) -> (WindowFocusState, bool) {
    if !focused {
        (WindowFocusState::OutOfFocusOrWaitingForInputRelease, false)
    } else {
        match s {
            WindowFocusState::InFocus => (WindowFocusState::InFocus, true),
            WindowFocusState::OutOfFocusOrWaitingForInputRelease => {
                if any_input_pressed {
                    // The window is focused again, but a key or button is
                    // still held — possibly the one that refocused the
                    // window. Wait for it to be released.
                    (WindowFocusState::OutOfFocusOrWaitingForInputRelease, false)
                } else {
                    (WindowFocusState::InFocus, true)
                }
            },
        }
    }
}

impl WindowFocusState {
    /// Evaluate the transition for this tick: `focused` is the window's
    /// focus flag, `any_input_pressed` whether any key or button is held.
    pub fn interaction_allowed(&mut self, focused: bool, any_input_pressed: bool) -> (r: bool)
        ensures
            *final(self) == spec_focus_step(*old(self), focused, any_input_pressed).0,
            r == spec_focus_step(*old(self), focused, any_input_pressed).1,
    {
        if focused {
            match *self {
                WindowFocusState::InFocus => true,
                WindowFocusState::OutOfFocusOrWaitingForInputRelease => {
                    if any_input_pressed {
                        false
                    } else {
                        *self = WindowFocusState::InFocus;
                        true
                    }
                },
            }
        } else {
            *self = WindowFocusState::OutOfFocusOrWaitingForInputRelease;
            false
        }
    }
}

} // verus!
