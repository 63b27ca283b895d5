//! The atomic physical input that a hotkey binds to.

use vstd::prelude::*;

use crate::mouse_wheel_action::MouseWheelAction;

verus! {

/// One physical input: a mouse button, a wheel-scroll direction, or a
/// keyboard key. Keys and buttons are identified by the plain codes that
/// the host's input backend reports.
#[derive(Clone, Copy, Debug, PartialEq, Eq, Structural)]
pub enum Action {
    Button(u32),
    Scroll(MouseWheelAction),
    Key(u32),
}

} // verus!
