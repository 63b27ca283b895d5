//! Wheel-scroll directions that a hotkey can bind to.

use vstd::prelude::*;

verus! {

/// A mouse-wheel direction. Scroll input has no "held" state: it only
/// supports edge detection against the per-tick stream of wheel events.
#[derive(Clone, Copy, Debug, PartialEq, Eq, Structural)]
pub enum MouseWheelAction {
    Up,
    Down,
}

} // verus!
