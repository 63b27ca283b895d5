//! The per-tick snapshot of raw input that the host's backend hands to the
//! resolution engine: currently-held keys and buttons, the keys and buttons
//! that became pressed this tick, and this tick's wheel-scroll events.

use vstd::prelude::*;

verus! {

/// Mathematical model of an input snapshot.
pub ghost struct InputSnapshotView {
    /// Keys currently held down.
    pub pressed_keys: Seq<u32>,
    /// Keys that became pressed this tick.
    pub just_pressed_keys: Seq<u32>,
    /// Mouse buttons currently held down.
    pub pressed_buttons: Seq<u32>,
    /// Mouse buttons that became pressed this tick.
    pub just_pressed_buttons: Seq<u32>,
    /// Signed vertical deltas of this tick's wheel-scroll events.
    pub wheel_deltas: Seq<i32>,
}

/// One tick's worth of raw input, as plain values. The engine never owns or
/// advances this; the host builds a fresh snapshot each tick.
pub struct InputSnapshot {
    pub pressed_keys: Vec<u32>,
    pub just_pressed_keys: Vec<u32>,
    pub pressed_buttons: Vec<u32>,
    pub just_pressed_buttons: Vec<u32>,
    pub wheel_deltas: Vec<i32>,
}

impl View for InputSnapshot {
    type V = InputSnapshotView;

    open spec fn view(&self) -> InputSnapshotView {
        InputSnapshotView {
            pressed_keys: self.pressed_keys@,
            just_pressed_keys: self.just_pressed_keys@,
            pressed_buttons: self.pressed_buttons@,
            just_pressed_buttons: self.just_pressed_buttons@,
            wheel_deltas: self.wheel_deltas@,
        }
    }
}

/// Linear membership scan.
fn vec_u32_contains(v: &Vec<u32>, x: u32) -> (r: bool)
    ensures
        r == v@.contains(x),
{
    let mut i: usize = 0;
    while i < v.len()
        invariant
            0 <= i <= v@.len(),
            forall|j: int| 0 <= j < i ==> v@[j] != x,
        decreases v@.len() - i,
    {
        if v[i] == x {
            return true;
        }
        i += 1;
    }
    false
}

impl InputSnapshot {
    /// A snapshot with no input at all.
    pub fn empty() -> (r: InputSnapshot)
        ensures
            r@.pressed_keys == Seq::<u32>::empty(),
            r@.just_pressed_keys == Seq::<u32>::empty(),
            r@.pressed_buttons == Seq::<u32>::empty(),
            r@.just_pressed_buttons == Seq::<u32>::empty(),
            r@.wheel_deltas == Seq::<i32>::empty(),
    {
        InputSnapshot {
            pressed_keys: Vec::new(),
            just_pressed_keys: Vec::new(),
            pressed_buttons: Vec::new(),
            just_pressed_buttons: Vec::new(),
            wheel_deltas: Vec::new(),
        }
    }

    /// Is `key` currently held?
    pub fn key_pressed(&self, key: u32) -> (r: bool)
        ensures
            r == self@.pressed_keys.contains(key),
    {
        vec_u32_contains(&self.pressed_keys, key)
    }

    /// Did `key` become pressed this tick?
    pub fn key_just_pressed(&self, key: u32) -> (r: bool)
        ensures
            r == self@.just_pressed_keys.contains(key),
    {
        vec_u32_contains(&self.just_pressed_keys, key)
    }

    /// Is `button` currently held?
    pub fn button_pressed(&self, button: u32) -> (r: bool)
        ensures
            r == self@.pressed_buttons.contains(button),
    {
        vec_u32_contains(&self.pressed_buttons, button)
    }

    /// Did `button` become pressed this tick?
    pub fn button_just_pressed(&self, button: u32) -> (r: bool)
        ensures
            r == self@.just_pressed_buttons.contains(button),
    {
        vec_u32_contains(&self.just_pressed_buttons, button)
    }

    /// Is any key or button currently held?
    pub fn any_pressed(&self) -> (r: bool)
        ensures
            r == (self@.pressed_keys.len() > 0 || self@.pressed_buttons.len() > 0),
    {
        self.pressed_keys.len() > 0 || self.pressed_buttons.len() > 0
    }

    /// Forcibly un-press every key, so that no key that was held at the
    /// moment focus changed can remain stuck pressed.
    pub fn release_all_keys(&mut self)
        ensures
            final(self)@ == (InputSnapshotView {
                pressed_keys: Seq::<u32>::empty(),
                ..old(self)@
            }),
    {
        self.pressed_keys.clear();
    }
}

} // verus!
