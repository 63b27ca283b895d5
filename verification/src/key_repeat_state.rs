//! The per-action key-repeat timing state machine: one pulse after the
//! initial delay, then a pulse every repeat delay, for as long as the
//! hotkey stays held; any release restarts the initial wait.

use vstd::prelude::*;

use crate::hotkey_config::KeyRepeatSettings;

verus! {

/// Repeat timing state. Times are in milliseconds. The machine has two
/// phases: the one-shot initial wait (`in_fast_repeat` false, `duration`
/// is the initial delay) and the repeating fast phase (`in_fast_repeat`
/// true, `duration` is the repeat delay).
#[derive(Clone, Copy, Debug, PartialEq, Eq, Structural)]
pub struct KeyRepeatState {
    /// Time accumulated toward the next firing, capped at `duration` in
    /// the one-shot phase and wrapped modulo `duration` in the fast phase.
    pub elapsed: u32,
    /// Length of the current phase.
    pub duration: u32,
    /// One-shot phase only: has the timer already fired?
    pub finished: bool,
    /// Did the timer cross its duration during the most recent tick?
    pub just_finished: bool,
    /// Is the machine in the repeating fast phase?
    pub in_fast_repeat: bool,
    /// The configured hold time before the first pulse.
    pub initial_delay: u32,
    /// The configured time between subsequent pulses.
    pub delay: u32,
}

/// A freshly created repeat state for the given settings: the one-shot
/// initial wait, nothing elapsed, nothing fired.
pub open spec fn spec_fresh_repeat(settings: KeyRepeatSettings) -> KeyRepeatState {
    KeyRepeatState {
        elapsed: 0,
        duration: settings.initial_delay,
        finished: false,
        just_finished: false,
        in_fast_repeat: false,
        initial_delay: settings.initial_delay,
        delay: settings.delay,
    }
}

/// What `reset` does: restart the one-shot initial wait, keeping only the
/// configured delays.
pub open spec fn spec_reset_repeat(s: KeyRepeatState) -> KeyRepeatState {
    KeyRepeatState {
        elapsed: 0,
        duration: s.initial_delay,
        finished: false,
        just_finished: false,
        in_fast_repeat: false,
        ..s
    }
}

/// What `tick` does: advance the timer by `delta` while the hotkey is
/// held, and restart the initial wait the moment it is not.
pub open spec fn spec_tick_repeat(s: KeyRepeatState, delta: u32, is_pressed: bool) -> KeyRepeatState {
    if !is_pressed {
        spec_reset_repeat(s)
    } else if s.in_fast_repeat {
        if s.duration == 0 {
            KeyRepeatState { elapsed: 0, finished: true, just_finished: true, ..s }
        } else {
            let total = s.elapsed + delta;
            KeyRepeatState {
                elapsed: (total % (s.duration as int)) as u32,
                finished: total >= s.duration,
                just_finished: total >= s.duration,
                ..s
            }
        }
    } else {
        let total = s.elapsed + delta;
        KeyRepeatState {
            elapsed: if total >= s.duration {
                s.duration
            } else {
                total as u32
            },
            finished: s.finished || total >= s.duration,
            just_finished: !s.finished && total >= s.duration,
            ..s
        }
    }
}

/// What `key_repeated` does: report a pulse exactly when the timer fired
/// this tick; the first pulse switches the machine to the repeating fast
/// phase with a fresh timer of the repeat delay.
pub open spec fn spec_key_repeated(s: KeyRepeatState) -> (KeyRepeatState, bool) {
    if s.just_finished {
        if !s.in_fast_repeat {
            (
                KeyRepeatState {
                    elapsed: 0,
                    duration: s.delay,
                    finished: false,
                    just_finished: false,
                    in_fast_repeat: true,
                    ..s
                },
                true,
            )
        } else {
            (s, true)
        }
    } else {
        (s, false)
    }
}

/// Releasing restarts the wait: a tick without the hotkey held brings the
/// machine back to the start of the one-shot initial wait, whatever phase
/// it was in.
pub proof fn lemma_release_restarts_initial_wait(s: KeyRepeatState, delta: u32)
    ensures
        spec_tick_repeat(s, delta, false) == spec_reset_repeat(s),
        !spec_reset_repeat(s).in_fast_repeat,
        spec_reset_repeat(s).duration == s.initial_delay,
        spec_reset_repeat(s).elapsed == 0,
        !spec_reset_repeat(s).just_finished,
{
}

/// Pulse timing. During the initial wait a held tick pulses exactly when
/// the accumulated hold time reaches the initial delay; during the fast
/// phase (with a positive repeat delay) exactly when it reaches the
/// repeat delay since the previous pulse boundary.
pub proof fn lemma_repeat_pulse_timing(s: KeyRepeatState, delta: u32)
    ensures
        !s.in_fast_repeat && !s.finished ==> spec_key_repeated(
            spec_tick_repeat(s, delta, true),
        ).1 == (s.elapsed + delta >= s.duration),
        s.in_fast_repeat && s.duration > 0 ==> spec_key_repeated(
            spec_tick_repeat(s, delta, true),
        ).1 == (s.elapsed + delta >= s.duration),
        !s.in_fast_repeat && !s.finished && s.elapsed + delta >= s.duration ==> {
            let fired = spec_key_repeated(spec_tick_repeat(s, delta, true)).0;
            fired.in_fast_repeat && fired.duration == s.delay && fired.elapsed == 0
        },
{
}

impl KeyRepeatState {
    /// A fresh repeat state for the given settings.
    pub fn from_settings(key_repeat: &KeyRepeatSettings) -> (r: Self)
        ensures
            r == spec_fresh_repeat(*key_repeat),
    {
        KeyRepeatState {
            elapsed: 0,
            duration: key_repeat.initial_delay,
            finished: false,
            just_finished: false,
            in_fast_repeat: false,
            initial_delay: key_repeat.initial_delay,
            delay: key_repeat.delay,
        }
    }

    /// Report whether a repeat pulse is due. The first pulse of a hold
    /// switches to the repeating fast phase.
    pub fn key_repeated(&mut self) -> (r: bool)
        ensures
            *final(self) == spec_key_repeated(*old(self)).0,
            r == spec_key_repeated(*old(self)).1,
    {
        if self.just_finished {
            if !self.in_fast_repeat {
                self.in_fast_repeat = true;
                self.duration = self.delay;
                self.elapsed = 0;
                self.finished = false;
                self.just_finished = false;
            }
            true
        } else {
            false
        }
    }

    /// Advance the timer by `delta` milliseconds while the hotkey is held;
    /// a tick without the hotkey held restarts the initial wait.
    pub fn tick(&mut self, delta: u32, is_pressed: bool)
        ensures
            *final(self) == spec_tick_repeat(*old(self), delta, is_pressed),
    {
        if !is_pressed {
            self.reset();
        } else if self.in_fast_repeat {
            if self.duration == 0 {
                self.elapsed = 0;
                self.finished = true;
                self.just_finished = true;
            } else {
                let total: u64 = self.elapsed as u64 + delta as u64;
                let fired = total >= self.duration as u64;
                self.elapsed = (total % self.duration as u64) as u32;
                self.finished = fired;
                self.just_finished = fired;
            }
        } else {
            let total: u64 = self.elapsed as u64 + delta as u64;
            if total >= self.duration as u64 {
                self.just_finished = !self.finished;
                self.finished = true;
                self.elapsed = self.duration;
            } else {
                self.elapsed = total as u32;
                self.just_finished = false;
            }
        }
    }

    /// Restart the one-shot initial wait.
    pub fn reset(&mut self)
        ensures
            *final(self) == spec_reset_repeat(*old(self)),
    {
        self.elapsed = 0;
        self.duration = self.initial_delay;
        self.finished = false;
        self.just_finished = false;
        self.in_fast_repeat = false;
    }
}

} // verus!
