//! The live runtime registry: owns the binding table and the per-action
//! states. The per-tick update entry point and the query surface that the
//! rest of the application reads.

use vstd::prelude::*;

use crate::assoc::contains_key;
use crate::assoc::find_key;
use crate::assoc::key_index;
use crate::assoc::lemma_contains_key_exists;
use crate::assoc::lemma_key_index;
use crate::assoc::lemma_lookup_map_values;
use crate::assoc::lemma_lookup_skip;
use crate::assoc::lemma_lookup_update;
use crate::assoc::lemma_set_entry;
use crate::assoc::lemma_unique_push;
use crate::assoc::lookup;
use crate::assoc::set_entry;
use crate::assoc::unique_keys;
use crate::hotkey_config::spec_insert_hotkeys;
use crate::hotkey_config::HotkeyConfig;
use crate::hotkey_config::HotkeyConfigView;
use crate::hotkey_config::KeyRepeatSettings;
use crate::hotkey_state::spec_fresh_state;
use crate::hotkey_state::spec_reset_state;
use crate::hotkey_state::spec_update_state;
use crate::hotkey_state::HotkeyState;
use crate::hotkey::HotkeyView;
use crate::input_snapshot::InputSnapshot;
use crate::input_snapshot::InputSnapshotView;
use crate::window_focus_state::spec_focus_step;
use crate::window_focus_state::WindowFocusState;
use crate::Hotkeys;

verus! {

/// Mathematical model of the registry.
pub ghost struct HotkeyStatesView {
    /// The binding table.
    pub config: HotkeyConfigView,
    /// The key-repeat timing handed to newly tracked actions.
    pub key_repeat: KeyRepeatSettings,
    /// The tracked per-action states, keyed by action.
    pub states: Seq<(u64, HotkeyState)>,
}

/// The registry: the binding table (rebinding writes here), the
/// key-repeat timing, and the lazily grown per-action states.
#[derive(Debug, PartialEq, Eq)]
pub struct HotkeyStates {
    pub config: HotkeyConfig,
    pub key_repeat: KeyRepeatSettings,
    pub states: Vec<(u64, HotkeyState)>,
}

impl View for HotkeyStates {
    type V = HotkeyStatesView;

    open spec fn view(&self) -> HotkeyStatesView {
        HotkeyStatesView {
            config: self.config@,
            key_repeat: self.key_repeat,
            states: self.states@,
        }
    }
}

/// The edge query: does the tracked state of `name` report a press edge?
/// An untracked action reports nothing.
pub open spec fn spec_query_just_pressed(v: HotkeyStatesView, name: u64) -> bool {
    match lookup(v.states, name) {
        Some(st) => st.just_pressed,
        None => false,
    }
}

/// The level query: does the tracked state of `name` report held?
pub open spec fn spec_query_pressed(v: HotkeyStatesView, name: u64) -> bool {
    match lookup(v.states, name) {
        Some(st) => st.pressed,
        None => false,
    }
}

/// The edge query: does the tracked state of `name` report a release edge?
pub open spec fn spec_query_just_released(v: HotkeyStatesView, name: u64) -> bool {
    match lookup(v.states, name) {
        Some(st) => st.just_released,
        None => false,
    }
}

/// The repeat query: does the tracked state of `name` report a pulse?
pub open spec fn spec_query_repeated(v: HotkeyStatesView, name: u64) -> bool {
    match lookup(v.states, name) {
        Some(st) => st.repeated,
        None => false,
    }
}

/// One binding's effect on the state table during an update pass: a
/// tracked action's state is derived anew; an untracked one is appended
/// fresh, deferring its first real update to the next tick.
pub open spec fn spec_states_step(
    states: Seq<(u64, HotkeyState)>,
    entry: (u64, Seq<HotkeyView>),
    input: InputSnapshotView,
    delta: u32,
    settings: KeyRepeatSettings,
) -> Seq<(u64, HotkeyState)> {
    if contains_key(states, entry.0) {
        let i = key_index(states, entry.0);
        states.update(i, (entry.0, spec_update_state(states[i].1, entry.1, input, delta)))
    } else {
        states.push((entry.0, spec_fresh_state(settings)))
    }
}

/// The whole update pass: every binding applied in table order.
pub open spec fn spec_states_update(
    states: Seq<(u64, HotkeyState)>,
    cfg: Seq<(u64, Seq<HotkeyView>)>,
    input: InputSnapshotView,
    delta: u32,
    settings: KeyRepeatSettings,
) -> Seq<(u64, HotkeyState)>
    decreases cfg.len(),
{
    if cfg.len() == 0 {
        states
    } else {
        spec_states_step(
            spec_states_update(states, cfg.drop_last(), input, delta, settings),
            cfg.last(),
            input,
            delta,
            settings,
        )
    }
}

/// The names of the actions whose tracked state reports a press edge, in
/// tracking order.
pub open spec fn spec_just_pressed_names(states: Seq<(u64, HotkeyState)>) -> Seq<u64>
    decreases states.len(),
{
    if states.len() == 0 {
        Seq::<u64>::empty()
    } else if states.last().1.just_pressed {
        spec_just_pressed_names(states.drop_last()).push(states.last().0)
    } else {
        spec_just_pressed_names(states.drop_last())
    }
}

impl HotkeyStates {
    /// Keys pairwise distinct in both tables: the well-formedness every
    /// method preserves.
    pub open spec fn wf(&self) -> bool {
        self.config.wf() && unique_keys(self@.states)
    }

    /// A registry over the given bindings and timing; no action tracked
    /// yet.
    pub fn from_settings(config: HotkeyConfig, key_repeat: KeyRepeatSettings) -> (r: Self)
        requires
            config.wf(),
        ensures
            r@.config == config@,
            r@.key_repeat == key_repeat,
            r@.states == Seq::<(u64, HotkeyState)>::empty(),
            r.wf(),
    {
        let r = HotkeyStates { states: Vec::new(), key_repeat, config };
        proof {
            assert(r@.states =~= Seq::<(u64, HotkeyState)>::empty());
        }
        r
    }

    /// The tracked state of `name`, if the action has been seen.
    fn get_state(&self, name: u64) -> (r: Option<&HotkeyState>)
        ensures
            match r {
                Some(st) => lookup(self@.states, name) == Some(*st),
                None => lookup(self@.states, name) is None,
            },
    {
        let found = find_key(&self.states, name);
        match found {
            Some(i) => {
                proof {
                    lemma_lookup_skip(self@.states, name, i as int);
                    assert(self@.states.skip(i as int)[0] == self@.states[i as int]);
                }
                Some(&self.states[i].1)
            },
            None => {
                proof {
                    lemma_lookup_skip(self@.states, name, self@.states.len() as int);
                    assert(self@.states.skip(self@.states.len() as int) =~= Seq::<(
                        u64,
                        HotkeyState,
                    )>::empty());
                }
                None
            },
        }
    }

    /// Did `name` become pressed this tick? Unknown actions report false.
    pub fn just_pressed(&self, name: u64) -> (r: bool)
        ensures
            r == spec_query_just_pressed(self@, name),
    {
        match self.get_state(name) {
            Some(state) => state.just_pressed,
            None => false,
        }
    }

    /// Did `name` become released this tick? Unknown actions report false.
    pub fn just_released(&self, name: u64) -> (r: bool)
        ensures
            r == spec_query_just_released(self@, name),
    {
        match self.get_state(name) {
            Some(state) => state.just_released,
            None => false,
        }
    }

    /// Is `name` held right now? Unknown actions report false.
    pub fn pressed(&self, name: u64) -> (r: bool)
        ensures
            r == spec_query_pressed(self@, name),
    {
        match self.get_state(name) {
            Some(state) => state.pressed,
            None => false,
        }
    }

    /// Is a repeat pulse due for `name` this tick? Unknown actions report
    /// false.
    pub fn repeated(&self, name: u64) -> (r: bool)
        ensures
            r == spec_query_repeated(self@, name),
    {
        match self.get_state(name) {
            Some(state) => state.repeated,
            None => false,
        }
    }

    /// The actions whose state reports a press edge, in tracking order.
    pub fn iter_just_pressed(&self) -> (r: Vec<u64>)
        ensures
            r@ == spec_just_pressed_names(self@.states),
    {
        let mut r: Vec<u64> = Vec::new();
        let mut i: usize = 0;
        while i < self.states.len()
            invariant
                0 <= i <= self@.states.len(),
                r@ == spec_just_pressed_names(self@.states.take(i as int)),
            decreases self@.states.len() - i,
        {
            proof {
                assert(self@.states.take(i as int + 1).drop_last() =~= self@.states.take(i as int));
                assert(self@.states.take(i as int + 1).last() == self@.states[i as int]);
            }
            if self.states[i].1.just_pressed {
                r.push(self.states[i].0);
            }
            i += 1;
        }
        proof {
            assert(self@.states.take(self@.states.len() as int) =~= self@.states);
        }
        r
    }

    /// Reset every tracked state: afterwards every query reports false for
    /// every action, whatever held before.
    pub fn flush(&mut self)
        ensures
            final(self)@.config == old(self)@.config,
            final(self)@.key_repeat == old(self)@.key_repeat,
            final(self)@.states == Seq::new(
                old(self)@.states.len(),
                |i: int| (old(self)@.states[i].0, spec_reset_state(old(self)@.states[i].1)),
            ),
            old(self).wf() ==> final(self).wf(),
            forall|name: u64| !spec_query_just_pressed(final(self)@, name),
            forall|name: u64| !spec_query_pressed(final(self)@, name),
            forall|name: u64| !spec_query_just_released(final(self)@, name),
            forall|name: u64| !spec_query_repeated(final(self)@, name),
    {
        let ghost os = old(self)@.states;
        let mut j: usize = 0;
        while j < self.states.len()
            invariant
                0 <= j <= os.len(),
                os == old(self)@.states,
                self@.states.len() == os.len(),
                self@.config == old(self)@.config,
                self@.key_repeat == old(self)@.key_repeat,
                forall|m: int|
                    0 <= m < j ==> self@.states[m] == (os[m].0, spec_reset_state(os[m].1)),
                forall|m: int| j <= m < os.len() ==> self@.states[m] == os[m],
            decreases os.len() - j,
        {
            let name = self.states[j].0;
            let mut st = self.states[j].1;
            st.reset();
            self.states[j] = (name, st);
            j += 1;
        }
        proof {
            let f = |st: HotkeyState| spec_reset_state(st);
            let mapped = Seq::new(os.len(), |i: int| (os[i].0, f(os[i].1)));
            assert(self@.states =~= mapped);
            assert(self@.states =~= Seq::new(
                os.len(),
                |i: int| (os[i].0, spec_reset_state(os[i].1)),
            ));
            assert forall|name: u64|
                !spec_query_just_pressed(self@, name) && !spec_query_pressed(self@, name)
                    && !spec_query_just_released(self@, name) && !spec_query_repeated(
                    self@,
                    name,
                ) by {
                lemma_lookup_map_values(os, f, name);
            }
        }
    }

    /// One tick: walk the whole binding table; derive every tracked
    /// action's state anew and start tracking the actions seen for the
    /// first time.
    pub fn update(&mut self, input: &InputSnapshot, delta: u32)
        requires
            old(self).wf(),
        ensures
            final(self).wf(),
            final(self)@.config == old(self)@.config,
            final(self)@.key_repeat == old(self)@.key_repeat,
            final(self)@.states == spec_states_update(
                old(self)@.states,
                old(self)@.config.map,
                input@,
                delta,
                old(self)@.key_repeat,
            ),
            forall|name: u64|
                lookup(final(self)@.states, name) == (match lookup(old(self)@.states, name) {
                    Some(st) => if contains_key(old(self)@.config.map, name) {
                        Some(
                            spec_update_state(
                                st,
                                lookup(old(self)@.config.map, name).unwrap(),
                                input@,
                                delta,
                            ),
                        )
                    } else {
                        Some(st)
                    },
                    None => if contains_key(old(self)@.config.map, name) {
                        Some(spec_fresh_state(old(self)@.key_repeat))
                    } else {
                        None
                    },
                }),
    {
        let ghost os = old(self)@.states;
        let ghost cfg = old(self)@.config.map;
        proof {
            assert(cfg.take(0) =~= Seq::<(u64, Seq<HotkeyView>)>::empty());
        }
        let mut i: usize = 0;
        while i < self.config.map.len()
            invariant
                0 <= i <= cfg.len(),
                cfg == old(self)@.config.map,
                os == old(self)@.states,
                self@.config == old(self)@.config,
                self@.key_repeat == old(self)@.key_repeat,
                self.config.wf(),
                unique_keys(self@.states),
                self@.states == spec_states_update(os, cfg.take(i as int), input@, delta, self@.key_repeat),
            decreases cfg.len() - i,
        {
            let name = self.config.map[i].0;
            proof {
                assert(cfg[i as int].0 == name);
                assert(cfg.take(i as int + 1).drop_last() =~= cfg.take(i as int));
                assert(cfg.take(i as int + 1).last() == cfg[i as int]);
                lemma_contains_key_exists(self@.states, name);
            }
            let found = find_key(&self.states, name);
            match found {
                None => {
                    proof {
                        assert(!contains_key(self@.states, name));
                        lemma_unique_push(
                            self@.states,
                            (name, spec_fresh_state(self@.key_repeat)),
                        );
                    }
                    let fresh = HotkeyState::from_settings(&self.key_repeat);
                    self.states.push((name, fresh));
                    proof {
                        assert(self@.states =~= spec_states_update(
                            os,
                            cfg.take(i as int + 1),
                            input@,
                            delta,
                            self@.key_repeat,
                        ));
                    }
                },
                Some(j) => {
                    proof {
                        assert(self@.states[j as int].0 == name);
                        assert(contains_key(self@.states, name));
                        lemma_key_index(self@.states, name);
                        assert(key_index(self@.states, name) == j as int);
                        lemma_lookup_update(
                            self@.states,
                            j as int,
                            spec_update_state(self@.states[j as int].1, cfg[i as int].1, input@, delta),
                        );
                    }
                    let mut st = self.states[j].1;
                    st.update(&self.config.map[i].1, input, delta);
                    self.states[j] = (name, st);
                    proof {
                        assert(self@.states =~= spec_states_update(
                            os,
                            cfg.take(i as int + 1),
                            input@,
                            delta,
                            self@.key_repeat,
                        ));
                    }
                },
            }
            i += 1;
        }
        proof {
            assert(cfg.take(cfg.len() as int) =~= cfg);
            assert forall|name: u64| true implies lookup(self@.states, name) == (match lookup(
                os,
                name,
            ) {
                Some(st) => if contains_key(cfg, name) {
                    Some(spec_update_state(st, lookup(cfg, name).unwrap(), input@, delta))
                } else {
                    Some(st)
                },
                None => if contains_key(cfg, name) {
                    Some(spec_fresh_state(self@.key_repeat))
                } else {
                    None
                },
            }) by {
                lemma_states_update_lookup(os, cfg, input@, delta, self@.key_repeat, name);
            }
        }
    }

    /// The hotkey list bound to `name`, for display of the current
    /// bindings.
    pub fn get(&self, name: u64) -> (r: Option<&Hotkeys>)
        ensures
            match r {
                Some(hks) => lookup(self@.config.map, name) == Some(hks@),
                None => lookup(self@.config.map, name) is None,
            },
    {
        self.config.get(name)
    }

    /// Rebind `name` wholesale: the only mutation path rebinding uses. The
    /// change takes effect on the next update pass.
    pub fn change_config_for(&mut self, name: u64, hotkeys: Hotkeys)
        requires
            old(self).wf(),
        ensures
            final(self).wf(),
            final(self)@.config.map == spec_insert_hotkeys(old(self)@.config.map, name, hotkeys@),
            final(self)@.config.key_repeat == old(self)@.config.key_repeat,
            final(self)@.key_repeat == old(self)@.key_repeat,
            final(self)@.states == old(self)@.states,
    {
        self.config.insert_hotkeys(name, hotkeys);
    }

    /// Overwrite (or create) the tracked state of `name`.
    fn set_state(&mut self, name: u64, st: HotkeyState)
        requires
            old(self).wf(),
        ensures
            final(self).wf(),
            final(self)@.config == old(self)@.config,
            final(self)@.key_repeat == old(self)@.key_repeat,
            final(self)@.states == set_entry(old(self)@.states, name, st),
    {
        proof {
            lemma_contains_key_exists(self@.states, name);
            lemma_set_entry(self@.states, name, st);
        }
        let found = find_key(&self.states, name);
        match found {
            Some(j) => {
                proof {
                    assert(self@.states[j as int].0 == name);
                    assert(contains_key(self@.states, name));
                    lemma_key_index(self@.states, name);
                    assert(key_index(self@.states, name) == j as int);
                }
                self.states[j] = (name, st);
                proof {
                    assert(self@.states =~= set_entry(old(self)@.states, name, st));
                }
            },
            None => {
                self.states.push((name, st));
                proof {
                    assert(self@.states =~= set_entry(old(self)@.states, name, st));
                }
            },
        }
    }

    /// Force-track `name` as freshly pressed this tick: a test hook that
    /// plants a state without consulting any input.
    pub fn just_press_hotkey(&mut self, name: u64)
        requires
            old(self).wf(),
        ensures
            final(self).wf(),
            final(self)@.config == old(self)@.config,
            final(self)@.key_repeat == old(self)@.key_repeat,
            final(self)@.states == set_entry(
                old(self)@.states,
                name,
                HotkeyState {
                    pressed: true,
                    just_pressed: true,
                    ..spec_fresh_state(old(self)@.key_repeat)
                },
            ),
    {
        let mut st = HotkeyState::from_settings(&self.key_repeat);
        st.pressed = true;
        st.just_pressed = true;
        self.set_state(name, st);
    }

    /// Force-track `name` as held: a test hook.
    pub fn press_hotkey(&mut self, name: u64)
        requires
            old(self).wf(),
        ensures
            final(self).wf(),
            final(self)@.config == old(self)@.config,
            final(self)@.key_repeat == old(self)@.key_repeat,
            final(self)@.states == set_entry(
                old(self)@.states,
                name,
                HotkeyState { pressed: true, ..spec_fresh_state(old(self)@.key_repeat) },
            ),
    {
        let mut st = HotkeyState::from_settings(&self.key_repeat);
        st.pressed = true;
        self.set_state(name, st);
    }

    /// Force-track `name` as just released: a test hook.
    pub fn release_hotkey(&mut self, name: u64)
        requires
            old(self).wf(),
        ensures
            final(self).wf(),
            final(self)@.config == old(self)@.config,
            final(self)@.key_repeat == old(self)@.key_repeat,
            final(self)@.states == set_entry(
                old(self)@.states,
                name,
                HotkeyState { just_released: true, ..spec_fresh_state(old(self)@.key_repeat) },
            ),
    {
        let mut st = HotkeyState::from_settings(&self.key_repeat);
        st.just_released = true;
        self.set_state(name, st);
    }
}

/// One tick of the engine, gate included: evaluate the focus gate;
/// while interaction is allowed run the update pass over the whole
/// binding table; while it is not, forcibly un-press every key of the
/// snapshot so that none can stay stuck pressed across the focus change.
pub fn set_hotkey_states_from_input(
    hotkey_states: &mut HotkeyStates,
    window_focus_state: &mut WindowFocusState,
    focused: bool,
    input: &mut InputSnapshot,
    delta: u32,
)
    requires
        old(hotkey_states).wf(),
    ensures
        final(hotkey_states).wf(),
        final(hotkey_states)@.config == old(hotkey_states)@.config,
        final(hotkey_states)@.key_repeat == old(hotkey_states)@.key_repeat,
        *final(window_focus_state) == spec_focus_step(
            *old(window_focus_state),
            focused,
            old(input)@.pressed_keys.len() > 0 || old(input)@.pressed_buttons.len() > 0,
        ).0,
        spec_focus_step(
            *old(window_focus_state),
            focused,
            old(input)@.pressed_keys.len() > 0 || old(input)@.pressed_buttons.len() > 0,
        ).1 ==> final(input)@ == old(input)@ && final(hotkey_states)@.states
            == spec_states_update(
            old(hotkey_states)@.states,
            old(hotkey_states)@.config.map,
            old(input)@,
            delta,
            old(hotkey_states)@.key_repeat,
        ),
        !spec_focus_step(
            *old(window_focus_state),
            focused,
            old(input)@.pressed_keys.len() > 0 || old(input)@.pressed_buttons.len() > 0,
        ).1 ==> final(hotkey_states)@ == old(hotkey_states)@ && final(input)@ == (
        InputSnapshotView { pressed_keys: Seq::<u32>::empty(), ..old(input)@ }),
{
    let any = input.any_pressed();
    if window_focus_state.interaction_allowed(focused, any) {
        hotkey_states.update(input, delta);
    } else {
        input.release_all_keys();
    }
}

/// What an update pass means binding by binding: the state of an action
/// tracked before is derived anew from its binding; an action bound but
/// untracked becomes tracked fresh; an action without a binding keeps its
/// state; and no other action is tracked.
pub proof fn lemma_states_update_lookup(
    states: Seq<(u64, HotkeyState)>,
    cfg: Seq<(u64, Seq<HotkeyView>)>,
    input: InputSnapshotView,
    delta: u32,
    settings: KeyRepeatSettings,
    name: u64,
)
    requires
        unique_keys(states),
        unique_keys(cfg),
    ensures
        unique_keys(spec_states_update(states, cfg, input, delta, settings)),
        lookup(spec_states_update(states, cfg, input, delta, settings), name) == (match lookup(
            states,
            name,
        ) {
            Some(st) => if contains_key(cfg, name) {
                Some(spec_update_state(st, lookup(cfg, name).unwrap(), input, delta))
            } else {
                Some(st)
            },
            None => if contains_key(cfg, name) {
                Some(spec_fresh_state(settings))
            } else {
                None
            },
        }),
    decreases cfg.len(),
{
    if cfg.len() == 0 {
    } else {
        let prefix = cfg.drop_last();
        let last = cfg.last();
        assert(unique_keys(prefix)) by {
            assert(forall|m: int| 0 <= m < prefix.len() ==> prefix[m] == cfg[m]);
        }
        let mid = spec_states_update(states, prefix, input, delta, settings);
        lemma_states_update_lookup(states, prefix, input, delta, settings, name);
        lemma_states_update_lookup(states, prefix, input, delta, settings, last.0);
        // `last.0` does not occur among the earlier bindings.
        assert(!contains_key(prefix, last.0)) by {
            lemma_contains_key_exists(prefix, last.0);
            if contains_key(prefix, last.0) {
                let m = choose|m: int| 0 <= m < prefix.len() && prefix[m].0 == last.0;
                assert(cfg[m].0 == last.0);
                assert(cfg[cfg.len() - 1].0 == last.0);
            }
        }
        // Relate `cfg`'s bindings to its prefix's: `cfg` is the prefix with
        // one entry appended.
        assert(prefix.push(last) =~= cfg);
        crate::assoc::lemma_lookup_push(prefix, last, name);
        if contains_key(mid, last.0) {
            let ki = key_index(mid, last.0);
            lemma_key_index(mid, last.0);
            lemma_lookup_update(mid, ki, spec_update_state(mid[ki].1, last.1, input, delta));
        } else {
            crate::assoc::lemma_lookup_push(mid, (last.0, spec_fresh_state(settings)), name);
            lemma_unique_push(mid, (last.0, spec_fresh_state(settings)));
        }
    }
}

} // verus!
