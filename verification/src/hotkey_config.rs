//! The declarative binding table: a mapping from logical action to its
//! ordered list of alternative hotkeys, plus the key-repeat timing
//! parameters.

use vstd::prelude::*;

use crate::assoc::contains_key;
use crate::assoc::key_index;
use crate::assoc::lemma_contains_key_exists;
use crate::assoc::lemma_key_index;
use crate::assoc::lemma_lookup_push;
use crate::assoc::lemma_lookup_update;
use crate::assoc::lemma_unique_push;
use crate::assoc::lookup;
use crate::assoc::unique_keys;
use crate::action::Action;
use crate::hotkey::Hotkey;
use crate::hotkey::HotkeyView;
use crate::modifier::Modifier;
use crate::Hotkeys;

verus! {

/// Default time a hotkey must be held before the first repeat pulse, in
/// milliseconds.
pub const DEFAULT_REPEAT_INITIAL_DELAY: u32 = 300;

/// Default time between subsequent repeat pulses, in milliseconds.
pub const DEFAULT_REPEAT_DELAY: u32 = 150;

/// Key-repeat timing parameters, in milliseconds.
#[derive(Clone, Copy, Debug, PartialEq, Eq, Structural)]
pub struct KeyRepeatSettings {
    /// Hold time before the first repeat pulse.
    pub initial_delay: u32,
    /// Time between subsequent repeat pulses.
    pub delay: u32,
}

/// The default key-repeat timing.
pub open spec fn spec_default_key_repeat() -> KeyRepeatSettings {
    KeyRepeatSettings { initial_delay: DEFAULT_REPEAT_INITIAL_DELAY, delay: DEFAULT_REPEAT_DELAY }
}

impl Default for KeyRepeatSettings {
    fn default() -> (r: Self)
        ensures
            r == spec_default_key_repeat(),
    {
        KeyRepeatSettings {
            initial_delay: DEFAULT_REPEAT_INITIAL_DELAY,
            delay: DEFAULT_REPEAT_DELAY,
        }
    }
}

/// Mathematical model of a binding table.
pub ghost struct HotkeyConfigView {
    /// The bindings, as an association sequence keyed by action.
    pub map: Seq<(u64, Seq<HotkeyView>)>,
    /// The key-repeat timing parameters.
    pub key_repeat: KeyRepeatSettings,
}

/// The binding table: action-keyed hotkey lists in insertion order (keys
/// unique), plus key-repeat timing. Actions are identified by plain `u64`
/// ids chosen by the host.
#[derive(Debug, PartialEq, Eq)]
pub struct HotkeyConfig {
    pub map: Vec<(u64, Hotkeys)>,
    pub key_repeat: KeyRepeatSettings,
}

impl View for HotkeyConfig {
    type V = HotkeyConfigView;

    open spec fn view(&self) -> HotkeyConfigView {
        HotkeyConfigView {
            map: Seq::new(self.map@.len(), |i: int| (self.map@[i].0, self.map@[i].1@)),
            key_repeat: self.key_repeat,
        }
    }
}

impl Clone for HotkeyConfig {
    fn clone(&self) -> (res: Self)
        ensures
            res@ == self@,
    {
        let mut map: Vec<(u64, Hotkeys)> = Vec::new();
        let mut i: usize = 0;
        while i < self.map.len()
            invariant
                0 <= i <= self.map@.len(),
                map@.len() == i,
                forall|j: int|
                    0 <= j < i ==> map@[j].0 == self.map@[j].0 && map@[j].1@ == self.map@[j].1@,
            decreases self.map@.len() - i,
        {
            let name = self.map[i].0;
            let hks = self.map[i].1.clone();
            map.push((name, hks));
            i += 1;
        }
        let res = HotkeyConfig { map, key_repeat: self.key_repeat };
        proof {
            assert(res@.map =~~= self@.map);
        }
        res
    }
}

/// What `insert` does to the binding sequence: append the hotkey to the
/// action's list if the action is bound, else append a fresh entry.
pub open spec fn spec_insert(
    m: Seq<(u64, Seq<HotkeyView>)>,
    name: u64,
    h: HotkeyView,
) -> Seq<(u64, Seq<HotkeyView>)> {
    if contains_key(m, name) {
        m.update(key_index(m, name), (name, m[key_index(m, name)].1.push(h)))
    } else {
        m.push((name, seq![h]))
    }
}

/// What `insert_hotkeys` does to the binding sequence: rebind the action
/// wholesale if bound, else append a fresh entry.
pub open spec fn spec_insert_hotkeys(
    m: Seq<(u64, Seq<HotkeyView>)>,
    name: u64,
    hotkeys: Seq<HotkeyView>,
) -> Seq<(u64, Seq<HotkeyView>)> {
    if contains_key(m, name) {
        m.update(key_index(m, name), (name, hotkeys))
    } else {
        m.push((name, hotkeys))
    }
}

/// Linear scan for the first entry bound to `name`.
fn find_key(map: &Vec<(u64, Hotkeys)>, name: u64) -> (r: Option<usize>)
    ensures
        match r {
            Some(i) => i < map@.len() && map@[i as int].0 == name && forall|j: int|
                0 <= j < i ==> map@[j].0 != name,
            None => forall|j: int| 0 <= j < map@.len() ==> map@[j].0 != name,
        },
{
    let mut i: usize = 0;
    while i < map.len()
        invariant
            0 <= i <= map@.len(),
            forall|j: int| 0 <= j < i ==> map@[j].0 != name,
        decreases map@.len() - i,
    {
        if map[i].0 == name {
            return Some(i);
        }
        i += 1;
    }
    None
}

impl HotkeyConfig {
    /// Keys pairwise distinct: the well-formedness every method preserves.
    pub open spec fn wf(&self) -> bool {
        unique_keys(self@.map)
    }

    /// An empty binding table with the default key-repeat timing.
    pub fn empty() -> (r: Self)
        ensures
            r@.map == Seq::<(u64, Seq<HotkeyView>)>::empty(),
            r@.key_repeat == spec_default_key_repeat(),
            r.wf(),
    {
        let r = HotkeyConfig { map: Vec::new(), key_repeat: KeyRepeatSettings::default() };
        proof {
            assert(r@.map =~= Seq::<(u64, Seq<HotkeyView>)>::empty());
        }
        r
    }

    /// Append a binding of `name` to the bare key `key_code`, with an empty
    /// modifier requirement.
    pub fn insert_normal(&mut self, name: u64, key_code: u32)
        requires
            old(self).wf(),
        ensures
            final(self).wf(),
            final(self)@.map == spec_insert(
                old(self)@.map,
                name,
                HotkeyView { key: Action::Key(key_code), modifiers: Seq::<Modifier>::empty() },
            ),
            final(self)@.key_repeat == old(self)@.key_repeat,
    {
        let hotkey = Hotkey { key: Action::Key(key_code), modifiers: Vec::new() };
        proof {
            assert(hotkey@.modifiers =~= Seq::<Modifier>::empty());
        }
        self.insert(name, hotkey);
    }

    /// Append a binding of `name` to `key_code` qualified by `modifiers`.
    pub fn insert_with_modifiers(&mut self, name: u64, key_code: u32, modifiers: &Vec<Modifier>)
        requires
            old(self).wf(),
        ensures
            final(self).wf(),
            final(self)@.map == spec_insert(
                old(self)@.map,
                name,
                HotkeyView { key: Action::Key(key_code), modifiers: modifiers@ },
            ),
            final(self)@.key_repeat == old(self)@.key_repeat,
    {
        let mut copied: Vec<Modifier> = Vec::new();
        let mut i: usize = 0;
        while i < modifiers.len()
            invariant
                0 <= i <= modifiers@.len(),
                copied@ == modifiers@.take(i as int),
            decreases modifiers@.len() - i,
        {
            copied.push(modifiers[i]);
            proof {
                assert(copied@ =~= modifiers@.take(i as int + 1));
            }
            i += 1;
        }
        proof {
            assert(copied@ =~= modifiers@);
        }
        let hotkey = Hotkey { key: Action::Key(key_code), modifiers: copied };
        self.insert(name, hotkey);
    }

    /// Append `hotkey` as a further alternative for `name`, creating the
    /// entry if the action is not yet bound.
    fn insert(&mut self, name: u64, hotkey: Hotkey)
        requires
            old(self).wf(),
        ensures
            final(self).wf(),
            final(self)@.map == spec_insert(old(self)@.map, name, hotkey@),
            final(self)@.key_repeat == old(self)@.key_repeat,
    {
        let found = find_key(&self.map, name);
        match found {
            Some(i) => {
                proof {
                    assert(self@.map[i as int].0 == name);
                    lemma_contains_key_exists(self@.map, name);
                    lemma_key_index(self@.map, name);
                    let ki = key_index(self@.map, name);
                    assert(forall|j: int| 0 <= j < i ==> self@.map[j].0 != name);
                    assert(ki == i);
                    lemma_lookup_update(self@.map, i as int, self@.map[i as int].1.push(hotkey@));
                }
                let mut hks = self.map[i].1.clone();
                hks.push(hotkey);
                self.map[i] = (name, hks);
                proof {
                    assert(self@.map =~= spec_insert(old(self)@.map, name, hotkey@));
                }
            },
            None => {
                proof {
                    lemma_contains_key_exists(self@.map, name);
                    lemma_unique_push(self@.map, (name, seq![hotkey@]));
                }
                let hks = Hotkeys::new(vec![hotkey]);
                let ghost hv = hks@;
                self.map.push((name, hks));
                proof {
                    assert(hv =~= seq![hotkey@]);
                    assert(self@.map =~~= old(self)@.map.push((name, seq![hotkey@])));
                }
            },
        }
    }

    /// Bind `name` to exactly `hotkeys`, replacing any previous binding,
    /// appending a fresh entry otherwise.
    pub fn insert_hotkeys(&mut self, name: u64, hotkeys: Hotkeys)
        requires
            old(self).wf(),
        ensures
            final(self).wf(),
            final(self)@.map == spec_insert_hotkeys(old(self)@.map, name, hotkeys@),
            final(self)@.key_repeat == old(self)@.key_repeat,
    {
        let found = find_key(&self.map, name);
        match found {
            Some(i) => {
                proof {
                    assert(self@.map[i as int].0 == name);
                    lemma_contains_key_exists(self@.map, name);
                    lemma_key_index(self@.map, name);
                    assert(key_index(self@.map, name) == i);
                    lemma_lookup_update(self@.map, i as int, hotkeys@);
                }
                self.map[i] = (name, hotkeys);
                proof {
                    assert(self@.map =~= spec_insert_hotkeys(old(self)@.map, name, hotkeys@));
                }
            },
            None => {
                proof {
                    lemma_contains_key_exists(self@.map, name);
                    lemma_unique_push(self@.map, (name, hotkeys@));
                }
                self.map.push((name, hotkeys));
                proof {
                    assert(self@.map =~= old(self)@.map.push((name, hotkeys@)));
                }
            },
        }
    }

    /// The hotkey list bound to `name`, if any.
    pub fn get(&self, name: u64) -> (r: Option<&Hotkeys>)
        ensures
            match r {
                Some(hks) => lookup(self@.map, name) == Some(hks@),
                None => lookup(self@.map, name) is None,
            },
    {
        let found = find_key(&self.map, name);
        match found {
            Some(i) => {
                proof {
                    crate::assoc::lemma_lookup_skip(self@.map, name, i as int);
                    assert(self@.map.skip(i as int)[0] == self@.map[i as int]);
                }
                Some(&self.map[i].1)
            },
            None => {
                proof {
                    crate::assoc::lemma_lookup_skip(self@.map, name, self@.map.len() as int);
                    assert(self@.map.skip(self@.map.len() as int) =~= Seq::<(
                        u64,
                        Seq<HotkeyView>,
                    )>::empty());
                }
                None
            },
        }
    }

    /// The bindings, in insertion order, for display.
    pub fn entries(&self) -> (r: &Vec<(u64, Hotkeys)>)
        ensures
            r@.len() == self@.map.len(),
            forall|i: int|
                0 <= i < r@.len() ==> r@[i].0 == self@.map[i].0 && r@[i].1@ == self@.map[i].1,
    {
        &self.map
    }

    /// Left-biased merge: keep every binding of `self`, and append from
    /// `config` the bindings of actions that `self` does not know, in
    /// `config`'s order. The key-repeat timing of `self` is kept.
    pub fn update_from(&mut self, config: &HotkeyConfig)
        requires
            old(self).wf(),
            config.wf(),
        ensures
            final(self).wf(),
            final(self)@.key_repeat == old(self)@.key_repeat,
            final(self)@.map == old(self)@.map + config@.map.filter(absent_in(old(self)@.map)),
            forall|k: u64|
                lookup(final(self)@.map, k) == if contains_key(old(self)@.map, k) {
                    lookup(old(self)@.map, k)
                } else {
                    lookup(config@.map, k)
                },
    {
        let ghost om = old(self)@.map;
        let ghost p = absent_in(om);
        proof {
            reveal(Seq::filter);
            assert(config@.map.take(0).filter(p) =~= Seq::<(u64, Seq<HotkeyView>)>::empty());
            assert(om + config@.map.take(0).filter(p) =~= om);
        }
        let mut i: usize = 0;
        while i < config.map.len()
            invariant
                0 <= i <= config@.map.len(),
                self.wf(),
                config.wf(),
                om == old(self)@.map,
                p == absent_in(om),
                self@.key_repeat == old(self)@.key_repeat,
                self@.map == om + config@.map.take(i as int).filter(p),
                forall|k: u64|
                    lookup(self@.map, k) == if contains_key(om, k) {
                        lookup(om, k)
                    } else {
                        lookup(config@.map.take(i as int), k)
                    },
            decreases config@.map.len() - i,
        {
            let name = config.map[i].0;
            let ghost c = config@.map[i as int];
            let found = find_key(&self.map, name);
            proof {
                assert(c.0 == name);
                lemma_contains_key_exists(self@.map, name);
                assert(config@.map.take(i as int + 1) =~= config@.map.take(i as int).push(c));
                lemma_filter_push(config@.map.take(i as int), c, p);
            }
            match found {
                Some(j) => {
                    proof {
                        // The action is already bound. It must have been bound
                        // before the merge began: the appended entries all carry
                        // keys of earlier `config` entries, and `config`'s keys
                        // are unique. So the filter drops this entry.
                        assert(self@.map[j as int].0 == name);
                        if !contains_key(om, name) {
                            assert(lookup(self@.map, name) == lookup(
                                config@.map.take(i as int),
                                name,
                            ));
                            assert(contains_key(config@.map.take(i as int), name));
                            lemma_contains_key_exists(config@.map.take(i as int), name);
                            let m = choose|m: int|
                                0 <= m < config@.map.take(i as int).len() && config@.map.take(
                                    i as int,
                                )[m].0 == name;
                            assert(config@.map[m].0 == name);
                            assert(false);
                        }
                        assert(!p(c));
                        assert(config@.map.take(i as int + 1).filter(p) == config@.map.take(
                            i as int,
                        ).filter(p));
                        assert forall|k: u64| true implies lookup(self@.map, k) == (
                        if contains_key(om, k) {
                            lookup(om, k)
                        } else {
                            lookup(config@.map.take(i as int + 1), k)
                        }) by {
                            lemma_lookup_push(config@.map.take(i as int), c, k);
                            assert(config@.map.take(i as int).push(c) =~= config@.map.take(
                                i as int + 1,
                            ));
                        }
                    }
                },
                None => {
                    proof {
                        assert(!contains_key(self@.map, name));
                        if contains_key(om, name) {
                            assert(lookup(self@.map, name) == lookup(om, name));
                            assert(false);
                        }
                        assert(p(c));
                    }
                    let hks = config.map[i].1.clone();
                    proof {
                        lemma_unique_push(self@.map, (name, hks@));
                    }
                    let ghost prev = self@.map;
                    self.map.push((name, hks));
                    proof {
                        assert(self@.map =~= prev.push((name, c.1)));
                        assert(config@.map.take(i as int + 1).filter(p) == config@.map.take(
                            i as int,
                        ).filter(p).push(c));
                        assert(self@.map =~= om + config@.map.take(i as int + 1).filter(p));
                        assert forall|k: u64| true implies lookup(self@.map, k) == (
                        if contains_key(om, k) {
                            lookup(om, k)
                        } else {
                            lookup(config@.map.take(i as int + 1), k)
                        }) by {
                            lemma_lookup_push(prev, (name, c.1), k);
                            lemma_lookup_push(config@.map.take(i as int), c, k);
                            assert(config@.map.take(i as int).push(c) =~= config@.map.take(
                                i as int + 1,
                            ));
                        }
                    }
                },
            }
            i += 1;
        }
        proof {
            assert(config@.map.take(config@.map.len() as int) =~= config@.map);
        }
    }
}

/// Is an entry's action key unbound in `m`? The predicate of the
/// left-biased merge.
pub open spec fn absent_in(m: Seq<(u64, Seq<HotkeyView>)>) -> spec_fn((u64, Seq<HotkeyView>)) -> bool {
    |e: (u64, Seq<HotkeyView>)| !contains_key(m, e.0)
}

/// Filtering one appended element: it survives exactly when the predicate
/// holds of it.
proof fn lemma_filter_push<A>(s: Seq<A>, x: A, pred: spec_fn(A) -> bool)
    ensures
        s.push(x).filter(pred) == if pred(x) {
            s.filter(pred).push(x)
        } else {
            s.filter(pred)
        },
{
    reveal(Seq::filter);
    assert(s.push(x).drop_last() =~= s);
    assert(s.push(x).last() == x);
}

} // verus!
