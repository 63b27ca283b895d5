//! Ordered association sequences: the mathematical model of the
//! action-keyed tables (binding table and runtime state registry). An
//! association sequence is a `Seq` of key/value pairs with pairwise
//! distinct keys, looked up by first match.

use vstd::prelude::*;

verus! {

/// First-match lookup in an association sequence.
pub open spec fn lookup<V>(entries: Seq<(u64, V)>, key: u64) -> Option<V>
    decreases entries.len(),
{
    if entries.len() == 0 {
        None
    } else if entries[0].0 == key {
        Some(entries[0].1)
    } else {
        lookup(entries.drop_first(), key)
    }
}

/// Is `key` bound in the association sequence?
pub open spec fn contains_key<V>(entries: Seq<(u64, V)>, key: u64) -> bool {
    lookup(entries, key) is Some
}

/// The index of the first entry with key `key`.
pub open spec fn key_index<V>(entries: Seq<(u64, V)>, key: u64) -> int
    decreases entries.len(),
{
    if entries.len() == 0 {
        0
    } else if entries[0].0 == key {
        0
    } else {
        1 + key_index(entries.drop_first(), key)
    }
}

/// All keys pairwise distinct.
pub open spec fn unique_keys<V>(entries: Seq<(u64, V)>) -> bool {
    forall|i: int, j: int| 0 <= i < j < entries.len() ==> entries[i].0 != entries[j].0
}

/// A key is bound exactly when some entry carries it.
pub proof fn lemma_contains_key_exists<V>(entries: Seq<(u64, V)>, key: u64)
    ensures
        contains_key(entries, key) <==> exists|i: int| 0 <= i < entries.len() && entries[i].0
            == key,
    decreases entries.len(),
{
    if entries.len() > 0 {
        lemma_contains_key_exists(entries.drop_first(), key);
        if entries[0].0 == key {
            assert(entries[0].0 == key);
        } else {
            if contains_key(entries, key) {
                let i = choose|i: int|
                    0 <= i < entries.drop_first().len() && entries.drop_first()[i].0 == key;
                assert(entries[i + 1].0 == key);
            }
            if exists|i: int| 0 <= i < entries.len() && entries[i].0 == key {
                let i = choose|i: int| 0 <= i < entries.len() && entries[i].0 == key;
                assert(entries.drop_first()[i - 1].0 == key);
            }
        }
    }
}

/// If no entry among the first `i` carries `key`, lookup may start at `i`.
pub proof fn lemma_lookup_skip<V>(entries: Seq<(u64, V)>, key: u64, i: int)
    requires
        0 <= i <= entries.len(),
        forall|j: int| 0 <= j < i ==> entries[j].0 != key,
    ensures
        lookup(entries, key) == lookup(entries.skip(i), key),
    decreases i,
{
    if i == 0 {
        assert(entries.skip(0) =~= entries);
    } else {
        lemma_lookup_skip(entries, key, i - 1);
        assert(entries.skip(i - 1)[0] == entries[i - 1]);
        assert(entries.skip(i - 1).drop_first() =~= entries.skip(i));
    }
}

/// What the first-match index means, when the key is bound: it is in
/// range, carries the key, lookup returns its value, and no earlier entry
/// carries the key.
pub proof fn lemma_key_index<V>(entries: Seq<(u64, V)>, key: u64)
    requires
        contains_key(entries, key),
    ensures
        0 <= key_index(entries, key) < entries.len(),
        entries[key_index(entries, key)].0 == key,
        lookup(entries, key) == Some(entries[key_index(entries, key)].1),
        forall|j: int| 0 <= j < key_index(entries, key) ==> entries[j].0 != key,
    decreases entries.len(),
{
    if entries[0].0 == key {
    } else {
        lemma_key_index(entries.drop_first(), key);
        let ki = key_index(entries.drop_first(), key);
        assert(entries.drop_first()[ki] == entries[ki + 1]);
        assert(forall|j: int|
            1 <= j < key_index(entries, key) ==> entries[j] == entries.drop_first()[j - 1]);
    }
}

/// Updating the entry at index `i` (keeping its key) rebinds that key and
/// leaves every other key's binding unchanged.
pub proof fn lemma_lookup_update<V>(entries: Seq<(u64, V)>, i: int, v: V)
    requires
        unique_keys(entries),
        0 <= i < entries.len(),
    ensures
        lookup(entries.update(i, (entries[i].0, v)), entries[i].0) == Some(v),
        forall|k: u64|
            k != entries[i].0 ==> lookup(entries.update(i, (entries[i].0, v)), k) == lookup(
                entries,
                k,
            ),
        unique_keys(entries.update(i, (entries[i].0, v))),
    decreases entries.len(),
{
    let key = entries[i].0;
    let updated = entries.update(i, (key, v));
    if i == 0 {
        assert(updated[0] == (key, v));
        assert(updated.drop_first() =~= entries.drop_first());
        assert(lookup(updated, key) == Some(v));
        assert forall|k: u64| k != key implies lookup(updated, k) == lookup(entries, k) by {
            assert(lookup(updated, k) == lookup(updated.drop_first(), k));
            assert(lookup(entries, k) == lookup(entries.drop_first(), k));
        }
    } else {
        assert(updated[0] == entries[0]);
        assert(entries.drop_first().update(i - 1, (entries[i].0, v)) =~= updated.drop_first());
        assert(entries.drop_first()[i - 1] == entries[i]);
        lemma_lookup_update(entries.drop_first(), i - 1, v);
        assert(entries[0].0 != key);
        assert(lookup(updated, key) == lookup(updated.drop_first(), key));
        assert forall|k: u64| k != key implies lookup(updated, k) == lookup(entries, k) by {
            if entries[0].0 == k {
                assert(lookup(updated, k) == Some(entries[0].1));
                assert(lookup(entries, k) == Some(entries[0].1));
            } else {
                assert(lookup(updated, k) == lookup(updated.drop_first(), k));
                assert(lookup(entries, k) == lookup(entries.drop_first(), k));
            }
        }
    }
    assert(forall|m: int| 0 <= m < entries.len() ==> updated[m].0 == entries[m].0);
}

/// Appending an entry binds its key if it was unbound, and changes no
/// existing binding.
pub proof fn lemma_lookup_push<V>(entries: Seq<(u64, V)>, e: (u64, V), k: u64)
    ensures
        lookup(entries.push(e), k) == if contains_key(entries, k) {
            lookup(entries, k)
        } else if e.0 == k {
            Some(e.1)
        } else {
            None
        },
    decreases entries.len(),
{
    if entries.len() == 0 {
        assert(entries.push(e)[0] == e);
        assert(entries.push(e).drop_first() =~= Seq::<(u64, V)>::empty());
        if e.0 == k {
            assert(lookup(entries.push(e), k) == Some(e.1));
        } else {
            assert(lookup(entries.push(e), k) == lookup(Seq::<(u64, V)>::empty(), k));
        }
    } else {
        assert(entries.push(e)[0] == entries[0]);
        assert(entries.push(e).drop_first() =~= entries.drop_first().push(e));
        lemma_lookup_push(entries.drop_first(), e, k);
        if entries[0].0 == k {
            assert(lookup(entries.push(e), k) == Some(entries[0].1));
            assert(lookup(entries, k) == Some(entries[0].1));
        } else {
            assert(lookup(entries.push(e), k) == lookup(entries.drop_first().push(e), k));
            assert(lookup(entries, k) == lookup(entries.drop_first(), k));
        }
    }
}

/// Appending an entry with an unbound key preserves key uniqueness.
pub proof fn lemma_unique_push<V>(entries: Seq<(u64, V)>, e: (u64, V))
    requires
        unique_keys(entries),
        !contains_key(entries, e.0),
    ensures
        unique_keys(entries.push(e)),
{
    lemma_contains_key_exists(entries, e.0);
}

/// Bind `key` to `v`: overwrite the entry carrying `key` in place, or
/// append a fresh entry when the key is unbound.
pub open spec fn set_entry<V>(entries: Seq<(u64, V)>, key: u64, v: V) -> Seq<(u64, V)> {
    if contains_key(entries, key) {
        entries.update(key_index(entries, key), (key, v))
    } else {
        entries.push((key, v))
    }
}

/// `set_entry` binds its key, changes no other binding, and preserves key
/// uniqueness.
pub proof fn lemma_set_entry<V>(entries: Seq<(u64, V)>, key: u64, v: V)
    requires
        unique_keys(entries),
    ensures
        lookup(set_entry(entries, key, v), key) == Some(v),
        forall|k: u64| k != key ==> lookup(set_entry(entries, key, v), k) == lookup(entries, k),
        unique_keys(set_entry(entries, key, v)),
{
    if contains_key(entries, key) {
        lemma_key_index(entries, key);
        lemma_lookup_update(entries, key_index(entries, key), v);
    } else {
        lemma_unique_push(entries, (key, v));
        assert forall|k: u64| true implies lookup(entries.push((key, v)), k) == (
        if k == key {
            Some(v)
        } else {
            lookup(entries, k)
        }) by {
            lemma_lookup_push(entries, (key, v), k);
        }
    }
}

/// Rewriting every value in place (keys kept) rewrites every binding and
/// no more.
pub proof fn lemma_lookup_map_values<V>(entries: Seq<(u64, V)>, f: spec_fn(V) -> V, key: u64)
    ensures
        lookup(Seq::new(entries.len(), |i: int| (entries[i].0, f(entries[i].1))), key) == match lookup(
            entries,
            key,
        ) {
            Some(v) => Some(f(v)),
            None => None,
        },
    decreases entries.len(),
{
    let mapped = Seq::new(entries.len(), |i: int| (entries[i].0, f(entries[i].1)));
    if entries.len() > 0 {
        lemma_lookup_map_values(entries.drop_first(), f, key);
        assert(mapped[0] == (entries[0].0, f(entries[0].1)));
        assert(mapped.drop_first() =~= Seq::new(
            entries.drop_first().len(),
            |i: int| (entries.drop_first()[i].0, f(entries.drop_first()[i].1)),
        ));
    }
}

/// Linear scan for the first entry carrying `name`.
pub(crate) fn find_key<V>(map: &Vec<(u64, V)>, name: u64) -> (r: Option<usize>)
    ensures
        match r {
            Some(i) => i < map@.len() && map@[i as int].0 == name && forall|j: int|
                0 <= j < i ==> map@[j].0 != name,
            None => forall|j: int| 0 <= j < map@.len() ==> map@[j].0 != name,
        },
{
    let mut i: usize = 0;
    while i < map.len()
        invariant
            0 <= i <= map@.len(),
            forall|j: int| 0 <= j < i ==> map@[j].0 != name,
        decreases map@.len() - i,
    {
        if map[i].0 == name {
            return Some(i);
        }
        i += 1;
    }
    None
}

} // verus!
