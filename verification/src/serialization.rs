//! A flat byte encoding of the binding table, so that saved bindings
//! round-trip exactly: same action set, same ordered hotkey lists, same
//! modifier sets, same key-repeat timing.
//!
//! Layout, little-endian throughout: the two key-repeat delays as four
//! bytes each, then the number of bindings as eight bytes, then each
//! binding as its action id (eight bytes) followed by its hotkey list
//! (count as eight bytes, then each hotkey as its physical input — one
//! tag byte plus payload — followed by its modifier list, a count of
//! eight bytes and one byte per modifier).

use vstd::arithmetic::div_mod::lemma_fundamental_div_mod;
use vstd::arithmetic::div_mod::lemma_multiply_divide_lt;
use vstd::prelude::*;

use crate::action::Action;
use crate::assoc::unique_keys;
use crate::hotkey::Hotkey;
use crate::hotkey::HotkeyView;
use crate::hotkey_config::HotkeyConfigView;
use crate::hotkey_config::KeyRepeatSettings;
use crate::hotkey_config::HotkeyConfig;
use crate::modifier::Modifier;
use crate::mouse_wheel_action::MouseWheelAction;
use crate::Hotkeys;

verus! {

/// 256 to the power `n`: the number of values `n` bytes can hold.
pub open spec fn pow256(n: nat) -> int
    decreases n,
{
    if n == 0 {
        1
    } else {
        256 * pow256((n - 1) as nat)
    }
}

/// A nonnegative integer as `n` little-endian bytes.
pub open spec fn enc_le(x: int, n: nat) -> Seq<u8>
    decreases n,
{
    if n == 0 {
        Seq::<u8>::empty()
    } else {
        seq![(x % 256) as u8] + enc_le(x / 256, (n - 1) as nat)
    }
}

/// Read `n` little-endian bytes; the value and the remaining input.
pub open spec fn dec_le(s: Seq<u8>, n: nat) -> Option<(int, Seq<u8>)>
    decreases n,
{
    if n == 0 {
        Some((0, s))
    } else if s.len() == 0 {
        None
    } else {
        match dec_le(s.drop_first(), (n - 1) as nat) {
            Some(p) => Some((s[0] + 256 * p.0, p.1)),
            None => None,
        }
    }
}

/// The byte capacities the format uses.
proof fn lemma_pow256_vals()
    ensures
        pow256(4) == 0x1_0000_0000,
        pow256(8) == 0x1_0000_0000_0000_0000,
{
    reveal_with_fuel(pow256, 9);
}

/// `pow256` is positive.
proof fn lemma_pow256_pos(n: nat)
    ensures
        pow256(n) >= 1,
    decreases n,
{
    if n > 0 {
        lemma_pow256_pos((n - 1) as nat)
    }
}

/// Little-endian round trip: decoding the encoding of `x`, with anything
/// appended, yields `x` and the appended bytes.
proof fn lemma_le_round_trip(x: int, n: nat, rest: Seq<u8>)
    requires
        0 <= x < pow256(n),
    ensures
        enc_le(x, n).len() == n,
        dec_le(enc_le(x, n) + rest, n) == Some((x, rest)),
    decreases n,
{
    if n == 0 {
        assert(enc_le(x, n) + rest =~= rest);
    } else {
        let b = x % 256;
        let q = x / 256;
        lemma_fundamental_div_mod(x, 256);
        lemma_pow256_pos((n - 1) as nat);
        lemma_multiply_divide_lt(x, 256, pow256((n - 1) as nat));
        lemma_le_round_trip(q, (n - 1) as nat, rest);
        let s = enc_le(x, n) + rest;
        assert(s[0] == (b as u8));
        assert(s.drop_first() =~= enc_le(q, (n - 1) as nat) + rest);
    }
}

/// A decoded value is in range and the rest is a suffix.
proof fn lemma_dec_le_range(s: Seq<u8>, n: nat)
    ensures
        match dec_le(s, n) {
            Some(p) => 0 <= p.0 < pow256(n) && p.1 =~= s.skip(n as int) && n <= s.len(),
            None => true,
        },
    decreases n,
{
    if n != 0 && s.len() != 0 {
        lemma_dec_le_range(s.drop_first(), (n - 1) as nat);
        if dec_le(s, n) is Some {
            let p = dec_le(s.drop_first(), (n - 1) as nat).unwrap();
            assert(s[0] < 256);
            assert(s[0] + 256 * p.0 < 256 * (1 + p.0)) by {
                assert(256 * (1 + p.0) == 256 + 256 * p.0) by (nonlinear_arith);
            }
            assert(256 * (1 + p.0) <= 256 * pow256((n - 1) as nat)) by (nonlinear_arith)
                requires
                    1 + p.0 <= pow256((n - 1) as nat),
            ;
            assert(s.drop_first().skip(n as int - 1) =~= s.skip(n as int));
        }
    }
}

/// Too little input: reading `n` bytes fails.
proof fn lemma_dec_le_short(s: Seq<u8>, n: nat)
    requires
        s.len() < n,
    ensures
        dec_le(s, n) is None,
    decreases n,
{
    if s.len() != 0 {
        lemma_dec_le_short(s.drop_first(), (n - 1) as nat);
    }
}

/// One modifier as one byte.
pub open spec fn enc_modifier(m: Modifier) -> Seq<u8> {
    match m {
        Modifier::Control => seq![0u8],
        Modifier::Shift => seq![1u8],
        Modifier::Alt => seq![2u8],
    }
}

/// Read one modifier byte.
pub open spec fn dec_modifier(s: Seq<u8>) -> Option<(Modifier, Seq<u8>)> {
    if s.len() == 0 {
        None
    } else if s[0] == 0 {
        Some((Modifier::Control, s.drop_first()))
    } else if s[0] == 1 {
        Some((Modifier::Shift, s.drop_first()))
    } else if s[0] == 2 {
        Some((Modifier::Alt, s.drop_first()))
    } else {
        None
    }
}

/// A modifier list, one byte each.
pub open spec fn enc_modifier_seq(mods: Seq<Modifier>) -> Seq<u8>
    decreases mods.len(),
{
    if mods.len() == 0 {
        Seq::<u8>::empty()
    } else {
        enc_modifier(mods.first()) + enc_modifier_seq(mods.drop_first())
    }
}

/// Read `n` modifiers.
pub open spec fn dec_modifier_seq(s: Seq<u8>, n: nat) -> Option<(Seq<Modifier>, Seq<u8>)>
    decreases n,
{
    if n == 0 {
        Some((Seq::<Modifier>::empty(), s))
    } else {
        match dec_modifier(s) {
            Some(p) => match dec_modifier_seq(p.1, (n - 1) as nat) {
                Some(q) => Some((seq![p.0] + q.0, q.1)),
                None => None,
            },
            None => None,
        }
    }
}

/// One physical input: a tag byte and its payload.
pub open spec fn enc_action(a: Action) -> Seq<u8> {
    match a {
        Action::Button(b) => seq![0u8] + enc_le(b as int, 4),
        Action::Scroll(MouseWheelAction::Up) => seq![1u8, 0u8],
        Action::Scroll(MouseWheelAction::Down) => seq![1u8, 1u8],
        Action::Key(k) => seq![2u8] + enc_le(k as int, 4),
    }
}

/// Read one physical input.
pub open spec fn dec_action(s: Seq<u8>) -> Option<(Action, Seq<u8>)> {
    if s.len() == 0 {
        None
    } else if s[0] == 0 {
        match dec_le(s.drop_first(), 4) {
            Some(p) => Some((Action::Button(p.0 as u32), p.1)),
            None => None,
        }
    } else if s[0] == 1 {
        if s.len() < 2 {
            None
        } else if s[1] == 0 {
            Some((Action::Scroll(MouseWheelAction::Up), s.skip(2)))
        } else if s[1] == 1 {
            Some((Action::Scroll(MouseWheelAction::Down), s.skip(2)))
        } else {
            None
        }
    } else if s[0] == 2 {
        match dec_le(s.drop_first(), 4) {
            Some(p) => Some((Action::Key(p.0 as u32), p.1)),
            None => None,
        }
    } else {
        None
    }
}

/// One hotkey: its physical input, then its modifier list with a leading
/// count.
pub open spec fn enc_hotkey(h: HotkeyView) -> Seq<u8> {
    enc_action(h.key) + enc_le(h.modifiers.len() as int, 8) + enc_modifier_seq(h.modifiers)
}

/// Read one hotkey.
pub open spec fn dec_hotkey(s: Seq<u8>) -> Option<(HotkeyView, Seq<u8>)> {
    match dec_action(s) {
        Some(p) => match dec_le(p.1, 8) {
            Some(q) => match dec_modifier_seq(q.1, q.0 as nat) {
                Some(m) => Some((HotkeyView { key: p.0, modifiers: m.0 }, m.1)),
                None => None,
            },
            None => None,
        },
        None => None,
    }
}

/// A hotkey list, element by element.
pub open spec fn enc_hotkey_seq(hs: Seq<HotkeyView>) -> Seq<u8>
    decreases hs.len(),
{
    if hs.len() == 0 {
        Seq::<u8>::empty()
    } else {
        enc_hotkey(hs.first()) + enc_hotkey_seq(hs.drop_first())
    }
}

/// Read `n` hotkeys.
pub open spec fn dec_hotkey_seq(s: Seq<u8>, n: nat) -> Option<(Seq<HotkeyView>, Seq<u8>)>
    decreases n,
{
    if n == 0 {
        Some((Seq::<HotkeyView>::empty(), s))
    } else {
        match dec_hotkey(s) {
            Some(p) => match dec_hotkey_seq(p.1, (n - 1) as nat) {
                Some(q) => Some((seq![p.0] + q.0, q.1)),
                None => None,
            },
            None => None,
        }
    }
}

/// One binding: the action id, then the hotkey list with a leading count.
pub open spec fn enc_entry(e: (u64, Seq<HotkeyView>)) -> Seq<u8> {
    enc_le(e.0 as int, 8) + enc_le(e.1.len() as int, 8) + enc_hotkey_seq(e.1)
}

/// Read one binding.
pub open spec fn dec_entry(s: Seq<u8>) -> Option<((u64, Seq<HotkeyView>), Seq<u8>)> {
    match dec_le(s, 8) {
        Some(p) => match dec_le(p.1, 8) {
            Some(q) => match dec_hotkey_seq(q.1, q.0 as nat) {
                Some(h) => Some(((p.0 as u64, h.0), h.1)),
                None => None,
            },
            None => None,
        },
        None => None,
    }
}

/// The binding list, entry by entry.
pub open spec fn enc_entry_seq(m: Seq<(u64, Seq<HotkeyView>)>) -> Seq<u8>
    decreases m.len(),
{
    if m.len() == 0 {
        Seq::<u8>::empty()
    } else {
        enc_entry(m.first()) + enc_entry_seq(m.drop_first())
    }
}

/// Read `n` bindings.
pub open spec fn dec_entry_seq(s: Seq<u8>, n: nat) -> Option<(Seq<(u64, Seq<HotkeyView>)>, Seq<u8>)>
    decreases n,
{
    if n == 0 {
        Some((Seq::<(u64, Seq<HotkeyView>)>::empty(), s))
    } else {
        match dec_entry(s) {
            Some(p) => match dec_entry_seq(p.1, (n - 1) as nat) {
                Some(q) => Some((seq![p.0] + q.0, q.1)),
                None => None,
            },
            None => None,
        }
    }
}

/// The whole binding table.
pub open spec fn enc_config(c: HotkeyConfigView) -> Seq<u8> {
    enc_le(c.key_repeat.initial_delay as int, 4) + enc_le(c.key_repeat.delay as int, 4) + enc_le(
        c.map.len() as int,
        8,
    ) + enc_entry_seq(c.map)
}

/// Read a binding table; the remaining input must be checked by the
/// caller.
pub open spec fn dec_config(s: Seq<u8>) -> Option<(HotkeyConfigView, Seq<u8>)> {
    match dec_le(s, 4) {
        Some(a) => match dec_le(a.1, 4) {
            Some(b) => match dec_le(b.1, 8) {
                Some(n) => match dec_entry_seq(n.1, n.0 as nat) {
                    Some(m) => Some(
                        (
                            HotkeyConfigView {
                                map: m.0,
                                key_repeat: KeyRepeatSettings {
                                    initial_delay: a.0 as u32,
                                    delay: b.0 as u32,
                                },
                            },
                            m.1,
                        ),
                    ),
                    None => None,
                },
                None => None,
            },
            None => None,
        },
        None => None,
    }
}

/// Are the list lengths of this table small enough for their eight-byte
/// counts? True of every table an executable value can hold.
pub open spec fn encodable(c: HotkeyConfigView) -> bool {
    &&& c.map.len() < pow256(8)
    &&& forall|i: int|
        0 <= i < c.map.len() ==> (#[trigger] c.map[i].1).len() < pow256(8) && forall|j: int|
            0 <= j < c.map[i].1.len() ==> (#[trigger] c.map[i].1[j]).modifiers.len() < pow256(8)
}

proof fn lemma_modifier_round_trip(m: Modifier, rest: Seq<u8>)
    ensures
        dec_modifier(enc_modifier(m) + rest) == Some((m, rest)),
{
    let s = enc_modifier(m) + rest;
    assert(s.drop_first() =~= rest);
}

proof fn lemma_modifier_seq_round_trip(mods: Seq<Modifier>, rest: Seq<u8>)
    ensures
        dec_modifier_seq(enc_modifier_seq(mods) + rest, mods.len()) == Some((mods, rest)),
    decreases mods.len(),
{
    if mods.len() == 0 {
        assert(enc_modifier_seq(mods) + rest =~= rest);
    } else {
        lemma_modifier_seq_round_trip(mods.drop_first(), rest);
        let tail = enc_modifier_seq(mods.drop_first()) + rest;
        lemma_modifier_round_trip(mods.first(), tail);
        assert(enc_modifier_seq(mods) + rest =~= enc_modifier(mods.first()) + tail);
        assert(seq![mods.first()] + mods.drop_first() =~= mods);
    }
}

proof fn lemma_action_round_trip(a: Action, rest: Seq<u8>)
    ensures
        dec_action(enc_action(a) + rest) == Some((a, rest)),
{
    let s = enc_action(a) + rest;
    match a {
        Action::Button(b) => {
            assert(s[0] == 0u8);
            assert(s.drop_first() =~= enc_le(b as int, 4) + rest);
            lemma_pow256_vals();
            lemma_le_round_trip(b as int, 4, rest);
        },
        Action::Scroll(MouseWheelAction::Up) => {
            assert(s[0] == 1u8 && s[1] == 0u8);
            assert(s.skip(2) =~= rest);
        },
        Action::Scroll(MouseWheelAction::Down) => {
            assert(s[0] == 1u8 && s[1] == 1u8);
            assert(s.skip(2) =~= rest);
        },
        Action::Key(k) => {
            assert(s[0] == 2u8);
            assert(s.drop_first() =~= enc_le(k as int, 4) + rest);
            lemma_pow256_vals();
            lemma_le_round_trip(k as int, 4, rest);
        },
    }
}

proof fn lemma_hotkey_round_trip(h: HotkeyView, rest: Seq<u8>)
    requires
        h.modifiers.len() < pow256(8),
    ensures
        dec_hotkey(enc_hotkey(h) + rest) == Some((h, rest)),
{
    let mods_bytes = enc_modifier_seq(h.modifiers) + rest;
    let count_bytes = enc_le(h.modifiers.len() as int, 8) + mods_bytes;
    assert(enc_hotkey(h) + rest =~= enc_action(h.key) + count_bytes);
    lemma_action_round_trip(h.key, count_bytes);
    lemma_le_round_trip(h.modifiers.len() as int, 8, mods_bytes);
    lemma_modifier_seq_round_trip(h.modifiers, rest);
}

proof fn lemma_hotkey_seq_round_trip(hs: Seq<HotkeyView>, rest: Seq<u8>)
    requires
        forall|j: int| 0 <= j < hs.len() ==> (#[trigger] hs[j]).modifiers.len() < pow256(8),
    ensures
        dec_hotkey_seq(enc_hotkey_seq(hs) + rest, hs.len()) == Some((hs, rest)),
    decreases hs.len(),
{
    if hs.len() == 0 {
        assert(enc_hotkey_seq(hs) + rest =~= rest);
    } else {
        assert(forall|j: int|
            0 <= j < hs.drop_first().len() ==> hs.drop_first()[j] == hs[j + 1]);
        lemma_hotkey_seq_round_trip(hs.drop_first(), rest);
        let tail = enc_hotkey_seq(hs.drop_first()) + rest;
        lemma_hotkey_round_trip(hs.first(), tail);
        assert(enc_hotkey_seq(hs) + rest =~= enc_hotkey(hs.first()) + tail);
        assert(seq![hs.first()] + hs.drop_first() =~= hs);
    }
}

proof fn lemma_entry_round_trip(e: (u64, Seq<HotkeyView>), rest: Seq<u8>)
    requires
        e.1.len() < pow256(8),
        forall|j: int| 0 <= j < e.1.len() ==> (#[trigger] e.1[j]).modifiers.len() < pow256(8),
    ensures
        dec_entry(enc_entry(e) + rest) == Some((e, rest)),
{
    let hk_bytes = enc_hotkey_seq(e.1) + rest;
    let count_bytes = enc_le(e.1.len() as int, 8) + hk_bytes;
    assert(enc_entry(e) + rest =~= enc_le(e.0 as int, 8) + count_bytes);
    lemma_pow256_vals();
    lemma_le_round_trip(e.0 as int, 8, count_bytes);
    lemma_le_round_trip(e.1.len() as int, 8, hk_bytes);
    lemma_hotkey_seq_round_trip(e.1, rest);
}

proof fn lemma_entry_seq_round_trip(m: Seq<(u64, Seq<HotkeyView>)>, rest: Seq<u8>)
    requires
        forall|i: int|
            0 <= i < m.len() ==> (#[trigger] m[i].1).len() < pow256(8) && forall|j: int|
                0 <= j < m[i].1.len() ==> (#[trigger] m[i].1[j]).modifiers.len() < pow256(8),
    ensures
        dec_entry_seq(enc_entry_seq(m) + rest, m.len()) == Some((m, rest)),
    decreases m.len(),
{
    if m.len() == 0 {
        assert(enc_entry_seq(m) + rest =~= rest);
    } else {
        assert(forall|i: int|
            0 <= i < m.drop_first().len() ==> m.drop_first()[i] == m[i + 1]);
        lemma_entry_seq_round_trip(m.drop_first(), rest);
        let tail = enc_entry_seq(m.drop_first()) + rest;
        lemma_entry_round_trip(m.first(), tail);
        assert(enc_entry_seq(m) + rest =~= enc_entry(m.first()) + tail);
        assert(seq![m.first()] + m.drop_first() =~= m);
    }
}

/// Serialization round trip: decoding the encoding of any binding table
/// yields that table exactly, with no input left over.
pub proof fn lemma_config_round_trip(c: HotkeyConfigView)
    requires
        encodable(c),
    ensures
        dec_config(enc_config(c)) == Some((c, Seq::<u8>::empty())),
{
    let map_bytes = enc_entry_seq(c.map);
    let count_bytes = enc_le(c.map.len() as int, 8) + map_bytes;
    let delay_bytes = enc_le(c.key_repeat.delay as int, 4) + count_bytes;
    assert(enc_config(c) =~= enc_le(c.key_repeat.initial_delay as int, 4) + delay_bytes);
    lemma_pow256_vals();
    lemma_le_round_trip(c.key_repeat.initial_delay as int, 4, delay_bytes);
    lemma_le_round_trip(c.key_repeat.delay as int, 4, count_bytes);
    lemma_le_round_trip(c.map.len() as int, 8, map_bytes);
    assert(map_bytes =~= map_bytes + Seq::<u8>::empty());
    lemma_entry_seq_round_trip(c.map, Seq::<u8>::empty());
}


/// `pow256` grows with its argument.
proof fn lemma_pow256_le(a: nat, b: nat)
    requires
        a <= b,
    ensures
        pow256(a) <= pow256(b),
    decreases b,
{
    if a < b {
        lemma_pow256_le(a, (b - 1) as nat);
        lemma_pow256_pos((b - 1) as nat);
    }
}

/// Element-by-element encodings compose at the right end.
proof fn lemma_enc_modifier_seq_snoc(mods: Seq<Modifier>, m: Modifier)
    ensures
        enc_modifier_seq(mods.push(m)) == enc_modifier_seq(mods) + enc_modifier(m),
    decreases mods.len(),
{
    if mods.len() == 0 {
        assert(mods.push(m).first() == m);
        assert(mods.push(m).drop_first() =~= Seq::<Modifier>::empty());
        assert(enc_modifier_seq(mods.push(m).drop_first()) =~= Seq::<u8>::empty());
        assert(enc_modifier_seq(mods) =~= Seq::<u8>::empty());
        assert(enc_modifier_seq(mods.push(m)) =~= enc_modifier_seq(mods) + enc_modifier(m));
    } else {
        assert(mods.push(m).first() == mods.first());
        assert(mods.push(m).drop_first() =~= mods.drop_first().push(m));
        lemma_enc_modifier_seq_snoc(mods.drop_first(), m);
        assert(enc_modifier_seq(mods.push(m)) == enc_modifier(mods.first()) + enc_modifier_seq(
            mods.drop_first().push(m),
        ));
        assert(enc_modifier_seq(mods.push(m)) =~= enc_modifier_seq(mods) + enc_modifier(m));
    }
}

/// Element-by-element encodings compose at the right end.
proof fn lemma_enc_hotkey_seq_snoc(hs: Seq<HotkeyView>, h: HotkeyView)
    ensures
        enc_hotkey_seq(hs.push(h)) == enc_hotkey_seq(hs) + enc_hotkey(h),
    decreases hs.len(),
{
    if hs.len() == 0 {
        assert(hs.push(h).first() == h);
        assert(hs.push(h).drop_first() =~= Seq::<HotkeyView>::empty());
        assert(enc_hotkey_seq(hs.push(h).drop_first()) =~= Seq::<u8>::empty());
        assert(enc_hotkey_seq(hs) =~= Seq::<u8>::empty());
        assert(enc_hotkey_seq(hs.push(h)) =~= enc_hotkey_seq(hs) + enc_hotkey(h));
    } else {
        assert(hs.push(h).first() == hs.first());
        assert(hs.push(h).drop_first() =~= hs.drop_first().push(h));
        lemma_enc_hotkey_seq_snoc(hs.drop_first(), h);
        assert(enc_hotkey_seq(hs.push(h)) == enc_hotkey(hs.first()) + enc_hotkey_seq(
            hs.drop_first().push(h),
        ));
        assert(enc_hotkey_seq(hs.push(h)) =~= enc_hotkey_seq(hs) + enc_hotkey(h));
    }
}

/// Element-by-element encodings compose at the right end.
proof fn lemma_enc_entry_seq_snoc(m: Seq<(u64, Seq<HotkeyView>)>, e: (u64, Seq<HotkeyView>))
    ensures
        enc_entry_seq(m.push(e)) == enc_entry_seq(m) + enc_entry(e),
    decreases m.len(),
{
    if m.len() == 0 {
        assert(m.push(e).first() == e);
        assert(m.push(e).drop_first() =~= Seq::<(u64, Seq<HotkeyView>)>::empty());
        assert(enc_entry_seq(m.push(e).drop_first()) =~= Seq::<u8>::empty());
        assert(enc_entry_seq(m) =~= Seq::<u8>::empty());
        assert(enc_entry_seq(m.push(e)) =~= enc_entry_seq(m) + enc_entry(e));
    } else {
        assert(m.push(e).first() == m.first());
        assert(m.push(e).drop_first() =~= m.drop_first().push(e));
        lemma_enc_entry_seq_snoc(m.drop_first(), e);
        assert(enc_entry_seq(m.push(e)) == enc_entry(m.first()) + enc_entry_seq(
            m.drop_first().push(e),
        ));
        assert(enc_entry_seq(m.push(e)) =~= enc_entry_seq(m) + enc_entry(e));
    }
}

/// Append `x` as `n` little-endian bytes.
fn push_le(out: &mut Vec<u8>, x: u64, n: usize)
    ensures
        final(out)@ == old(out)@ + enc_le(x as int, n as nat),
{
    let ghost start = old(out)@;
    let mut cur: u64 = x;
    let mut k: usize = 0;
    proof {
        assert(out@.skip(start.len() as int) =~= Seq::<u8>::empty());
    }
    while k < n
        invariant
            0 <= k <= n,
            out@.len() == start.len() + k,
            out@.take(start.len() as int) == start,
            enc_le(x as int, n as nat) == out@.skip(start.len() as int) + enc_le(
                cur as int,
                (n - k) as nat,
            ),
        decreases n - k,
    {
        let b: u8 = (cur % 256) as u8;
        let ghost before = out@;
        out.push(b);
        proof {
            assert(out@.take(start.len() as int) =~= start);
            assert(out@.skip(start.len() as int) =~= before.skip(start.len() as int) + seq![b]);
            assert((before.skip(start.len() as int) + seq![b]) + enc_le(
                cur as int / 256,
                (n - k - 1) as nat,
            ) =~= before.skip(start.len() as int) + (seq![b] + enc_le(
                cur as int / 256,
                (n - k - 1) as nat,
            )));
        }
        cur = cur / 256;
        k += 1;
    }
    proof {
        assert(out@ =~= start + enc_le(x as int, n as nat));
    }
}

/// Read `n` little-endian bytes starting at `i`.
fn read_le(bytes: &Vec<u8>, i: usize, n: usize) -> (r: Option<(u64, usize)>)
    requires
        i <= bytes@.len(),
        n <= 8,
    ensures
        match r {
            Some(p) => i + n <= bytes@.len() && p.1 == i + n && dec_le(
                bytes@.skip(i as int),
                n as nat,
            ) == Some((p.0 as int, bytes@.skip(p.1 as int))),
            None => dec_le(bytes@.skip(i as int), n as nat) is None,
        },
{
    if n > bytes.len() || i > bytes.len() - n {
        proof {
            lemma_dec_le_short(bytes@.skip(i as int), n as nat);
        }
        return None;
    }
    let mut v: u64 = 0;
    let mut k: usize = n;
    while k > 0
        invariant
            0 <= k <= n <= 8,
            i + n <= bytes@.len(),
            bytes@.len() <= usize::MAX,
            v < pow256((n - k) as nat),
            dec_le(bytes@.skip((i + k) as int), (n - k) as nat) == Some(
                (v as int, bytes@.skip((i + n) as int)),
            ),
        decreases k,
    {
        k -= 1;
        let b = bytes[i + k];
        proof {
            assert(bytes@.skip((i + k) as int)[0] == bytes@[(i + k) as int]);
            assert(bytes@.skip((i + k) as int).drop_first() =~= bytes@.skip((i + k + 1) as int));
            lemma_pow256_vals();
            lemma_pow256_le(((n - k) as nat), 8);
            lemma_pow256_le(((n - k - 1) as nat), 7);
            assert(pow256(7) == 0x100_0000_0000_0000) by {
                reveal_with_fuel(pow256, 9);
            }
            assert(v as int * 256 + b < 256 * pow256((n - k - 1) as nat)) by (nonlinear_arith)
                requires
                    v < pow256((n - k - 1) as nat),
                    b < 256,
            ;
            assert(256 * pow256((n - k - 1) as nat) == pow256((n - k) as nat));
        }
        v = v * 256 + b as u64;
    }
    proof {
        assert(dec_le(bytes@.skip(i as int), n as nat) == Some(
            (v as int, bytes@.skip((i + n) as int)),
        ));
    }
    Some((v, i + n))
}

/// Put a prefix in front of a sequence-decoder's result.
pub open spec fn spec_prepend<T>(pre: Seq<T>, r: Option<(Seq<T>, Seq<u8>)>) -> Option<
    (Seq<T>, Seq<u8>),
> {
    match r {
        Some(q) => Some((pre + q.0, q.1)),
        None => None,
    }
}

/// Read one modifier byte starting at `i`.
fn parse_modifier(bytes: &Vec<u8>, i: usize) -> (r: Option<(Modifier, usize)>)
    requires
        i <= bytes@.len(),
    ensures
        match r {
            Some(p) => i < p.1 <= bytes@.len() && dec_modifier(bytes@.skip(i as int)) == Some(
                (p.0, bytes@.skip(p.1 as int)),
            ),
            None => dec_modifier(bytes@.skip(i as int)) is None,
        },
{
    if i >= bytes.len() {
        return None;
    }
    let b = bytes[i];
    proof {
        assert(bytes@.skip(i as int)[0] == bytes@[i as int]);
        assert(bytes@.skip(i as int).drop_first() =~= bytes@.skip(i as int + 1));
    }
    if b == 0 {
        Some((Modifier::Control, i + 1))
    } else if b == 1 {
        Some((Modifier::Shift, i + 1))
    } else if b == 2 {
        Some((Modifier::Alt, i + 1))
    } else {
        None
    }
}

/// Read `n` modifiers starting at `i`.
fn parse_modifier_seq(bytes: &Vec<u8>, i: usize, n: u64) -> (r: Option<(Vec<Modifier>, usize)>)
    requires
        i <= bytes@.len(),
    ensures
        match r {
            Some(p) => p.1 <= bytes@.len() && dec_modifier_seq(bytes@.skip(i as int), n as nat)
                == Some((p.0@, bytes@.skip(p.1 as int))),
            None => dec_modifier_seq(bytes@.skip(i as int), n as nat) is None,
        },
{
    let mut out: Vec<Modifier> = Vec::new();
    let mut pos: usize = i;
    let mut k: u64 = 0;
    while k < n
        invariant
            0 <= k <= n,
            pos <= bytes@.len(),
            dec_modifier_seq(bytes@.skip(i as int), n as nat) == spec_prepend(
                out@,
                dec_modifier_seq(bytes@.skip(pos as int), (n - k) as nat),
            ),
        decreases n - k,
    {
        match parse_modifier(bytes, pos) {
            Some(p) => {
                let ghost before = out@;
                out.push(p.0);
                proof {
                    assert(out@ =~= before.push(p.0));
                    let sub = dec_modifier_seq(bytes@.skip(p.1 as int), (n - k - 1) as nat);
                    if sub is Some {
                        assert(before + (seq![p.0] + sub.unwrap().0) =~= before.push(p.0)
                            + sub.unwrap().0);
                    }
                }
                pos = p.1;
                k += 1;
            },
            None => {
                return None;
            },
        }
    }
    proof {
        assert(out@ + Seq::<Modifier>::empty() =~= out@);
    }
    Some((out, pos))
}

/// Read one physical input starting at `i`.
fn parse_action(bytes: &Vec<u8>, i: usize) -> (r: Option<(Action, usize)>)
    requires
        i <= bytes@.len(),
    ensures
        match r {
            Some(p) => p.1 <= bytes@.len() && dec_action(bytes@.skip(i as int)) == Some(
                (p.0, bytes@.skip(p.1 as int)),
            ),
            None => dec_action(bytes@.skip(i as int)) is None,
        },
{
    if i >= bytes.len() {
        return None;
    }
    let tag = bytes[i];
    proof {
        assert(bytes@.skip(i as int)[0] == bytes@[i as int]);
        assert(bytes@.skip(i as int).drop_first() =~= bytes@.skip(i as int + 1));
    }
    if tag == 0 {
        match read_le(bytes, i + 1, 4) {
            Some(p) => {
                proof {
                    lemma_dec_le_range(bytes@.skip(i as int + 1), 4);
                    lemma_pow256_vals();
                }
                Some((Action::Button(p.0 as u32), p.1))
            },
            None => None,
        }
    } else if tag == 1 {
        if i + 1 >= bytes.len() {
            proof {
                assert(bytes@.skip(i as int).len() < 2);
            }
            return None;
        }
        let b2 = bytes[i + 1];
        proof {
            assert(bytes@.skip(i as int)[1] == bytes@[i as int + 1]);
            assert(bytes@.skip(i as int).skip(2) =~= bytes@.skip(i as int + 2));
        }
        if b2 == 0 {
            Some((Action::Scroll(MouseWheelAction::Up), i + 2))
        } else if b2 == 1 {
            Some((Action::Scroll(MouseWheelAction::Down), i + 2))
        } else {
            None
        }
    } else if tag == 2 {
        match read_le(bytes, i + 1, 4) {
            Some(p) => {
                proof {
                    lemma_dec_le_range(bytes@.skip(i as int + 1), 4);
                    lemma_pow256_vals();
                }
                Some((Action::Key(p.0 as u32), p.1))
            },
            None => None,
        }
    } else {
        None
    }
}

/// Read one hotkey starting at `i`.
fn parse_hotkey(bytes: &Vec<u8>, i: usize) -> (r: Option<(Hotkey, usize)>)
    requires
        i <= bytes@.len(),
    ensures
        match r {
            Some(p) => p.1 <= bytes@.len() && dec_hotkey(bytes@.skip(i as int)) == Some(
                (p.0@, bytes@.skip(p.1 as int)),
            ),
            None => dec_hotkey(bytes@.skip(i as int)) is None,
        },
{
    match parse_action(bytes, i) {
        Some(a) => {
            match read_le(bytes, a.1, 8) {
                Some(c) => {
                    proof {
                        lemma_dec_le_range(bytes@.skip(a.1 as int), 8);
                    }
                    match parse_modifier_seq(bytes, c.1, c.0) {
                        Some(m) => Some((Hotkey { key: a.0, modifiers: m.0 }, m.1)),
                        None => None,
                    }
                },
                None => None,
            }
        },
        None => None,
    }
}

/// Read `n` hotkeys starting at `i`.
fn parse_hotkey_seq(bytes: &Vec<u8>, i: usize, n: u64) -> (r: Option<(Vec<Hotkey>, usize)>)
    requires
        i <= bytes@.len(),
    ensures
        match r {
            Some(p) => p.1 <= bytes@.len() && dec_hotkey_seq(bytes@.skip(i as int), n as nat)
                == Some(
                (Seq::new(p.0@.len(), |m: int| p.0@[m]@), bytes@.skip(p.1 as int)),
            ),
            None => dec_hotkey_seq(bytes@.skip(i as int), n as nat) is None,
        },
{
    let mut out: Vec<Hotkey> = Vec::new();
    let ghost mut gh: Seq<HotkeyView> = Seq::<HotkeyView>::empty();
    let mut pos: usize = i;
    let mut k: u64 = 0;
    while k < n
        invariant
            0 <= k <= n,
            pos <= bytes@.len(),
            gh == Seq::new(out@.len(), |m: int| out@[m]@),
            dec_hotkey_seq(bytes@.skip(i as int), n as nat) == spec_prepend(
                gh,
                dec_hotkey_seq(bytes@.skip(pos as int), (n - k) as nat),
            ),
        decreases n - k,
    {
        match parse_hotkey(bytes, pos) {
            Some(p) => {
                let ghost before = gh;
                proof {
                    gh = gh.push(p.0@);
                }
                let ghost hv = p.0@;
                out.push(p.0);
                proof {
                    assert(gh =~= Seq::new(out@.len(), |m: int| out@[m]@));
                    let sub = dec_hotkey_seq(bytes@.skip(p.1 as int), (n - k - 1) as nat);
                    if sub is Some {
                        assert(before + (seq![hv] + sub.unwrap().0) =~= before.push(hv)
                            + sub.unwrap().0);
                    }
                }
                pos = p.1;
                k += 1;
            },
            None => {
                return None;
            },
        }
    }
    proof {
        assert(gh + Seq::<HotkeyView>::empty() =~= gh);
    }
    Some((out, pos))
}

/// Read one binding starting at `i`.
fn parse_entry(bytes: &Vec<u8>, i: usize) -> (r: Option<((u64, Hotkeys), usize)>)
    requires
        i <= bytes@.len(),
    ensures
        match r {
            Some(p) => p.1 <= bytes@.len() && dec_entry(bytes@.skip(i as int)) == Some(
                ((p.0.0, p.0.1@), bytes@.skip(p.1 as int)),
            ),
            None => dec_entry(bytes@.skip(i as int)) is None,
        },
{
    match read_le(bytes, i, 8) {
        Some(name) => {
            proof {
                lemma_dec_le_range(bytes@.skip(i as int), 8);
                lemma_pow256_vals();
            }
            match read_le(bytes, name.1, 8) {
                Some(c) => {
                    proof {
                        lemma_dec_le_range(bytes@.skip(name.1 as int), 8);
                    }
                    match parse_hotkey_seq(bytes, c.1, c.0) {
                        Some(h) => {
                            let hks = Hotkeys(h.0);
                            Some(((name.0, hks), h.1))
                        },
                        None => None,
                    }
                },
                None => None,
            }
        },
        None => None,
    }
}

/// Read `n` bindings starting at `i`.
fn parse_entry_seq(bytes: &Vec<u8>, i: usize, n: u64) -> (r: Option<(Vec<(u64, Hotkeys)>, usize)>)
    requires
        i <= bytes@.len(),
    ensures
        match r {
            Some(p) => p.1 <= bytes@.len() && dec_entry_seq(bytes@.skip(i as int), n as nat)
                == Some(
                (
                    Seq::new(p.0@.len(), |m: int| (p.0@[m].0, p.0@[m].1@)),
                    bytes@.skip(p.1 as int),
                ),
            ),
            None => dec_entry_seq(bytes@.skip(i as int), n as nat) is None,
        },
{
    let mut out: Vec<(u64, Hotkeys)> = Vec::new();
    let ghost mut gh: Seq<(u64, Seq<HotkeyView>)> = Seq::<(u64, Seq<HotkeyView>)>::empty();
    let mut pos: usize = i;
    let mut k: u64 = 0;
    while k < n
        invariant
            0 <= k <= n,
            pos <= bytes@.len(),
            gh == Seq::new(out@.len(), |m: int| (out@[m].0, out@[m].1@)),
            dec_entry_seq(bytes@.skip(i as int), n as nat) == spec_prepend(
                gh,
                dec_entry_seq(bytes@.skip(pos as int), (n - k) as nat),
            ),
        decreases n - k,
    {
        match parse_entry(bytes, pos) {
            Some(p) => {
                let ghost ev = (p.0.0, p.0.1@);
                let ghost before = gh;
                proof {
                    gh = gh.push(ev);
                }
                out.push(p.0);
                proof {
                    assert(gh =~= Seq::new(out@.len(), |m: int| (out@[m].0, out@[m].1@)));
                    let sub = dec_entry_seq(bytes@.skip(p.1 as int), (n - k - 1) as nat);
                    if sub is Some {
                        assert(before + (seq![ev] + sub.unwrap().0) =~= before.push(ev)
                            + sub.unwrap().0);
                    }
                }
                pos = p.1;
                k += 1;
            },
            None => {
                return None;
            },
        }
    }
    proof {
        assert(gh + Seq::<(u64, Seq<HotkeyView>)>::empty() =~= gh);
    }
    Some((out, pos))
}

/// Encode a binding table as bytes.
pub fn encode_config(config: &HotkeyConfig) -> (r: Vec<u8>)
    ensures
        r@ == enc_config(config@),
{
    let mut out: Vec<u8> = Vec::new();
    push_le(&mut out, config.key_repeat.initial_delay as u64, 4);
    push_le(&mut out, config.key_repeat.delay as u64, 4);
    push_le(&mut out, config.map.len() as u64, 8);
    let ghost header = out@;
    proof {
        assert(config@.map.take(0) =~= Seq::<(u64, Seq<HotkeyView>)>::empty());
        assert(out@ =~= header + enc_entry_seq(config@.map.take(0)));
    }
    let mut t: usize = 0;
    while t < config.map.len()
        invariant
            0 <= t <= config@.map.len(),
            header == enc_le(config@.key_repeat.initial_delay as int, 4) + enc_le(
                config@.key_repeat.delay as int,
                4,
            ) + enc_le(config@.map.len() as int, 8),
            out@ == header + enc_entry_seq(config@.map.take(t as int)),
        decreases config@.map.len() - t,
    {
        let ghost entry = config@.map[t as int];
        proof {
            assert(entry.0 == config.map@[t as int].0);
            assert(entry.1 == config.map@[t as int].1@);
            assert(config@.map.take(t as int + 1) =~= config@.map.take(t as int).push(entry));
            lemma_enc_entry_seq_snoc(config@.map.take(t as int), entry);
        }
        let ghost before_entry = out@;
        push_le(&mut out, config.map[t].0, 8);
        push_le(&mut out, config.map[t].1.0.len() as u64, 8);
        let ghost hotkeys_start = out@;
        proof {
            assert(entry.1.len() == config.map@[t as int].1.0@.len());
            assert(entry.1.take(0) =~= Seq::<HotkeyView>::empty());
            assert(out@ =~= hotkeys_start + enc_hotkey_seq(entry.1.take(0)));
        }
        let hotkeys_len = config.map[t].1.0.len();
        let mut u: usize = 0;
        while u < hotkeys_len
            invariant
                0 <= u <= entry.1.len(),
                hotkeys_len == entry.1.len(),
                t < config@.map.len(),
                entry == config@.map[t as int],
                entry.1 == config.map@[t as int].1@,
                out@ == hotkeys_start + enc_hotkey_seq(entry.1.take(u as int)),
            decreases entry.1.len() - u,
        {
            let ghost h = entry.1[u as int];
            proof {
                assert(h == config.map@[t as int].1.0@[u as int]@);
                assert(entry.1.take(u as int + 1) =~= entry.1.take(u as int).push(h));
                lemma_enc_hotkey_seq_snoc(entry.1.take(u as int), h);
            }
            let ghost before_hotkey = out@;
            let action = config.map[t].1.0[u].key;
            match action {
                Action::Button(b) => {
                    out.push(0);
                    push_le(&mut out, b as u64, 4);
                    proof {
                        assert(out@ =~= before_hotkey + enc_action(h.key));
                    }
                },
                Action::Scroll(MouseWheelAction::Up) => {
                    out.push(1);
                    out.push(0);
                    proof {
                        assert(out@ =~= before_hotkey + enc_action(h.key));
                    }
                },
                Action::Scroll(MouseWheelAction::Down) => {
                    out.push(1);
                    out.push(1);
                    proof {
                        assert(out@ =~= before_hotkey + enc_action(h.key));
                    }
                },
                Action::Key(kc) => {
                    out.push(2);
                    push_le(&mut out, kc as u64, 4);
                    proof {
                        assert(out@ =~= before_hotkey + enc_action(h.key));
                    }
                },
            }
            let ghost after_action = out@;
            push_le(&mut out, config.map[t].1.0[u].modifiers.len() as u64, 8);
            let ghost mods_start = out@;
            proof {
                assert(h.modifiers == config.map@[t as int].1.0@[u as int].modifiers@);
                assert(h.modifiers.take(0) =~= Seq::<Modifier>::empty());
                assert(out@ =~= mods_start + enc_modifier_seq(h.modifiers.take(0)));
            }
            let mods_len = config.map[t].1.0[u].modifiers.len();
            let mut w: usize = 0;
            while w < mods_len
                invariant
                    0 <= w <= h.modifiers.len(),
                    mods_len == h.modifiers.len(),
                    t < config@.map.len(),
                    u < config.map@[t as int].1.0@.len(),
                    h == config.map@[t as int].1.0@[u as int]@,
                    out@ == mods_start + enc_modifier_seq(h.modifiers.take(w as int)),
                decreases h.modifiers.len() - w,
            {
                let ghost mo = h.modifiers[w as int];
                proof {
                    assert(h.modifiers.take(w as int + 1) =~= h.modifiers.take(w as int).push(mo));
                    lemma_enc_modifier_seq_snoc(h.modifiers.take(w as int), mo);
                }
                let ghost before_mod = out@;
                match config.map[t].1.0[u].modifiers[w] {
                    Modifier::Control => out.push(0),
                    Modifier::Shift => out.push(1),
                    Modifier::Alt => out.push(2),
                }
                proof {
                    assert(out@ =~= before_mod + enc_modifier(mo));
                }
                w += 1;
            }
            proof {
                assert(h.modifiers.take(h.modifiers.len() as int) =~= h.modifiers);
                assert(out@ =~= before_hotkey + enc_hotkey(h));
            }
            u += 1;
        }
        proof {
            assert(entry.1.take(entry.1.len() as int) =~= entry.1);
            assert(out@ =~= before_entry + enc_entry(entry));
            assert(out@ =~= header + enc_entry_seq(config@.map.take(t as int + 1)));
        }
        t += 1;
    }
    proof {
        assert(config@.map.take(config@.map.len() as int) =~= config@.map);
        assert(out@ =~= enc_config(config@));
    }
    out
}

/// Decode a binding table from bytes. Succeeds exactly on the inputs the
/// format can read completely and whose action keys are pairwise
/// distinct; anything else is a malformed table.
pub fn decode_config(bytes: &Vec<u8>) -> (r: Option<HotkeyConfig>)
    ensures
        (r is Some) == (dec_config(bytes@) is Some && dec_config(bytes@).unwrap().1.len() == 0
            && unique_keys(dec_config(bytes@).unwrap().0.map)),
        r is Some ==> r.unwrap()@ == dec_config(bytes@).unwrap().0 && r.unwrap().wf(),
{
    let initial = match read_le(bytes, 0, 4) {
        Some(p) => p,
        None => {
            proof {
                assert(bytes@.skip(0) =~= bytes@);
            }
            return None;
        },
    };
    proof {
        assert(bytes@.skip(0) =~= bytes@);
        lemma_dec_le_range(bytes@, 4);
        lemma_pow256_vals();
    }
    let delay = match read_le(bytes, initial.1, 4) {
        Some(p) => p,
        None => {
            return None;
        },
    };
    proof {
        lemma_dec_le_range(bytes@.skip(initial.1 as int), 4);
    }
    let count = match read_le(bytes, delay.1, 8) {
        Some(p) => p,
        None => {
            return None;
        },
    };
    proof {
        lemma_dec_le_range(bytes@.skip(delay.1 as int), 8);
    }
    let entries = match parse_entry_seq(bytes, count.1, count.0) {
        Some(p) => p,
        None => {
            return None;
        },
    };
    if entries.1 != bytes.len() {
        return None;
    }
    let map = entries.0;
    let ghost mv = Seq::new(map@.len(), |m: int| (map@[m].0, map@[m].1@));
    let ghost cv = HotkeyConfigView {
        map: mv,
        key_repeat: KeyRepeatSettings { initial_delay: initial.0 as u32, delay: delay.0 as u32 },
    };
    proof {
        assert(bytes@.skip(entries.1 as int) =~= Seq::<u8>::empty());
        assert(dec_config(bytes@) == Some((cv, Seq::<u8>::empty())));
    }
    let mut t: usize = 1;
    while t < map.len()
        invariant
            1 <= t <= mv.len() || mv.len() == 0,
            mv == Seq::new(map@.len(), |m: int| (map@[m].0, map@[m].1@)),
            mv.len() == map@.len(),
            cv.map == mv,
            dec_config(bytes@) == Some((cv, Seq::<u8>::empty())),
            forall|a: int, b: int| 0 <= a < b < t ==> mv[a].0 != mv[b].0,
        decreases map@.len() - t,
    {
        let mut u: usize = 0;
        while u < t
            invariant
                0 <= u <= t < map@.len(),
                mv == Seq::new(map@.len(), |m: int| (map@[m].0, map@[m].1@)),
                mv.len() == map@.len(),
                cv.map == mv,
                dec_config(bytes@) == Some((cv, Seq::<u8>::empty())),
                forall|a: int| 0 <= a < u ==> mv[a].0 != mv[t as int].0,
            decreases t - u,
        {
            if map[u].0 == map[t].0 {
                proof {
                    assert(mv[u as int].0 == mv[t as int].0);
                    assert(!unique_keys(mv));
                }
                return None;
            }
            u += 1;
        }
        t += 1;
    }
    let config = HotkeyConfig {
        map,
        key_repeat: KeyRepeatSettings {
            initial_delay: initial.0 as u32,
            delay: delay.0 as u32,
        },
    };
    proof {
        assert(config@.map =~= mv);
    }
    Some(config)
}

} // verus!
