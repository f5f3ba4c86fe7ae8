//! Error-correction tables: for one frame length, the map from a syndrome to
//! the error pattern that produces it.
//!
//! A table is built in tiers. Every one-bit and every two-bit pattern is
//! entered; their syndromes must all differ, or no table exists. For short
//! frames the three-bit patterns follow: one is entered if its syndrome is
//! that of no lighter pattern and of no other three-bit pattern.

use crate::pattern::{
    lemma_pair_injective, lemma_single_injective, lemma_single_is_no_pair, lemma_weight_pair,
    lemma_weight_single, lemma_weight_triple, pair, single, triple, weight,
};
use crate::syndrome::syndrome_of;
use crate::tiers::{
    add_pairs, add_singles, lemma_low_table_is_table, lemma_merged_is_table, merge, unique_triples,
};
use std::collections::HashMap;
use vstd::prelude::*;

verus! {

/// Frames of this many bytes or more get no three-bit tier: the code's
/// distance is too small there.
pub const TRIPLE_LIMIT: usize = 14;

/// Syndrome of the one-bit pattern `a`.
pub open spec fn syn1(units: Seq<u64>, len: nat, a: int) -> u64 {
    syndrome_of(units, single(len, a))
}

/// Syndrome of the two-bit pattern `a`, `b`.
pub open spec fn syn2(units: Seq<u64>, len: nat, a: int, b: int) -> u64 {
    syndrome_of(units, pair(len, a, b))
}

/// Syndrome of the three-bit pattern `a`, `b`, `c`.
pub open spec fn syn3(units: Seq<u64>, len: nat, a: int, b: int, c: int) -> u64 {
    syndrome_of(units, triple(len, a, b, c))
}

/// `a` is the index of a bit of a frame of `len` bytes.
pub open spec fn bit_ok(len: nat, a: int) -> bool {
    0 <= a < 8 * len
}

/// `a < b` are indices of bits of a frame of `len` bytes.
pub open spec fn pair_ok(len: nat, a: int, b: int) -> bool {
    0 <= a < b < 8 * len
}

/// `a < b < c` are indices of bits of a frame of `len` bytes.
pub open spec fn triple_ok(len: nat, a: int, b: int, c: int) -> bool {
    0 <= a < b < c < 8 * len
}

/// The table maps `s` to the pattern `e`.
pub open spec fn has_entry(t: Map<u64, Vec<u8>>, s: u64, e: Seq<u8>) -> bool {
    t.contains_key(s) && t[s]@ == e
}

/// `e` is a one-bit pattern with syndrome `s`.
pub open spec fn single_entry(units: Seq<u64>, len: nat, s: u64, e: Seq<u8>) -> bool {
    exists|a: int| bit_ok(len, a) && #[trigger] syn1(units, len, a) == s && e == single(len, a)
}

/// `e` is a two-bit pattern with syndrome `s`.
pub open spec fn pair_entry(units: Seq<u64>, len: nat, s: u64, e: Seq<u8>) -> bool {
    exists|a: int, b: int|
        pair_ok(len, a, b) && #[trigger] syn2(units, len, a, b) == s && e == pair(len, a, b)
}

/// `e` is a three-bit pattern with syndrome `s`.
pub open spec fn triple_entry(units: Seq<u64>, len: nat, s: u64, e: Seq<u8>) -> bool {
    exists|a: int, b: int, c: int|
        triple_ok(len, a, b, c) && #[trigger] syn3(units, len, a, b, c) == s && e == triple(
            len,
            a,
            b,
            c,
        )
}

/// `s` is the syndrome of a one-bit or a two-bit pattern.
pub open spec fn low_syndrome(units: Seq<u64>, len: nat, s: u64) -> bool {
    ||| exists|a: int| bit_ok(len, a) && #[trigger] syn1(units, len, a) == s
    ||| exists|a: int, b: int| pair_ok(len, a, b) && #[trigger] syn2(units, len, a, b) == s
}

/// No two patterns of one or two bits have the same syndrome.
pub open spec fn low_distinct(units: Seq<u64>, len: nat) -> bool {
    &&& forall|a: int, b: int|
        bit_ok(len, a) && bit_ok(len, b) && #[trigger] syn1(units, len, a) == #[trigger] syn1(
            units,
            len,
            b,
        ) ==> a == b
    &&& forall|a: int, b: int, c: int, d: int|
        pair_ok(len, a, b) && pair_ok(len, c, d) && #[trigger] syn2(units, len, a, b)
            == #[trigger] syn2(units, len, c, d) ==> a == c && b == d
    &&& forall|a: int, b: int, c: int|
        bit_ok(len, a) && pair_ok(len, b, c) ==> #[trigger] syn1(units, len, a) != #[trigger] syn2(
            units,
            len,
            b,
            c,
        )
}

/// No other three-bit pattern has the syndrome of `a`, `b`, `c`.
pub open spec fn unique_triple(units: Seq<u64>, len: nat, a: int, b: int, c: int) -> bool {
    forall|d: int, e: int, f: int|
        triple_ok(len, d, e, f) && #[trigger] syn3(units, len, d, e, f) == syn3(units, len, a, b, c)
            ==> d == a && e == b && f == c
}

/// `t` is the correction table for frames of `len` bytes under the residues
/// `units`:
/// - every one-bit and every two-bit pattern is entered under its syndrome;
/// - a three-bit pattern whose syndrome is that of no lighter pattern is
///   entered if the frame is short and no other three-bit pattern has its
///   syndrome, and else its syndrome is no key at all;
/// - there are no other entries.
pub open spec fn correction_table(units: Seq<u64>, len: nat, t: Map<u64, Vec<u8>>) -> bool {
    &&& forall|a: int|
        bit_ok(len, a) ==> has_entry(t, #[trigger] syn1(units, len, a), single(len, a))
    &&& forall|a: int, b: int|
        pair_ok(len, a, b) ==> has_entry(t, #[trigger] syn2(units, len, a, b), pair(len, a, b))
    &&& forall|a: int, b: int, c: int|
        triple_ok(len, a, b, c) && !low_syndrome(units, len, #[trigger] syn3(units, len, a, b, c))
            ==> if len < TRIPLE_LIMIT && unique_triple(units, len, a, b, c) {
            has_entry(t, syn3(units, len, a, b, c), triple(len, a, b, c))
        } else {
            !t.contains_key(syn3(units, len, a, b, c))
        }
    &&& forall|s: u64| #[trigger]
        t.contains_key(s) ==> single_entry(units, len, s, t[s]@) || pair_entry(
            units,
            len,
            s,
            t[s]@,
        ) || (len < TRIPLE_LIMIT && triple_entry(units, len, s, t[s]@))
}

/// Builds the correction table for frames of `len` bytes, where `units[p]` is
/// the residue of bit position `p`.
///
/// There is a table exactly when no two patterns of one or two bits have the
/// same syndrome; otherwise the code cannot tell those errors apart and the
/// result is `None`.
pub fn build_table(units: &[u64], len: usize) -> (table: Option<HashMap<u64, Vec<u8>>>)
    requires
        units.len() == 8 * len,
    ensures
        table.is_some() <==> low_distinct(units@, len as nat),
        table matches Some(t) ==> correction_table(units@, len as nat, t@),
{
    let mut map: HashMap<u64, Vec<u8>> = HashMap::new();
    if !add_singles(units, len, &mut map) {
        return None;
    }
    if !add_pairs(units, len, &mut map) {
        return None;
    }
    if len < TRIPLE_LIMIT {
        let ghost low = map@;
        let map3 = unique_triples(units, len, &map);
        merge(&mut map, &map3);
        proof {
            lemma_merged_is_table(units@, len as nat, low, map3@, map@);
        }
    } else {
        proof {
            lemma_low_table_is_table(units@, len as nat, map@);
        }
    }
    proof {
        lemma_table_distinct(units@, len as nat, map@);
    }
    Some(map)
}

/// Every entry of a correction table is a pattern as long as the frame, with
/// one to three bits set, under its own syndrome.
pub proof fn lemma_entry_properties(units: Seq<u64>, len: nat, t: Map<u64, Vec<u8>>, s: u64)
    requires
        correction_table(units, len, t),
        t.contains_key(s),
    ensures
        t[s]@.len() == len,
        syndrome_of(units, t[s]@) == s,
        1 <= weight(t[s]@) <= 3,
{
    let e = t[s]@;
    if single_entry(units, len, s, e) {
        let a = choose|a: int|
            bit_ok(len, a) && #[trigger] syn1(units, len, a) == s && e == single(len, a);
        lemma_weight_single(len, a);
    } else if pair_entry(units, len, s, e) {
        let (a, b) = choose|a: int, b: int|
            pair_ok(len, a, b) && #[trigger] syn2(units, len, a, b) == s && e == pair(len, a, b);
        lemma_weight_pair(len, a, b);
    } else {
        let (a, b, c) = choose|a: int, b: int, c: int|
            triple_ok(len, a, b, c) && #[trigger] syn3(units, len, a, b, c) == s && e == triple(
                len,
                a,
                b,
                c,
            );
        lemma_weight_triple(len, a, b, c);
    }
}

/// In a correction table the patterns of one and two bits all have different
/// syndromes: none of its light entries stands for two errors.
pub proof fn lemma_table_distinct(units: Seq<u64>, len: nat, t: Map<u64, Vec<u8>>)
    requires
        correction_table(units, len, t),
    ensures
        low_distinct(units, len),
{
    assert forall|a: int, b: int|
        bit_ok(len, a) && bit_ok(len, b) && #[trigger] syn1(units, len, a) == #[trigger] syn1(
            units,
            len,
            b,
        ) implies a == b by {
        lemma_single_injective(len, a, b);
    }
    assert forall|a: int, b: int, c: int, d: int|
        pair_ok(len, a, b) && pair_ok(len, c, d) && #[trigger] syn2(units, len, a, b)
            == #[trigger] syn2(units, len, c, d) implies a == c && b == d by {
        lemma_pair_injective(len, a, b, c, d);
    }
    assert forall|a: int, b: int, c: int|
        bit_ok(len, a) && pair_ok(len, b, c) implies #[trigger] syn1(units, len, a)
        != #[trigger] syn2(units, len, b, c) by {
        lemma_single_is_no_pair(len, a, b, c);
    }
}

} // verus!
