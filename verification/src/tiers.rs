//! How a correction table is built, tier by tier.
//!
//! The patterns are enumerated in order: the bits, then the pairs, then the
//! triples, each in lexicographic order of the bit indices. The predicates
//! here say what the maps hold when the enumeration has reached a given
//! pattern; the functions go through one tier, or one row of it, and keep
//! them true.

use crate::pattern::{
    bit_position, lemma_syndrome_pair, lemma_syndrome_single, lemma_syndrome_triple,
    lemma_triple_injective, pair, pair_pattern, position, single, single_pattern, triple,
    triple_pattern,
};
use crate::table::{
    bit_ok, correction_table, has_entry, low_distinct, low_syndrome, pair_entry, pair_ok,
    single_entry, syn1, syn2, syn3, triple_entry, triple_ok, unique_triple, TRIPLE_LIMIT,
};
use std::collections::HashMap;
use std::collections::HashSet;
use vstd::prelude::*;

verus! {

/// The pair `(a, b)` comes before `(i, j)` in the order of enumeration.
pub(crate) open spec fn pair_before(a: int, b: int, i: int, j: int) -> bool {
    a < i || (a == i && b < j)
}

/// The triple `(a, b, c)` comes before `(i, j, k)` in the order of
/// enumeration.
pub(crate) open spec fn triple_before(a: int, b: int, c: int, i: int, j: int, k: int) -> bool {
    a < i || (a == i && (b < j || (b == j && c < k)))
}

/// `e` is a one-bit pattern with an index below `n` and syndrome `s`: one that
/// is entered before the bit `n` is reached.
pub(crate) open spec fn early_single(units: Seq<u64>, len: nat, s: u64, e: Seq<u8>, n: int) -> bool {
    exists|a: int|
        bit_ok(len, a) && a < n && #[trigger] syn1(units, len, a) == s && e == single(len, a)
}

/// `e` is a two-bit pattern before `(i, j)` with syndrome `s`: one that is
/// entered before the pair `(i, j)` is reached.
pub(crate) open spec fn early_pair(units: Seq<u64>, len: nat, s: u64, e: Seq<u8>, i: int, j: int) -> bool {
    exists|a: int, b: int|
        pair_ok(len, a, b) && pair_before(a, b, i, j) && #[trigger] syn2(units, len, a, b) == s && e
            == pair(len, a, b)
}

/// `e` is a three-bit pattern before `(i, j, k)` with syndrome `s`: one that
/// is met before the triple `(i, j, k)` is reached.
pub(crate) open spec fn early_triple(
    units: Seq<u64>,
    len: nat,
    s: u64,
    e: Seq<u8>,
    i: int,
    j: int,
    k: int,
) -> bool {
    exists|a: int, b: int, c: int|
        triple_ok(len, a, b, c) && triple_before(a, b, c, i, j, k) && #[trigger] syn3(
            units,
            len,
            a,
            b,
            c,
        ) == s && e == triple(len, a, b, c)
}

/// The state of the lower tiers while they are built: the one-bit patterns
/// below `n` and the two-bit patterns before `(i, j)` are entered under their
/// syndromes, and nothing else is.
pub(crate) open spec fn low_state(
    units: Seq<u64>,
    len: nat,
    t: Map<u64, Vec<u8>>,
    n: int,
    i: int,
    j: int,
) -> bool {
    &&& forall|a: int|
        bit_ok(len, a) && a < n ==> has_entry(t, #[trigger] syn1(units, len, a), single(len, a))
    &&& forall|a: int, b: int|
        pair_ok(len, a, b) && pair_before(a, b, i, j) ==> has_entry(
            t,
            #[trigger] syn2(units, len, a, b),
            pair(len, a, b),
        )
    &&& forall|s: u64| #[trigger]
        t.contains_key(s) ==> early_single(units, len, s, t[s]@, n) || early_pair(
            units,
            len,
            s,
            t[s]@,
            i,
            j,
        )
}

/// The lower tiers are complete.
pub(crate) open spec fn low_table(units: Seq<u64>, len: nat, t: Map<u64, Vec<u8>>) -> bool {
    low_state(units, len, t, (8 * len) as int, (8 * len) as int, 0)
}

/// In a table whose lower tiers are complete, the keys are the syndromes of
/// the light patterns.
proof fn lemma_low_table_keys(units: Seq<u64>, len: nat, t: Map<u64, Vec<u8>>, s: u64)
    requires
        low_table(units, len, t),
    ensures
        t.contains_key(s) <==> low_syndrome(units, len, s),
{
    if t.contains_key(s) {
        if early_single(units, len, s, t[s]@, (8 * len) as int) {
            let a = choose|a: int|
                bit_ok(len, a) && a < 8 * len && #[trigger] syn1(units, len, a) == s && t[s]@
                    == single(len, a);
            assert(bit_ok(len, a) && syn1(units, len, a) == s);
        } else {
            let (a, b) = choose|a: int, b: int|
                pair_ok(len, a, b) && pair_before(a, b, (8 * len) as int, 0) && #[trigger] syn2(
                    units,
                    len,
                    a,
                    b,
                ) == s && t[s]@ == pair(len, a, b);
            assert(pair_ok(len, a, b) && syn2(units, len, a, b) == s);
        }
    }
    if low_syndrome(units, len, s) {
        if exists|a: int| bit_ok(len, a) && #[trigger] syn1(units, len, a) == s {
            let a = choose|a: int| bit_ok(len, a) && #[trigger] syn1(units, len, a) == s;
            assert(has_entry(t, syn1(units, len, a), single(len, a)));
        } else {
            let (a, b) = choose|a: int, b: int|
                pair_ok(len, a, b) && #[trigger] syn2(units, len, a, b) == s;
            assert(has_entry(t, syn2(units, len, a, b), pair(len, a, b)));
        }
    }
}

/// Enters every one-bit pattern under its syndrome. Returns `false`, and
/// stops, when two of them have the same syndrome.
pub(crate) fn add_singles(units: &[u64], len: usize, map: &mut HashMap<u64, Vec<u8>>) -> (ok: bool)
    requires
        units.len() == 8 * len,
        old(map)@ == Map::<u64, Vec<u8>>::empty(),
    ensures
        ok ==> low_state(units@, len as nat, final(map)@, 8 * len, 0, 0),
        !ok ==> !low_distinct(units@, len as nat),
{
    broadcast use vstd::std_specs::hash::group_hash_axioms;

    let n = 8 * len;
    let mut i: usize = 0;
    while i < n
        invariant
            units.len() == 8 * len,
            n == 8 * len,
            i <= n,
            low_state(units@, len as nat, map@, i as int, 0, 0),
        decreases n - i,
    {
        let value = units[position(len, i)];
        proof {
            lemma_syndrome_single(units@, len as nat, i as int);
            assert(value == syn1(units@, len as nat, i as int));
        }
        if map.contains_key(&value) {
            proof {
                let e = map@[value]@;
                assert(early_single(units@, len as nat, value, e, i as int));
                let a = choose|a: int|
                    bit_ok(len as nat, a) && a < i && #[trigger] syn1(units@, len as nat, a)
                        == value && e == single(len as nat, a);
                assert(syn1(units@, len as nat, a) == syn1(units@, len as nat, i as int));
                assert(bit_ok(len as nat, i as int));
            }
            return false;
        }
        let data = single_pattern(len, i);
        let ghost before = map@;
        map.insert(value, data);
        proof {
            let next = i + 1;
            assert forall|s: u64| #[trigger] map@.contains_key(s) implies early_single(
                units@,
                len as nat,
                s,
                map@[s]@,
                next,
            ) by {
                if s == value {
                    assert(bit_ok(len as nat, i as int) && syn1(units@, len as nat, i as int) == s);
                } else {
                    assert(before.contains_key(s));
                    let a = choose|a: int|
                        bit_ok(len as nat, a) && a < i && #[trigger] syn1(units@, len as nat, a)
                            == s && before[s]@ == single(len as nat, a);
                    assert(bit_ok(len as nat, a) && a < next && syn1(units@, len as nat, a) == s);
                }
            }
        }
        i = i + 1;
    }
    true
}

/// Enters every two-bit pattern whose lower bit is `i`. Returns `false`, and
/// stops, when one of them has the syndrome of a pattern entered before.
fn add_pairs_from(units: &[u64], len: usize, map: &mut HashMap<u64, Vec<u8>>, i: usize) -> (ok:
    bool)
    requires
        units.len() == 8 * len,
        i < 8 * len,
        low_state(units@, len as nat, old(map)@, 8 * len, i as int, i + 1),
    ensures
        ok ==> low_state(units@, len as nat, final(map)@, 8 * len, i + 1, i + 2),
        !ok ==> !low_distinct(units@, len as nat),
{
    broadcast use vstd::std_specs::hash::group_hash_axioms;

    let n = 8 * len;
    let first = units[position(len, i)];
    let mut j: usize = i + 1;
    while j < n
        invariant
            units.len() == 8 * len,
            n == 8 * len,
            i < j <= n,
            first == units@[bit_position(len as nat, i as int)],
            low_state(units@, len as nat, map@, n as int, i as int, j as int),
        decreases n - j,
    {
        let value = first ^ units[position(len, j)];
        proof {
            lemma_syndrome_pair(units@, len as nat, i as int, j as int);
            assert(value == syn2(units@, len as nat, i as int, j as int));
            assert(pair_ok(len as nat, i as int, j as int));
        }
        if map.contains_key(&value) {
            proof {
                let e = map@[value]@;
                if early_single(units@, len as nat, value, e, n as int) {
                    let a = choose|a: int|
                        bit_ok(len as nat, a) && a < n && #[trigger] syn1(units@, len as nat, a)
                            == value && e == single(len as nat, a);
                    assert(syn1(units@, len as nat, a) == syn2(
                        units@,
                        len as nat,
                        i as int,
                        j as int,
                    ));
                } else {
                    let (a, b) = choose|a: int, b: int|
                        pair_ok(len as nat, a, b) && pair_before(a, b, i as int, j as int)
                            && #[trigger] syn2(units@, len as nat, a, b) == value && e == pair(
                            len as nat,
                            a,
                            b,
                        );
                    assert(syn2(units@, len as nat, a, b) == syn2(
                        units@,
                        len as nat,
                        i as int,
                        j as int,
                    ));
                }
            }
            return false;
        }
        let data = pair_pattern(len, i, j);
        let ghost before = map@;
        map.insert(value, data);
        proof {
            let next = j + 1;
            assert forall|s: u64| #[trigger] map@.contains_key(s) implies early_single(
                units@,
                len as nat,
                s,
                map@[s]@,
                n as int,
            ) || early_pair(units@, len as nat, s, map@[s]@, i as int, next) by {
                if s == value {
                    assert(pair_before(i as int, j as int, i as int, next));
                    assert(syn2(units@, len as nat, i as int, j as int) == s);
                } else {
                    assert(before.contains_key(s));
                    if !early_single(units@, len as nat, s, before[s]@, n as int) {
                        let (a, b) = choose|a: int, b: int|
                            pair_ok(len as nat, a, b) && pair_before(a, b, i as int, j as int)
                                && #[trigger] syn2(units@, len as nat, a, b) == s && before[s]@
                                == pair(len as nat, a, b);
                        assert(pair_before(a, b, i as int, next) && syn2(units@, len as nat, a, b)
                            == s);
                    }
                }
            }
        }
        j = j + 1;
    }
    proof {
        lemma_low_state_same(units@, len as nat, map@, n as int, i as int, n as int, i + 1, i + 2);
    }
    true
}

/// The state of the lower tiers depends only on which pairs are done, not on
/// how the progress is written.
proof fn lemma_low_state_same(
    units: Seq<u64>,
    len: nat,
    t: Map<u64, Vec<u8>>,
    n: int,
    i: int,
    j: int,
    i2: int,
    j2: int,
)
    requires
        low_state(units, len, t, n, i, j),
        forall|a: int, b: int|
            pair_ok(len, a, b) ==> (pair_before(a, b, i, j) <==> pair_before(a, b, i2, j2)),
    ensures
        low_state(units, len, t, n, i2, j2),
{
    assert forall|s: u64| #[trigger] t.contains_key(s) implies early_single(
        units,
        len,
        s,
        t[s]@,
        n,
    ) || early_pair(units, len, s, t[s]@, i2, j2) by {
        if !early_single(units, len, s, t[s]@, n) {
            let (a, b) = choose|a: int, b: int|
                pair_ok(len, a, b) && pair_before(a, b, i, j) && #[trigger] syn2(units, len, a, b)
                    == s && t[s]@ == pair(len, a, b);
            assert(pair_before(a, b, i2, j2) && syn2(units, len, a, b) == s);
        }
    }
}

/// Enters every two-bit pattern under its syndrome. Returns `false`, and
/// stops, when one of them has the syndrome of another or of a one-bit
/// pattern.
pub(crate) fn add_pairs(units: &[u64], len: usize, map: &mut HashMap<u64, Vec<u8>>) -> (ok: bool)
    requires
        units.len() == 8 * len,
        low_state(units@, len as nat, old(map)@, 8 * len, 0, 0),
    ensures
        ok ==> low_table(units@, len as nat, final(map)@),
        !ok ==> !low_distinct(units@, len as nat),
{
    let n = 8 * len;
    let mut i: usize = 0;
    proof {
        lemma_low_state_same(units@, len as nat, map@, n as int, 0, 0, 0, 1);
    }
    while i < n
        invariant
            units.len() == 8 * len,
            n == 8 * len,
            i <= n,
            low_state(units@, len as nat, map@, n as int, i as int, i + 1),
        decreases n - i,
    {
        if !add_pairs_from(units, len, map, i) {
            return false;
        }
        i = i + 1;
    }
    proof {
        lemma_low_state_same(units@, len as nat, map@, n as int, n as int, n + 1, n as int, 0);
    }
    true
}

/// Two different three-bit patterns before `(i, j, k)` have the syndrome `s`.
spec fn ambiguous(units: Seq<u64>, len: nat, s: u64, i: int, j: int, k: int) -> bool {
    exists|a: int, b: int, c: int, d: int, e: int, f: int|
        triple_ok(len, a, b, c) && triple_ok(len, d, e, f) && triple_before(a, b, c, i, j, k)
            && triple_before(d, e, f, i, j, k) && !(a == d && b == e && c == f) && #[trigger] syn3(
            units,
            len,
            a,
            b,
            c,
        ) == s && #[trigger] syn3(units, len, d, e, f) == s
}

/// The state of the three-bit tier while it is built, beside the finished
/// lower tiers `t`. Of the three-bit patterns before `(i, j, k)` whose
/// syndrome is not a key of `t`, those that are alone with their syndrome are
/// entered in `m3`, and the syndromes shared by several are listed in `bl`.
spec fn high_state(
    units: Seq<u64>,
    len: nat,
    t: Map<u64, Vec<u8>>,
    m3: Map<u64, Vec<u8>>,
    bl: Set<u64>,
    i: int,
    j: int,
    k: int,
) -> bool {
    &&& forall|s: u64| #[trigger]
        m3.contains_key(s) ==> !t.contains_key(s) && !bl.contains(s) && early_triple(
            units,
            len,
            s,
            m3[s]@,
            i,
            j,
            k,
        )
    &&& forall|s: u64| #[trigger]
        bl.contains(s) ==> !t.contains_key(s) && ambiguous(units, len, s, i, j, k)
    &&& forall|a: int, b: int, c: int|
        triple_ok(len, a, b, c) && triple_before(a, b, c, i, j, k) && !t.contains_key(
            #[trigger] syn3(units, len, a, b, c),
        ) ==> has_entry(m3, syn3(units, len, a, b, c), triple(len, a, b, c)) || bl.contains(
            syn3(units, len, a, b, c),
        )
}

/// The finished three-bit tier `m3` beside the lower tiers `t`: it holds
/// exactly the three-bit patterns whose syndrome is no key of `t` and belongs
/// to no other three-bit pattern.
pub(crate) open spec fn high_table(
    units: Seq<u64>,
    len: nat,
    t: Map<u64, Vec<u8>>,
    m3: Map<u64, Vec<u8>>,
) -> bool {
    &&& forall|s: u64| #[trigger]
        m3.contains_key(s) ==> !t.contains_key(s) && early_triple(
            units,
            len,
            s,
            m3[s]@,
            (8 * len) as int,
            0,
            0,
        )
    &&& forall|a: int, b: int, c: int|
        triple_ok(len, a, b, c) && !t.contains_key(#[trigger] syn3(units, len, a, b, c))
            ==> if unique_triple(units, len, a, b, c) {
            has_entry(m3, syn3(units, len, a, b, c), triple(len, a, b, c))
        } else {
            !m3.contains_key(syn3(units, len, a, b, c))
        }
}

/// Widening the progress keeps a three-bit entry an entry.
proof fn lemma_triple_entry_later(
    units: Seq<u64>,
    len: nat,
    s: u64,
    e: Seq<u8>,
    i: int,
    j: int,
    k: int,
    i2: int,
    j2: int,
    k2: int,
)
    requires
        early_triple(units, len, s, e, i, j, k),
        forall|a: int, b: int, c: int|
            triple_ok(len, a, b, c) && triple_before(a, b, c, i, j, k) ==> triple_before(
                a,
                b,
                c,
                i2,
                j2,
                k2,
            ),
    ensures
        early_triple(units, len, s, e, i2, j2, k2),
{
    let (a, b, c) = choose|a: int, b: int, c: int|
        triple_ok(len, a, b, c) && triple_before(a, b, c, i, j, k) && #[trigger] syn3(
            units,
            len,
            a,
            b,
            c,
        ) == s && e == triple(len, a, b, c);
    assert(triple_before(a, b, c, i2, j2, k2) && syn3(units, len, a, b, c) == s);
}

/// Widening the progress keeps a shared syndrome shared.
proof fn lemma_ambiguous_later(
    units: Seq<u64>,
    len: nat,
    s: u64,
    i: int,
    j: int,
    k: int,
    i2: int,
    j2: int,
    k2: int,
)
    requires
        ambiguous(units, len, s, i, j, k),
        forall|a: int, b: int, c: int|
            triple_ok(len, a, b, c) && triple_before(a, b, c, i, j, k) ==> triple_before(
                a,
                b,
                c,
                i2,
                j2,
                k2,
            ),
    ensures
        ambiguous(units, len, s, i2, j2, k2),
{
    let (a, b, c, d, e, f) = choose|a: int, b: int, c: int, d: int, e: int, f: int|
        triple_ok(len, a, b, c) && triple_ok(len, d, e, f) && triple_before(a, b, c, i, j, k)
            && triple_before(d, e, f, i, j, k) && !(a == d && b == e && c == f) && #[trigger] syn3(
            units,
            len,
            a,
            b,
            c,
        ) == s && #[trigger] syn3(units, len, d, e, f) == s;
    assert(triple_before(a, b, c, i2, j2, k2) && triple_before(d, e, f, i2, j2, k2));
    assert(syn3(units, len, a, b, c) == s && syn3(units, len, d, e, f) == s);
}

/// The state of the three-bit tier depends only on which triples are done,
/// not on how the progress is written.
proof fn lemma_high_state_same(
    units: Seq<u64>,
    len: nat,
    t: Map<u64, Vec<u8>>,
    m3: Map<u64, Vec<u8>>,
    bl: Set<u64>,
    i: int,
    j: int,
    k: int,
    i2: int,
    j2: int,
    k2: int,
)
    requires
        high_state(units, len, t, m3, bl, i, j, k),
        forall|a: int, b: int, c: int|
            triple_ok(len, a, b, c) ==> (triple_before(a, b, c, i, j, k) <==> triple_before(
                a,
                b,
                c,
                i2,
                j2,
                k2,
            )),
    ensures
        high_state(units, len, t, m3, bl, i2, j2, k2),
{
    assert forall|s: u64| #[trigger] m3.contains_key(s) implies early_triple(
        units,
        len,
        s,
        m3[s]@,
        i2,
        j2,
        k2,
    ) by {
        lemma_triple_entry_later(units, len, s, m3[s]@, i, j, k, i2, j2, k2);
    }
    assert forall|s: u64| #[trigger] bl.contains(s) implies ambiguous(
        units,
        len,
        s,
        i2,
        j2,
        k2,
    ) by {
        lemma_ambiguous_later(units, len, s, i, j, k, i2, j2, k2);
    }
}

/// The next triple changes nothing when its syndrome is a key of the lower
/// tiers or is already known to be shared.
proof fn lemma_high_skip(
    units: Seq<u64>,
    len: nat,
    t: Map<u64, Vec<u8>>,
    m3: Map<u64, Vec<u8>>,
    bl: Set<u64>,
    i: int,
    j: int,
    k: int,
)
    requires
        high_state(units, len, t, m3, bl, i, j, k),
        triple_ok(len, i, j, k),
        t.contains_key(syn3(units, len, i, j, k)) || bl.contains(syn3(units, len, i, j, k)),
    ensures
        high_state(units, len, t, m3, bl, i, j, k + 1),
{
    assert forall|s: u64| #[trigger] m3.contains_key(s) implies early_triple(
        units,
        len,
        s,
        m3[s]@,
        i,
        j,
        k + 1,
    ) by {
        lemma_triple_entry_later(units, len, s, m3[s]@, i, j, k, i, j, k + 1);
    }
    assert forall|s: u64| #[trigger] bl.contains(s) implies ambiguous(
        units,
        len,
        s,
        i,
        j,
        k + 1,
    ) by {
        lemma_ambiguous_later(units, len, s, i, j, k, i, j, k + 1);
    }
}

/// The next triple has the syndrome of an entry of the tier: the entry
/// leaves, and the syndrome is listed as shared.
proof fn lemma_high_blacklist(
    units: Seq<u64>,
    len: nat,
    t: Map<u64, Vec<u8>>,
    m3: Map<u64, Vec<u8>>,
    bl: Set<u64>,
    i: int,
    j: int,
    k: int,
)
    requires
        high_state(units, len, t, m3, bl, i, j, k),
        triple_ok(len, i, j, k),
        m3.contains_key(syn3(units, len, i, j, k)),
    ensures
        high_state(
            units,
            len,
            t,
            m3.remove(syn3(units, len, i, j, k)),
            bl.insert(syn3(units, len, i, j, k)),
            i,
            j,
            k + 1,
        ),
{
    let v = syn3(units, len, i, j, k);
    let m3b = m3.remove(v);
    let blb = bl.insert(v);
    assert forall|s: u64| #[trigger] m3b.contains_key(s) implies !t.contains_key(s)
        && !blb.contains(s) && early_triple(units, len, s, m3b[s]@, i, j, k + 1) by {
        assert(m3.contains_key(s));
        lemma_triple_entry_later(units, len, s, m3[s]@, i, j, k, i, j, k + 1);
    }
    assert forall|s: u64| #[trigger] blb.contains(s) implies !t.contains_key(s) && ambiguous(
        units,
        len,
        s,
        i,
        j,
        k + 1,
    ) by {
        if s == v {
            let (a, b, c) = choose|a: int, b: int, c: int|
                triple_ok(len, a, b, c) && triple_before(a, b, c, i, j, k) && #[trigger] syn3(
                    units,
                    len,
                    a,
                    b,
                    c,
                ) == v && m3[v]@ == triple(len, a, b, c);
            assert(triple_before(a, b, c, i, j, k + 1) && triple_before(i, j, k, i, j, k + 1));
            assert(syn3(units, len, a, b, c) == s && syn3(units, len, i, j, k) == s);
        } else {
            assert(bl.contains(s));
            lemma_ambiguous_later(units, len, s, i, j, k, i, j, k + 1);
        }
    }
    assert forall|a: int, b: int, c: int|
        triple_ok(len, a, b, c) && triple_before(a, b, c, i, j, k + 1) && !t.contains_key(
            #[trigger] syn3(units, len, a, b, c),
        ) implies has_entry(m3b, syn3(units, len, a, b, c), triple(len, a, b, c)) || blb.contains(
        syn3(units, len, a, b, c),
    ) by {
        if syn3(units, len, a, b, c) != v {
            assert(triple_before(a, b, c, i, j, k));
        }
    }
}

/// The next triple has a syndrome not seen before: it is entered.
proof fn lemma_high_insert(
    units: Seq<u64>,
    len: nat,
    t: Map<u64, Vec<u8>>,
    m3: Map<u64, Vec<u8>>,
    bl: Set<u64>,
    i: int,
    j: int,
    k: int,
    data: Vec<u8>,
)
    requires
        high_state(units, len, t, m3, bl, i, j, k),
        triple_ok(len, i, j, k),
        !t.contains_key(syn3(units, len, i, j, k)),
        !m3.contains_key(syn3(units, len, i, j, k)),
        !bl.contains(syn3(units, len, i, j, k)),
        data@ == triple(len, i, j, k),
    ensures
        high_state(units, len, t, m3.insert(syn3(units, len, i, j, k), data), bl, i, j, k + 1),
{
    let v = syn3(units, len, i, j, k);
    let m3b = m3.insert(v, data);
    assert forall|s: u64| #[trigger] m3b.contains_key(s) implies !t.contains_key(s)
        && !bl.contains(s) && early_triple(units, len, s, m3b[s]@, i, j, k + 1) by {
        if s == v {
            assert(triple_before(i, j, k, i, j, k + 1) && syn3(units, len, i, j, k) == s);
        } else {
            assert(m3.contains_key(s));
            lemma_triple_entry_later(units, len, s, m3[s]@, i, j, k, i, j, k + 1);
        }
    }
    assert forall|s: u64| #[trigger] bl.contains(s) implies ambiguous(
        units,
        len,
        s,
        i,
        j,
        k + 1,
    ) by {
        lemma_ambiguous_later(units, len, s, i, j, k, i, j, k + 1);
    }
    assert forall|a: int, b: int, c: int|
        triple_ok(len, a, b, c) && triple_before(a, b, c, i, j, k + 1) && !t.contains_key(
            #[trigger] syn3(units, len, a, b, c),
        ) implies has_entry(m3b, syn3(units, len, a, b, c), triple(len, a, b, c)) || bl.contains(
        syn3(units, len, a, b, c),
    ) by {
        if !(a == i && b == j && c == k) {
            assert(triple_before(a, b, c, i, j, k));
        }
    }
}

/// Once every triple is done, the tier holds exactly the three-bit patterns
/// that are alone with their syndrome.
proof fn lemma_high_state_complete(
    units: Seq<u64>,
    len: nat,
    t: Map<u64, Vec<u8>>,
    m3: Map<u64, Vec<u8>>,
    bl: Set<u64>,
)
    requires
        high_state(units, len, t, m3, bl, (8 * len) as int, 0, 0),
    ensures
        high_table(units, len, t, m3),
{
    let n = (8 * len) as int;
    assert forall|a: int, b: int, c: int|
        triple_ok(len, a, b, c) && !t.contains_key(
            #[trigger] syn3(units, len, a, b, c),
        ) implies if unique_triple(units, len, a, b, c) {
        has_entry(m3, syn3(units, len, a, b, c), triple(len, a, b, c))
    } else {
        !m3.contains_key(syn3(units, len, a, b, c))
    } by {
        let s = syn3(units, len, a, b, c);
        assert(triple_before(a, b, c, n, 0, 0));
        if unique_triple(units, len, a, b, c) {
            if bl.contains(s) {
                let (a1, b1, c1, a2, b2, c2) = choose|
                    a1: int,
                    b1: int,
                    c1: int,
                    a2: int,
                    b2: int,
                    c2: int,
                |
                    triple_ok(len, a1, b1, c1) && triple_ok(len, a2, b2, c2) && triple_before(
                        a1,
                        b1,
                        c1,
                        n,
                        0,
                        0,
                    ) && triple_before(a2, b2, c2, n, 0, 0) && !(a1 == a2 && b1 == b2 && c1 == c2)
                        && #[trigger] syn3(units, len, a1, b1, c1) == s && #[trigger] syn3(
                        units,
                        len,
                        a2,
                        b2,
                        c2,
                    ) == s;
                assert(a1 == a && b1 == b && c1 == c);
                assert(a2 == a && b2 == b && c2 == c);
            }
        } else {
            if m3.contains_key(s) {
                let (d, e, f) = choose|d: int, e: int, f: int|
                    triple_ok(len, d, e, f) && #[trigger] syn3(units, len, d, e, f) == syn3(
                        units,
                        len,
                        a,
                        b,
                        c,
                    ) && !(d == a && e == b && f == c);
                assert(triple_before(d, e, f, n, 0, 0));
                assert(has_entry(m3, s, triple(len, a, b, c)));
                assert(has_entry(m3, syn3(units, len, d, e, f), triple(len, d, e, f)));
                lemma_triple_injective(len, a, b, c, d, e, f);
            }
        }
    }
}

/// Handles every three-bit pattern whose lower bits are `i` and `j`.
fn add_triples_with(
    units: &[u64],
    len: usize,
    map: &HashMap<u64, Vec<u8>>,
    map3: &mut HashMap<u64, Vec<u8>>,
    blacklist: &mut HashSet<u64>,
    i: usize,
    j: usize,
)
    requires
        units.len() == 8 * len,
        i < j < 8 * len,
        high_state(
            units@,
            len as nat,
            map@,
            old(map3)@,
            old(blacklist)@,
            i as int,
            j as int,
            j + 1,
        ),
    ensures
        high_state(
            units@,
            len as nat,
            map@,
            final(map3)@,
            final(blacklist)@,
            i as int,
            j + 1,
            j + 2,
        ),
{
    broadcast use vstd::std_specs::hash::group_hash_axioms;

    let n = 8 * len;
    let first = units[position(len, i)] ^ units[position(len, j)];
    let mut k: usize = j + 1;
    while k < n
        invariant
            units.len() == 8 * len,
            n == 8 * len,
            i < j < k <= n,
            first == units@[bit_position(len as nat, i as int)] ^ units@[bit_position(
                len as nat,
                j as int,
            )],
            high_state(units@, len as nat, map@, map3@, blacklist@, i as int, j as int, k as int),
        decreases n - k,
    {
        let value = first ^ units[position(len, k)];
        proof {
            lemma_syndrome_triple(units@, len as nat, i as int, j as int, k as int);
            assert(value == syn3(units@, len as nat, i as int, j as int, k as int));
        }
        if map.contains_key(&value) {
            proof {
                lemma_high_skip(
                    units@,
                    len as nat,
                    map@,
                    map3@,
                    blacklist@,
                    i as int,
                    j as int,
                    k as int,
                );
            }
        } else if map3.contains_key(&value) {
            proof {
                lemma_high_blacklist(
                    units@,
                    len as nat,
                    map@,
                    map3@,
                    blacklist@,
                    i as int,
                    j as int,
                    k as int,
                );
            }
            map3.remove(&value);
            blacklist.insert(value);
        } else if blacklist.contains(&value) {
            proof {
                lemma_high_skip(
                    units@,
                    len as nat,
                    map@,
                    map3@,
                    blacklist@,
                    i as int,
                    j as int,
                    k as int,
                );
            }
        } else {
            let data = triple_pattern(len, i, j, k);
            proof {
                lemma_high_insert(
                    units@,
                    len as nat,
                    map@,
                    map3@,
                    blacklist@,
                    i as int,
                    j as int,
                    k as int,
                    data,
                );
            }
            map3.insert(value, data);
        }
        k = k + 1;
    }
    proof {
        lemma_high_state_same(
            units@,
            len as nat,
            map@,
            map3@,
            blacklist@,
            i as int,
            j as int,
            n as int,
            i as int,
            j + 1,
            j + 2,
        );
    }
}

/// Handles every three-bit pattern whose lowest bit is `i`.
fn add_triples_from(
    units: &[u64],
    len: usize,
    map: &HashMap<u64, Vec<u8>>,
    map3: &mut HashMap<u64, Vec<u8>>,
    blacklist: &mut HashSet<u64>,
    i: usize,
)
    requires
        units.len() == 8 * len,
        i < 8 * len,
        high_state(units@, len as nat, map@, old(map3)@, old(blacklist)@, i as int, i + 1, i + 2),
    ensures
        high_state(
            units@,
            len as nat,
            map@,
            final(map3)@,
            final(blacklist)@,
            i + 1,
            i + 2,
            i + 3,
        ),
{
    let n = 8 * len;
    let mut j: usize = i + 1;
    while j < n
        invariant
            units.len() == 8 * len,
            n == 8 * len,
            i < j <= n,
            high_state(units@, len as nat, map@, map3@, blacklist@, i as int, j as int, j + 1),
        decreases n - j,
    {
        add_triples_with(units, len, map, map3, blacklist, i, j);
        j = j + 1;
    }
    proof {
        lemma_high_state_same(
            units@,
            len as nat,
            map@,
            map3@,
            blacklist@,
            i as int,
            n as int,
            n + 1,
            i + 1,
            i + 2,
            i + 3,
        );
    }
}

/// Builds the three-bit tier beside the finished lower tiers `map`.
pub(crate) fn unique_triples(units: &[u64], len: usize, map: &HashMap<u64, Vec<u8>>) -> (map3: HashMap<
    u64,
    Vec<u8>,
>)
    requires
        units.len() == 8 * len,
    ensures
        high_table(units@, len as nat, map@, map3@),
{
    let n = 8 * len;
    let mut map3: HashMap<u64, Vec<u8>> = HashMap::new();
    let mut blacklist: HashSet<u64> = HashSet::new();
    let mut i: usize = 0;
    while i < n
        invariant
            units.len() == 8 * len,
            n == 8 * len,
            i <= n,
            high_state(units@, len as nat, map@, map3@, blacklist@, i as int, i + 1, i + 2),
        decreases n - i,
    {
        add_triples_from(units, len, map, &mut map3, &mut blacklist, i);
        i = i + 1;
    }
    proof {
        lemma_high_state_same(
            units@,
            len as nat,
            map@,
            map3@,
            blacklist@,
            n as int,
            n + 1,
            n + 2,
            n as int,
            0,
            0,
        );
        lemma_high_state_complete(units@, len as nat, map@, map3@, blacklist@);
    }
    map3
}

/// Every entry of the lower tiers is a pattern of one or two bits under its
/// syndrome.
proof fn lemma_low_entry(units: Seq<u64>, len: nat, t: Map<u64, Vec<u8>>, s: u64)
    requires
        low_table(units, len, t),
        t.contains_key(s),
    ensures
        single_entry(units, len, s, t[s]@) || pair_entry(units, len, s, t[s]@),
{
    let n = (8 * len) as int;
    if early_single(units, len, s, t[s]@, n) {
        let a = choose|a: int|
            bit_ok(len, a) && a < n && #[trigger] syn1(units, len, a) == s && t[s]@ == single(
                len,
                a,
            );
        assert(bit_ok(len, a) && syn1(units, len, a) == s);
    } else {
        let (a, b) = choose|a: int, b: int|
            pair_ok(len, a, b) && pair_before(a, b, n, 0) && #[trigger] syn2(units, len, a, b) == s
                && t[s]@ == pair(len, a, b);
        assert(pair_ok(len, a, b) && syn2(units, len, a, b) == s);
    }
}

/// The lower tiers alone are the whole table of a long frame.
pub(crate) proof fn lemma_low_table_is_table(units: Seq<u64>, len: nat, t: Map<u64, Vec<u8>>)
    requires
        low_table(units, len, t),
        len >= TRIPLE_LIMIT,
    ensures
        correction_table(units, len, t),
{
    assert forall|a: int, b: int, c: int|
        triple_ok(len, a, b, c) && !low_syndrome(
            units,
            len,
            #[trigger] syn3(units, len, a, b, c),
        ) implies !t.contains_key(syn3(units, len, a, b, c)) by {
        lemma_low_table_keys(units, len, t, syn3(units, len, a, b, c));
    }
    assert forall|s: u64| #[trigger] t.contains_key(s) implies single_entry(units, len, s, t[s]@)
        || pair_entry(units, len, s, t[s]@) by {
        lemma_low_entry(units, len, t, s);
    }
}

/// The lower tiers and the three-bit tier together are the table of a short
/// frame.
pub(crate) proof fn lemma_merged_is_table(
    units: Seq<u64>,
    len: nat,
    low: Map<u64, Vec<u8>>,
    m3: Map<u64, Vec<u8>>,
    t: Map<u64, Vec<u8>>,
)
    requires
        low_table(units, len, low),
        high_table(units, len, low, m3),
        len < TRIPLE_LIMIT,
        forall|s: u64| #[trigger] low.contains_key(s) ==> has_entry(t, s, low[s]@),
        forall|s: u64| #[trigger] m3.contains_key(s) ==> has_entry(t, s, m3[s]@),
        forall|s: u64| #[trigger] t.contains_key(s) ==> low.contains_key(s) || m3.contains_key(s),
    ensures
        correction_table(units, len, t),
{
    assert forall|a: int| bit_ok(len, a) implies has_entry(
        t,
        #[trigger] syn1(units, len, a),
        single(len, a),
    ) by {
        assert(has_entry(low, syn1(units, len, a), single(len, a)));
    }
    assert forall|a: int, b: int| pair_ok(len, a, b) implies has_entry(
        t,
        #[trigger] syn2(units, len, a, b),
        pair(len, a, b),
    ) by {
        assert(has_entry(low, syn2(units, len, a, b), pair(len, a, b)));
    }
    assert forall|a: int, b: int, c: int|
        triple_ok(len, a, b, c) && !low_syndrome(
            units,
            len,
            #[trigger] syn3(units, len, a, b, c),
        ) implies if unique_triple(units, len, a, b, c) {
        has_entry(t, syn3(units, len, a, b, c), triple(len, a, b, c))
    } else {
        !t.contains_key(syn3(units, len, a, b, c))
    } by {
        lemma_low_table_keys(units, len, low, syn3(units, len, a, b, c));
    }
    assert forall|s: u64| #[trigger] t.contains_key(s) implies single_entry(units, len, s, t[s]@)
        || pair_entry(units, len, s, t[s]@) || triple_entry(units, len, s, t[s]@) by {
        if low.contains_key(s) {
            lemma_low_entry(units, len, low, s);
        } else {
            assert(m3.contains_key(s));
            let (a, b, c) = choose|a: int, b: int, c: int|
                triple_ok(len, a, b, c) && triple_before(a, b, c, (8 * len) as int, 0, 0)
                    && #[trigger] syn3(units, len, a, b, c) == s && m3[s]@ == triple(len, a, b, c);
            assert(triple_ok(len, a, b, c) && syn3(units, len, a, b, c) == s);
        }
    }
}

/// Copies every entry of `extra` into `map`.
pub(crate) fn merge(map: &mut HashMap<u64, Vec<u8>>, extra: &HashMap<u64, Vec<u8>>)
    requires
        forall|s: u64| extra@.contains_key(s) ==> !old(map)@.contains_key(s),
    ensures
        forall|s: u64| #[trigger]
            old(map)@.contains_key(s) ==> has_entry(final(map)@, s, old(map)@[s]@),
        forall|s: u64| #[trigger] extra@.contains_key(s) ==> has_entry(final(map)@, s, extra@[s]@),
        forall|s: u64| #[trigger]
            final(map)@.contains_key(s) ==> old(map)@.contains_key(s) || extra@.contains_key(s),
{
    broadcast use vstd::std_specs::hash::group_hash_axioms;

    let ghost start = map@;
    for entry in it: extra.iter()
        invariant
            forall|s: u64| extra@.contains_key(s) ==> !start.contains_key(s),
            forall|s: u64| start.contains_key(s) ==> map@.contains_key(s) && map@[s]@ == start[s]@,
            forall|s: u64| map@.contains_key(s) ==> start.contains_key(s) || extra@.contains_key(s),
            forall|s: u64|
                map@.contains_key(s) && extra@.contains_key(s) ==> map@[s]@ == extra@[s]@,
            forall|n: int| 0 <= n < it.index() ==> map@.contains_key(*it.seq()[n].0),
    {
        let (key, pattern) = entry;
        let copy = pattern.clone();
        assert(extra@.contains_key(*key) && extra@[*key] == *pattern);
        assert(copy@ == pattern@);
        map.insert(*key, copy);
    }
}

} // verus!
