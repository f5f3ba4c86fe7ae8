//! Error patterns: buffers with one, two or three bits set, the bits that a
//! repair flips back.
//!
//! A pattern bit has an index `i`: bit `i % 8` (0 = least significant) of byte
//! `i / 8`. This is the numbering in which patterns are enumerated; the
//! position of the same bit in the syndrome is `bit_position`.

use crate::syndrome::{
    bit_of, lemma_syndrome_linear, syndrome_of, wire_bit, xor_bytes, xor_upto, zeros,
};
use vstd::prelude::*;

verus! {

/// The buffer of length `len` in which only the bit with index `i` is set.
pub open spec fn single(len: nat, i: int) -> Seq<u8>
    recommends
        0 <= i < 8 * len,
{
    Seq::new(len, |b: int| if b == i / 8 { 1u8 << ((i % 8) as u8) } else { 0u8 })
}

/// The buffer in which the bits with indices `i` and `j` are set.
pub open spec fn pair(len: nat, i: int, j: int) -> Seq<u8>
    recommends
        0 <= i < 8 * len,
        0 <= j < 8 * len,
{
    xor_bytes(single(len, i), single(len, j))
}

/// The buffer in which the bits with indices `i`, `j` and `k` are set.
pub open spec fn triple(len: nat, i: int, j: int, k: int) -> Seq<u8>
    recommends
        0 <= i < 8 * len,
        0 <= j < 8 * len,
        0 <= k < 8 * len,
{
    xor_bytes(pair(len, i, j), single(len, k))
}

/// The syndrome position of the pattern bit with index `i`.
pub open spec fn bit_position(len: nat, i: int) -> int
    recommends
        0 <= i < 8 * len,
{
    8 * (len - 1 - i / 8) + (7 - i % 8)
}

/// Whether the pattern bit with index `i` is set in `e`.
pub open spec fn pattern_bit(e: Seq<u8>, i: int) -> bool
    recommends
        0 <= i < 8 * e.len(),
{
    bit_of(e[i / 8], i % 8)
}

/// Number of set bits of a byte.
pub open spec fn popcount(b: u8) -> nat {
    ((b & 1) + ((b >> 1) & 1) + ((b >> 2) & 1) + ((b >> 3) & 1) + ((b >> 4) & 1) + ((b >> 5) & 1)
        + ((b >> 6) & 1) + ((b >> 7) & 1)) as nat
}

/// Number of set bits of a buffer.
pub open spec fn weight(e: Seq<u8>) -> nat
    decreases e.len(),
{
    if e.len() == 0 {
        0
    } else {
        weight(e.drop_last()) + popcount(e.last())
    }
}

/// `u8::count_ones` returns the number of ones in the binary representation
/// of the byte.
pub assume_specification[ u8::count_ones ](b: u8) -> (r: u32)
    ensures
        r == popcount(b),
;

/// The position of a bit lies in the buffer: its byte is counted from the
/// end, and its place in the byte from the most significant bit.
pub proof fn lemma_bit_position_range(len: nat, i: int)
    requires
        0 <= i < 8 * len,
    ensures
        0 <= bit_position(len, i) < 8 * len,
        bit_position(len, i) / 8 == len - 1 - i / 8,
        bit_position(len, i) % 8 == 7 - i % 8,
{
}

/// In a one-bit pattern exactly the position of its bit is set.
pub proof fn lemma_wire_bit_single(len: nat, i: int, p: int)
    requires
        0 <= i < 8 * len,
        0 <= p < 8 * len,
    ensures
        wire_bit(single(len, i), p) <==> p == bit_position(len, i),
{
    lemma_bit_position_range(len, i);
    let idx = len - 1 - p / 8;
    let a = (i % 8) as u8;
    let k = (7 - p % 8) as u8;
    if idx == i / 8 {
        assert(single(len, i)[idx] == 1u8 << a);
        assert((((1u8 << a) >> k) & 1 == 1) <==> a == k) by (bit_vector)
            requires
                a < 8,
                k < 8,
        ;
    } else {
        assert(single(len, i)[idx] == 0u8);
        assert((0u8 >> k) & 1 != 1) by (bit_vector);
    }
}

/// Up to any position, a one-bit pattern contributes the residue of its bit
/// once that bit has been passed.
pub proof fn lemma_xor_upto_single(units: Seq<u64>, len: nat, i: int, k: nat)
    requires
        0 <= i < 8 * len,
        k <= 8 * len,
    ensures
        xor_upto(units, single(len, i), k) == if k > bit_position(len, i) {
            units[bit_position(len, i)]
        } else {
            0
        },
    decreases k,
{
    if k > 0 {
        lemma_xor_upto_single(units, len, i, (k - 1) as nat);
        lemma_wire_bit_single(len, i, k - 1);
        let u = units[k - 1];
        assert(0u64 ^ u == u) by (bit_vector);
    }
}

/// The syndrome of a one-bit pattern is the residue of its bit's position.
pub proof fn lemma_syndrome_single(units: Seq<u64>, len: nat, i: int)
    requires
        0 <= i < 8 * len,
    ensures
        syndrome_of(units, single(len, i)) == units[bit_position(len, i)],
{
    lemma_bit_position_range(len, i);
    lemma_xor_upto_single(units, len, i, 8 * len);
}

/// The syndrome of a two-bit pattern is the sum of the residues of its bits.
pub proof fn lemma_syndrome_pair(units: Seq<u64>, len: nat, i: int, j: int)
    requires
        0 <= i < 8 * len,
        0 <= j < 8 * len,
    ensures
        syndrome_of(units, pair(len, i, j)) == units[bit_position(len, i)]
            ^ units[bit_position(len, j)],
{
    lemma_syndrome_single(units, len, i);
    lemma_syndrome_single(units, len, j);
    lemma_syndrome_linear(units, single(len, i), single(len, j));
}

/// The syndrome of a three-bit pattern is the sum of the residues of its
/// bits.
pub proof fn lemma_syndrome_triple(units: Seq<u64>, len: nat, i: int, j: int, k: int)
    requires
        0 <= i < 8 * len,
        0 <= j < 8 * len,
        0 <= k < 8 * len,
    ensures
        syndrome_of(units, triple(len, i, j, k)) == units[bit_position(len, i)]
            ^ units[bit_position(len, j)] ^ units[bit_position(len, k)],
{
    lemma_syndrome_pair(units, len, i, j);
    lemma_syndrome_single(units, len, k);
    lemma_syndrome_linear(units, pair(len, i, j), single(len, k));
}

/// Adding a one-bit pattern changes one byte.
pub proof fn lemma_xor_single_is_update(e: Seq<u8>, i: int)
    requires
        0 <= i < 8 * e.len(),
    ensures
        xor_bytes(e, single(e.len(), i)) == e.update(i / 8, e[i / 8] ^ (1u8 << ((i % 8) as u8))),
{
    let flipped = xor_bytes(e, single(e.len(), i));
    let updated = e.update(i / 8, e[i / 8] ^ (1u8 << ((i % 8) as u8)));
    assert forall|b: int| 0 <= b < e.len() implies flipped[b] == updated[b] by {
        let x = e[b];
        if b != i / 8 {
            assert(x ^ 0u8 == x) by (bit_vector);
        }
    }
    assert(flipped =~= updated);
}

/// Adding a one-bit pattern toggles its bit and leaves every other bit alone.
pub proof fn lemma_pattern_bit_flip(e: Seq<u8>, i: int, k: int)
    requires
        0 <= i < 8 * e.len(),
        0 <= k < 8 * e.len(),
    ensures
        pattern_bit(xor_bytes(e, single(e.len(), i)), k) == (pattern_bit(e, k) != (k == i)),
{
    lemma_xor_single_is_update(e, i);
    if k / 8 == i / 8 {
        let x = e[i / 8];
        let a = (i % 8) as u8;
        let c = (k % 8) as u8;
        assert((((x ^ (1u8 << a)) >> c) & 1 == 1) == (((x >> c) & 1 == 1) != (c == a)))
            by (bit_vector)
            requires
                a < 8,
                c < 8,
        ;
    }
}

/// No pattern bit of the zero buffer is set.
pub proof fn lemma_pattern_bit_zeros(len: nat, k: int)
    requires
        0 <= k < 8 * len,
    ensures
        !pattern_bit(zeros(len), k),
{
    let c = (k % 8) as u8;
    assert((0u8 >> c) & 1 != 1) by (bit_vector);
}

/// A one-bit pattern is the zero buffer with that bit flipped.
pub proof fn lemma_single_from_zeros(len: nat, i: int)
    requires
        0 <= i < 8 * len,
    ensures
        xor_bytes(zeros(len), single(len, i)) == single(len, i),
{
    let a = (i % 8) as u8;
    assert(0u8 ^ (1u8 << a) == 1u8 << a) by (bit_vector);
    assert(0u8 ^ 0u8 == 0u8) by (bit_vector);
    assert(xor_bytes(zeros(len), single(len, i)) =~= single(len, i));
}

/// The zero buffer has weight zero.
pub proof fn lemma_weight_zeros(len: nat)
    ensures
        weight(zeros(len)) == 0,
    decreases len,
{
    if len > 0 {
        lemma_weight_zeros((len - 1) as nat);
        assert(zeros(len).drop_last() =~= zeros((len - 1) as nat));
        assert(popcount(0u8) == 0) by (bit_vector);
    }
}

/// Replacing one byte changes the weight by the difference of the two bytes'
/// bit counts.
pub proof fn lemma_weight_update(e: Seq<u8>, b: int, v: u8)
    requires
        0 <= b < e.len(),
    ensures
        weight(e.update(b, v)) == weight(e) - popcount(e[b]) + popcount(v),
    decreases e.len(),
{
    if b == e.len() - 1 {
        assert(e.update(b, v).drop_last() =~= e.drop_last());
    } else {
        lemma_weight_update(e.drop_last(), b, v);
        assert(e.update(b, v).drop_last() =~= e.drop_last().update(b, v));
    }
}

/// Setting a clear bit raises the weight by one.
pub proof fn lemma_weight_flip(e: Seq<u8>, i: int)
    requires
        0 <= i < 8 * e.len(),
        !pattern_bit(e, i),
    ensures
        weight(xor_bytes(e, single(e.len(), i))) == weight(e) + 1,
{
    lemma_xor_single_is_update(e, i);
    let x = e[i / 8];
    let a = (i % 8) as u8;
    lemma_weight_update(e, i / 8, x ^ (1u8 << a));
    assert(popcount(x ^ (1u8 << a)) == popcount(x) + 1) by (bit_vector)
        requires
            a < 8,
            (x >> a) & 1 != 1,
    ;
}

/// A one-bit pattern has weight one.
pub proof fn lemma_weight_single(len: nat, i: int)
    requires
        0 <= i < 8 * len,
    ensures
        weight(single(len, i)) == 1,
{
    lemma_weight_zeros(len);
    lemma_pattern_bit_zeros(len, i);
    lemma_weight_flip(zeros(len), i);
    lemma_single_from_zeros(len, i);
}

/// A two-bit pattern has weight two.
pub proof fn lemma_weight_pair(len: nat, i: int, j: int)
    requires
        0 <= i < 8 * len,
        0 <= j < 8 * len,
        i != j,
    ensures
        weight(pair(len, i, j)) == 2,
{
    lemma_weight_single(len, i);
    lemma_pattern_bit_zeros(len, j);
    lemma_pattern_bit_flip(zeros(len), i, j);
    lemma_single_from_zeros(len, i);
    lemma_weight_flip(single(len, i), j);
}

/// A three-bit pattern has weight three.
pub proof fn lemma_weight_triple(len: nat, i: int, j: int, k: int)
    requires
        0 <= i < 8 * len,
        0 <= j < 8 * len,
        0 <= k < 8 * len,
        i != j,
        i != k,
        j != k,
    ensures
        weight(triple(len, i, j, k)) == 3,
{
    lemma_weight_pair(len, i, j);
    lemma_pattern_bit_zeros(len, k);
    lemma_pattern_bit_flip(zeros(len), i, k);
    lemma_single_from_zeros(len, i);
    lemma_pattern_bit_flip(single(len, i), j, k);
    lemma_weight_flip(pair(len, i, j), k);
}

/// In a one-bit pattern exactly its own bit is set.
pub proof fn lemma_pattern_bit_single(len: nat, a: int, k: int)
    requires
        0 <= a < 8 * len,
        0 <= k < 8 * len,
    ensures
        pattern_bit(single(len, a), k) <==> k == a,
{
    lemma_pattern_bit_zeros(len, k);
    lemma_pattern_bit_flip(zeros(len), a, k);
    lemma_single_from_zeros(len, a);
}

/// In a two-bit pattern exactly its two bits are set.
pub proof fn lemma_pattern_bit_pair(len: nat, a: int, b: int, k: int)
    requires
        0 <= a < 8 * len,
        0 <= b < 8 * len,
        0 <= k < 8 * len,
        a != b,
    ensures
        pattern_bit(pair(len, a, b), k) <==> k == a || k == b,
{
    lemma_pattern_bit_single(len, a, k);
    lemma_pattern_bit_flip(single(len, a), b, k);
}

/// In a three-bit pattern exactly its three bits are set.
pub proof fn lemma_pattern_bit_triple(len: nat, a: int, b: int, c: int, k: int)
    requires
        0 <= a < 8 * len,
        0 <= b < 8 * len,
        0 <= c < 8 * len,
        0 <= k < 8 * len,
        a != b,
        a != c,
        b != c,
    ensures
        pattern_bit(triple(len, a, b, c), k) <==> k == a || k == b || k == c,
{
    lemma_pattern_bit_pair(len, a, b, k);
    lemma_pattern_bit_flip(pair(len, a, b), c, k);
}

/// Two one-bit patterns are equal only if they set the same bit.
pub proof fn lemma_single_injective(len: nat, a: int, b: int)
    requires
        0 <= a < 8 * len,
        0 <= b < 8 * len,
        single(len, a) == single(len, b),
    ensures
        a == b,
{
    lemma_pattern_bit_single(len, a, a);
    lemma_pattern_bit_single(len, b, a);
}

/// A one-bit pattern is never a two-bit pattern.
pub proof fn lemma_single_is_no_pair(len: nat, a: int, b: int, c: int)
    requires
        0 <= a < 8 * len,
        0 <= b < c < 8 * len,
    ensures
        single(len, a) != pair(len, b, c),
{
    lemma_pattern_bit_single(len, a, b);
    lemma_pattern_bit_single(len, a, c);
    lemma_pattern_bit_pair(len, b, c, b);
    lemma_pattern_bit_pair(len, b, c, c);
}

/// Two two-bit patterns are equal only if they set the same bits.
pub proof fn lemma_pair_injective(len: nat, a: int, b: int, c: int, d: int)
    requires
        0 <= a < b < 8 * len,
        0 <= c < d < 8 * len,
        pair(len, a, b) == pair(len, c, d),
    ensures
        a == c,
        b == d,
{
    lemma_pattern_bit_pair(len, a, b, a);
    lemma_pattern_bit_pair(len, a, b, b);
    lemma_pattern_bit_pair(len, c, d, a);
    lemma_pattern_bit_pair(len, c, d, b);
}

/// Two three-bit patterns are equal only if they set the same bits.
pub proof fn lemma_triple_injective(len: nat, a: int, b: int, c: int, d: int, e: int, f: int)
    requires
        0 <= a < b < c < 8 * len,
        0 <= d < e < f < 8 * len,
        triple(len, a, b, c) == triple(len, d, e, f),
    ensures
        a == d,
        b == e,
        c == f,
{
    lemma_pattern_bit_triple(len, a, b, c, a);
    lemma_pattern_bit_triple(len, a, b, c, b);
    lemma_pattern_bit_triple(len, a, b, c, c);
    lemma_pattern_bit_triple(len, d, e, f, a);
    lemma_pattern_bit_triple(len, d, e, f, b);
    lemma_pattern_bit_triple(len, d, e, f, c);
}

/// Flips the bit with index `i`.
pub fn flip_bit(data: &mut Vec<u8>, i: usize)
    requires
        i < 8 * old(data).len(),
    ensures
        final(data)@ == xor_bytes(old(data)@, single(old(data)@.len(), i as int)),
{
    let idx = i / 8;
    let pos = (i % 8) as u8;
    proof {
        lemma_xor_single_is_update(data@, i as int);
    }
    let flipped = data[idx] ^ (1u8 << pos);
    data.set(idx, flipped);
}

/// The zero buffer of length `len`.
pub fn zero_buffer(len: usize) -> (data: Vec<u8>)
    ensures
        data@ == zeros(len as nat),
{
    let data = vec![0u8;len];
    assert(data@ =~= zeros(len as nat));
    data
}

/// The one-bit pattern of length `len` with bit `i` set.
pub fn single_pattern(len: usize, i: usize) -> (data: Vec<u8>)
    requires
        i < 8 * len,
    ensures
        data@ == single(len as nat, i as int),
{
    let mut data = zero_buffer(len);
    flip_bit(&mut data, i);
    proof {
        lemma_single_from_zeros(len as nat, i as int);
    }
    data
}

/// The two-bit pattern of length `len` with bits `i` and `j` set.
pub fn pair_pattern(len: usize, i: usize, j: usize) -> (data: Vec<u8>)
    requires
        i < 8 * len,
        j < 8 * len,
    ensures
        data@ == pair(len as nat, i as int, j as int),
{
    let mut data = single_pattern(len, i);
    flip_bit(&mut data, j);
    data
}

/// The three-bit pattern of length `len` with bits `i`, `j` and `k` set.
pub fn triple_pattern(len: usize, i: usize, j: usize, k: usize) -> (data: Vec<u8>)
    requires
        i < 8 * len,
        j < 8 * len,
        k < 8 * len,
    ensures
        data@ == triple(len as nat, i as int, j as int, k as int),
{
    let mut data = pair_pattern(len, i, j);
    flip_bit(&mut data, k);
    data
}

/// The syndrome position of the pattern bit with index `i`.
pub fn position(len: usize, i: usize) -> (p: usize)
    requires
        i < 8 * len <= usize::MAX,
    ensures
        p == bit_position(len as nat, i as int),
        p < 8 * len,
{
    8 * (len - 1 - i / 8) + (7 - i % 8)
}

/// Number of set bits of a buffer.
pub fn count_bits(e: &Vec<u8>) -> (n: u32)
    requires
        8 * e.len() <= u32::MAX,
    ensures
        n == weight(e@),
{
    let mut n: u32 = 0;
    let mut b: usize = 0;
    while b < e.len()
        invariant
            b <= e.len(),
            8 * e.len() <= u32::MAX,
            n == weight(e@.take(b as int)),
            n <= 8 * b,
        decreases e.len() - b,
    {
        let byte = e[b];
        let ones = byte.count_ones();
        proof {
            assert(popcount(byte) <= 8) by (bit_vector);
            assert(e@.take(b + 1).drop_last() =~= e@.take(b as int));
        }
        n = n + ones;
        b = b + 1;
    }
    assert(e@.take(e.len() as int) =~= e@);
    n
}

} // verus!
