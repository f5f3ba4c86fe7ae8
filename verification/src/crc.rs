//! The CRC of the telegram protocol: the residue of a buffer, read as a
//! polynomial over GF(2), modulo a fixed generator of degree 16.

use crate::gf2::{bit_len, g2_add, g2_pow_mod, g2_rem, poly_pow_mod};
use crate::syndrome::{syndrome_of, xor_upto};
use vstd::arithmetic::power2::{lemma2_to64, lemma_pow2_pos, lemma_pow2_unfold, pow2};
use vstd::prelude::*;

verus! {

/// The generator polynomial, `x^16 + x^14 + x^13 + x^11 + x^10 + x^9 + x^8 +
/// x^6 + x^5 + x + 1`.
pub const POLY: u64 = 0x16f63;

/// The polynomial `x`, whose powers are the residues of the bit positions.
pub const ALPHA: u64 = 0b10;

/// The residue of bit position `p`: `x^p` modulo the generator.
pub open spec fn unit_residue(p: int) -> u64 {
    poly_pow_mod(ALPHA, p as u64, POLY)
}

/// The residues of the first `n` bit positions.
pub open spec fn unit_residues(n: nat) -> Seq<u64> {
    Seq::new(n, |p: int| unit_residue(p))
}

/// The syndrome of a buffer: the exclusive or of the residues of its set
/// bits. It is zero exactly when the buffer is a valid frame.
pub open spec fn syndrome(data: Seq<u8>) -> u64 {
    syndrome_of(unit_residues(8 * data.len()), data)
}

/// A word has at most `k` significant bits exactly when it is below `2^k`.
pub proof fn lemma_bit_len_bound(x: u64, k: nat)
    ensures
        bit_len(x) <= k <==> x < pow2(k),
    decreases k,
{
    if k == 0 {
        lemma2_to64();
    } else {
        lemma_pow2_unfold(k);
        lemma_pow2_pos((k - 1) as nat);
        if x != 0 {
            lemma_bit_len_bound(x / 2, (k - 1) as nat);
            let half = pow2((k - 1) as nat);
            assert(pow2(k) == 2 * half);
            assert(x / 2 < half <==> x < 2 * half);
        }
    }
}

/// A polynomial of degree below that of the generator fits in 16 bits.
pub proof fn lemma_reduced_is_small(r: u64)
    requires
        bit_len(r) < bit_len(POLY),
    ensures
        r < 0x10000,
{
    lemma2_to64();
    lemma_bit_len_bound(POLY, 17);
    lemma_bit_len_bound(r, 16);
}

/// A polynomial that fits in 16 bits has a degree below that of the
/// generator.
pub proof fn lemma_small_is_reduced(r: u64)
    requires
        r < 0x10000,
    ensures
        bit_len(r) < bit_len(POLY),
{
    lemma2_to64();
    lemma_bit_len_bound(POLY, 16);
    lemma_bit_len_bound(r, 16);
}

/// The residue of bit position `p`.
pub fn unit_syndrome(p: u64) -> (r: u64)
    ensures
        r == unit_residue(p as int),
        r < 0x10000,
{
    let r = g2_pow_mod(ALPHA, p, POLY);
    proof {
        lemma_reduced_is_small(r);
    }
    r
}

/// The residues of the first `n` bit positions, in order.
pub fn unit_syndromes(n: usize) -> (units: Vec<u64>)
    ensures
        units@ == unit_residues(n as nat),
{
    let mut units: Vec<u64> = Vec::new();
    let mut p: usize = 0;
    while p < n
        invariant
            p <= n,
            units@ == unit_residues(p as nat),
        decreases n - p,
    {
        let r = unit_syndrome(p as u64);
        units.push(r);
        p = p + 1;
        assert(units@ =~= unit_residues(p as nat));
    }
    units
}

/// Computes the syndrome of `data` against the generator: for every set bit,
/// the residue of its position is added to the running remainder, which is
/// reduced after each addition.
pub fn crc16_remainder(data: &Vec<u8>) -> (rem: u64)
    requires
        data.len() <= usize::MAX / 8,
    ensures
        rem == syndrome(data@),
        rem < 0x10000,
{
    let n = data.len();
    let ghost units = unit_residues((8 * n) as nat);
    let mut rem: u64 = 0;
    let mut i: usize = 0;
    while i < n
        invariant
            n == data.len(),
            n <= usize::MAX / 8,
            i <= n,
            units == unit_residues((8 * n) as nat),
            rem == xor_upto(units, data@, (8 * i) as nat),
            rem < 0x10000,
        decreases n - i,
    {
        let byte = data[n - i - 1];
        let mut j: u8 = 0;
        while j < 8
            invariant
                n == data.len(),
                n <= usize::MAX / 8,
                i < n,
                j <= 8,
                byte == data@[n - i - 1],
                units == unit_residues((8 * n) as nat),
                rem == xor_upto(units, data@, (8 * i + j) as nat),
                rem < 0x10000,
            decreases 8 - j,
        {
            let ghost p = 8 * i + j;
            assert(p / 8 == i && p % 8 == j);
            if (byte >> (7 - j)) & 0x1 == 1 {
                let power: u64 = (i as u64) * 8 + (j as u64);
                let unit = unit_syndrome(power);
                let sum = g2_add(rem, unit);
                proof {
                    let r0 = rem;
                    assert(r0 ^ unit < 0x10000) by (bit_vector)
                        requires
                            r0 < 0x10000,
                            unit < 0x10000,
                    ;
                    lemma_small_is_reduced(sum);
                }
                rem = g2_rem(sum, POLY);
            }
            j = j + 1;
        }
        i = i + 1;
    }
    rem
}

} // verus!
