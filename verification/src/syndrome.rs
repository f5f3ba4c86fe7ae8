//! The syndrome of a byte buffer as a linear map over GF(2).
//!
//! Every bit of a buffer has a position, counted from the end of the buffer,
//! and every position has a residue. The syndrome of the buffer is the
//! exclusive or of the residues of its set bits. Nothing here depends on which
//! residues are used: they are a parameter, `units`, indexed by position.

use vstd::prelude::*;

verus! {

/// Bit `k` (0 = least significant) of a byte.
pub open spec fn bit_of(b: u8, k: int) -> bool {
    (b >> (k as u8)) & 1 == 1
}

/// Whether the bit at position `p` is set. Position 0 is the most significant
/// bit of the last byte; positions grow towards the front of the buffer, and
/// within a byte from the most to the least significant bit.
pub open spec fn wire_bit(data: Seq<u8>, p: int) -> bool
    recommends
        0 <= p < 8 * data.len(),
{
    bit_of(data[data.len() - 1 - p / 8], 7 - p % 8)
}

/// Exclusive or of the residues of the set bits among the first `k`
/// positions.
pub open spec fn xor_upto(units: Seq<u64>, data: Seq<u8>, k: nat) -> u64
    recommends
        k <= 8 * data.len(),
        k <= units.len(),
    decreases k,
{
    if k == 0 {
        0
    } else {
        let rest = xor_upto(units, data, (k - 1) as nat);
        if wire_bit(data, k - 1) {
            rest ^ units[k - 1]
        } else {
            rest
        }
    }
}

/// The syndrome of `data` under the residues `units`.
pub open spec fn syndrome_of(units: Seq<u64>, data: Seq<u8>) -> u64
    recommends
        8 * data.len() <= units.len(),
{
    xor_upto(units, data, 8 * data.len())
}

/// Bytewise exclusive or of two buffers of one length.
pub open spec fn xor_bytes(a: Seq<u8>, b: Seq<u8>) -> Seq<u8>
    recommends
        a.len() == b.len(),
{
    Seq::new(a.len(), |i: int| a[i] ^ b[i])
}

/// The all-zero buffer of length `len`.
pub open spec fn zeros(len: nat) -> Seq<u8> {
    Seq::new(len, |i: int| 0u8)
}

/// A bit of an exclusive or is set exactly when the bit is set in one of the
/// two operands.
pub proof fn lemma_wire_bit_xor(a: Seq<u8>, b: Seq<u8>, p: int)
    requires
        a.len() == b.len(),
        0 <= p < 8 * a.len(),
    ensures
        wire_bit(xor_bytes(a, b), p) == (wire_bit(a, p) != wire_bit(b, p)),
{
    let idx = a.len() - 1 - p / 8;
    let x = a[idx];
    let y = b[idx];
    let k = (7 - p % 8) as u8;
    assert(xor_bytes(a, b)[idx] == x ^ y);
    assert((((x ^ y) >> k) & 1 == 1) == ((((x >> k) & 1) == 1) != (((y >> k) & 1) == 1)))
        by (bit_vector);
}

/// The syndrome is additive up to every position.
pub proof fn lemma_xor_upto_linear(units: Seq<u64>, a: Seq<u8>, b: Seq<u8>, k: nat)
    requires
        a.len() == b.len(),
        k <= 8 * a.len(),
    ensures
        xor_upto(units, xor_bytes(a, b), k) == xor_upto(units, a, k) ^ xor_upto(units, b, k),
    decreases k,
{
    if k == 0 {
        assert(0u64 ^ 0u64 == 0u64) by (bit_vector);
    } else {
        lemma_xor_upto_linear(units, a, b, (k - 1) as nat);
        lemma_wire_bit_xor(a, b, k - 1);
        let ra = xor_upto(units, a, (k - 1) as nat);
        let rb = xor_upto(units, b, (k - 1) as nat);
        let u = units[k - 1];
        assert((ra ^ u) ^ (rb ^ u) == ra ^ rb) by (bit_vector);
        assert((ra ^ u) ^ rb == (ra ^ rb) ^ u) by (bit_vector);
        assert(ra ^ (rb ^ u) == (ra ^ rb) ^ u) by (bit_vector);
    }
}

/// Linearity: the syndrome of an exclusive or is the exclusive or of the
/// syndromes.
pub proof fn lemma_syndrome_linear(units: Seq<u64>, a: Seq<u8>, b: Seq<u8>)
    requires
        a.len() == b.len(),
    ensures
        syndrome_of(units, xor_bytes(a, b)) == syndrome_of(units, a) ^ syndrome_of(units, b),
{
    lemma_xor_upto_linear(units, a, b, 8 * a.len());
}

} // verus!
