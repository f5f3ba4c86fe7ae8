//! From received bits to bytes.
//!
//! The input holds one bit per element, zero or not zero. Nine bits make a
//! symbol: eight data bits, least significant first, and one separator that
//! is dropped.

use vstd::prelude::*;

verus! {

/// The shortest frame: three bytes of payload and two of CRC.
pub const MINIMUM_SIZE: usize = 5;

/// The longest frame: four bytes of header, fifteen of payload and two of
/// CRC.
pub const MAXIMUM_SIZE: usize = 21;

/// The number that the first `k` bits stand for, least significant first.
pub open spec fn bits_value(bits: Seq<u8>, k: int) -> int
    decreases k,
{
    if k <= 0 {
        0
    } else {
        bits_value(bits, k - 1) + if bits[k - 1] > 0 {
            (1u8 << ((k - 1) as u8)) as int
        } else {
            0
        }
    }
}

/// The byte that eight bits stand for; zero for any other number of bits.
pub open spec fn byte_of(bits: Seq<u8>) -> u8 {
    if bits.len() == 8 {
        bits_value(bits, 8) as u8
    } else {
        0
    }
}

/// How many bytes a stream of `n` bits gives: one per full symbol, and no
/// more than the longest frame.
pub open spec fn demodulated_len(n: nat) -> nat {
    if n / 9 < MAXIMUM_SIZE {
        n / 9
    } else {
        MAXIMUM_SIZE as nat
    }
}

/// The bytes that a stream of bits stands for.
pub open spec fn demodulated(bits: Seq<u8>) -> Seq<u8> {
    Seq::new(demodulated_len(bits.len()), |i: int| byte_of(bits.subrange(9 * i, 9 * i + 8)))
}

/// The first `k` bits stand for a number below `2^k`.
pub proof fn lemma_bits_value_bound(bits: Seq<u8>, k: int)
    requires
        0 <= k <= 8,
    ensures
        0 <= bits_value(bits, k) < (1u16 << (k as u16)),
    decreases k,
{
    if k > 0 {
        lemma_bits_value_bound(bits, k - 1);
        let j = (k - 1) as u8;
        assert((1u16 << (j as u16)) + ((1u8 << j) as u16) == (1u16 << ((j + 1) as u16)) && (1u16
            << (j as u16)) < (1u16 << ((j + 1) as u16))) by (bit_vector)
            requires
                j < 8,
        ;
    } else {
        assert(0 < (1u16 << 0u16)) by (bit_vector);
    }
}

/// Converts eight bits, least significant first, into a byte. Any other
/// number of bits gives zero.
pub fn bit_to_bytes(data: &[u8]) -> (byte_value: u8)
    ensures
        byte_value == byte_of(data@),
{
    if data.len() != 8 {
        return 0;
    }
    let mut byte_value: u8 = 0;
    let mut bit: u8 = 0;
    while bit < 8
        invariant
            data.len() == 8,
            bit <= 8,
            byte_value == bits_value(data@, bit as int),
        decreases 8 - bit,
    {
        proof {
            lemma_bits_value_bound(data@, bit as int);
            lemma_bits_value_bound(data@, bit + 1);
            assert((1u16 << ((bit + 1) as u16)) <= 256) by (bit_vector)
                requires
                    bit < 8,
            ;
        }
        if data[bit as usize] > 0 {
            byte_value += 1 << bit;
        }
        bit += 1;
    }
    byte_value
}

/// Repacks a stream of bits into bytes.
pub fn demodulate(data: &[u8]) -> (byte_array: Vec<u8>)
    ensures
        byte_array@ == demodulated(data@),
{
    let mut byte_array: Vec<u8> = Vec::new();
    let mut i: usize = 0;
    while i < MAXIMUM_SIZE
        invariant
            i <= MAXIMUM_SIZE,
            i <= data.len() / 9,
            byte_array.len() == i,
            forall|k: int|
                0 <= k < i ==> byte_array@[k] == byte_of(
                    #[trigger] data@.subrange(9 * k, 9 * k + 8),
                ),
        ensures
            byte_array.len() == demodulated_len(data@.len()),
            forall|k: int|
                0 <= k < byte_array.len() ==> byte_array@[k] == byte_of(
                    #[trigger] data@.subrange(9 * k, 9 * k + 8),
                ),
        decreases MAXIMUM_SIZE - i,
    {
        if (i + 1) * 9 - 1 >= data.len() {
            break ;
        }
        let symbol = &data[i * 9..(i + 1) * 9 - 1];
        byte_array.push(bit_to_bytes(symbol));
        i += 1;
    }
    assert(byte_array@ =~= demodulated(data@));
    byte_array
}

} // verus!
