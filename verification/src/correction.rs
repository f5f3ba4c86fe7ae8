//! What the correction tables guarantee of the repair of a frame.
//!
//! A frame is valid when its syndrome, taken after its CRC is inverted back,
//! is zero. The statements here say what the framer makes of a valid frame in
//! which one, two or three bits were flipped on the way.

use crate::crc::{syndrome, unit_residues};
use crate::decoder::{crc_table, frame_length, frame_telegram, Decoder};
use crate::dispatch::{dispatch, lemma_mode_nine_ignores_repairs, mode_of};
use crate::framer::{candidate, uninvert, Candidate};
use crate::pattern::{
    lemma_syndrome_pair, lemma_syndrome_single, lemma_syndrome_triple, lemma_weight_pair,
    lemma_weight_single, lemma_weight_triple, pair, single, triple, weight,
};
use crate::syndrome::{lemma_syndrome_linear, xor_bytes};
use crate::table::{
    bit_ok, correction_table, has_entry, lemma_entry_properties, lemma_table_distinct,
    low_syndrome, pair_ok, syn1, syn2, syn3, triple_ok, unique_triple, TRIPLE_LIMIT,
};
use vstd::prelude::*;

verus! {

/// The frame is valid: with its CRC inverted back, its syndrome is zero.
pub open spec fn valid_frame(wire: Seq<u8>) -> bool {
    wire.len() >= 2 && syndrome(uninvert(wire)) == 0
}

/// The candidate that carries the payload of `wire` with `bits` bits
/// repaired.
pub open spec fn restored(wire: Seq<u8>, bits: nat) -> Option<Candidate> {
    Some(Candidate { data: wire.take(wire.len() - 2), repaired: bits })
}

/// Inverting the CRC back and adding an error pattern commute.
proof fn lemma_uninvert_xor(wire: Seq<u8>, e: Seq<u8>)
    requires
        wire.len() == e.len(),
        wire.len() >= 2,
    ensures
        uninvert(xor_bytes(wire, e)) == xor_bytes(uninvert(wire), e),
{
    let left = uninvert(xor_bytes(wire, e));
    let right = xor_bytes(uninvert(wire), e);
    assert forall|k: int| 0 <= k < wire.len() implies left[k] == right[k] by {
        let a = wire[k];
        let b = e[k];
        assert((a ^ b) ^ 0xffu8 == (a ^ 0xffu8) ^ b) by (bit_vector);
    }
    assert(left =~= right);
}

/// Adding a pattern twice gives the frame back.
proof fn lemma_xor_twice(frame: Seq<u8>, e: Seq<u8>)
    requires
        frame.len() == e.len(),
    ensures
        xor_bytes(xor_bytes(frame, e), e) == frame,
{
    let twice = xor_bytes(xor_bytes(frame, e), e);
    assert forall|k: int| 0 <= k < frame.len() implies twice[k] == frame[k] by {
        let a = frame[k];
        let b = e[k];
        assert((a ^ b) ^ b == a) by (bit_vector);
    }
    assert(twice =~= frame);
}

/// In a correction table no pattern of one, two or three bits has the
/// syndrome zero.
proof fn lemma_syndromes_nonzero(units: Seq<u64>, len: nat, t: Map<u64, Vec<u8>>)
    requires
        correction_table(units, len, t),
        len >= 1,
    ensures
        forall|a: int| bit_ok(len, a) ==> #[trigger] syn1(units, len, a) != 0,
        forall|a: int, b: int| pair_ok(len, a, b) ==> #[trigger] syn2(units, len, a, b) != 0,
        forall|a: int, b: int, c: int|
            triple_ok(len, a, b, c) ==> #[trigger] syn3(units, len, a, b, c) != 0,
{
    lemma_table_distinct(units, len, t);
    assert forall|a: int| bit_ok(len, a) implies #[trigger] syn1(units, len, a) != 0 by {
        let b = if a == 0 {
            1int
        } else {
            0int
        };
        let lo = if a < b {
            a
        } else {
            b
        };
        let hi = if a < b {
            b
        } else {
            a
        };
        lemma_syndrome_single(units, len, a);
        lemma_syndrome_single(units, len, b);
        lemma_syndrome_pair(units, len, lo, hi);
        let x = syn1(units, len, a);
        let y = syn1(units, len, b);
        assert(pair_ok(len, lo, hi) && bit_ok(len, b));
        assert(syn1(units, len, b) != syn2(units, len, lo, hi));
        assert(x == 0 ==> (x ^ y == y && y ^ x == y)) by (bit_vector);
    }
    assert forall|a: int, b: int| pair_ok(len, a, b) implies #[trigger] syn2(units, len, a, b)
        != 0 by {
        lemma_syndrome_single(units, len, a);
        lemma_syndrome_single(units, len, b);
        lemma_syndrome_pair(units, len, a, b);
        let x = syn1(units, len, a);
        let y = syn1(units, len, b);
        assert(bit_ok(len, a) && bit_ok(len, b));
        assert(x ^ y == 0 ==> x == y) by (bit_vector);
    }
    assert forall|a: int, b: int, c: int| triple_ok(len, a, b, c) implies #[trigger] syn3(
        units,
        len,
        a,
        b,
        c,
    ) != 0 by {
        lemma_syndrome_single(units, len, c);
        lemma_syndrome_pair(units, len, a, b);
        lemma_syndrome_triple(units, len, a, b, c);
        let x = syn2(units, len, a, b);
        let y = syn1(units, len, c);
        assert(pair_ok(len, a, b) && bit_ok(len, c));
        assert(x ^ y == 0 ==> x == y) by (bit_vector);
    }
}

/// The syndrome of a valid frame with an error pattern added is the syndrome
/// of the pattern.
proof fn lemma_error_syndrome(wire: Seq<u8>, e: Seq<u8>)
    requires
        valid_frame(wire),
        e.len() == wire.len(),
    ensures
        syndrome(uninvert(xor_bytes(wire, e))) == syndrome(e),
{
    lemma_uninvert_xor(wire, e);
    lemma_syndrome_linear(unit_residues(8 * wire.len()), uninvert(wire), e);
    let s = syndrome(e);
    assert(0u64 ^ s == s) by (bit_vector);
}

/// A valid frame passes as it is, whatever the table holds: decoding it
/// gives the same candidate with error correction enabled and disabled.
pub proof fn lemma_valid_frame_needs_no_table(
    t1: Map<u64, Vec<u8>>,
    t2: Map<u64, Vec<u8>>,
    wire: Seq<u8>,
)
    requires
        valid_frame(wire),
    ensures
        candidate(t1, wire) == restored(wire, 0),
        candidate(t2, wire) == candidate(t1, wire),
{
    assert(uninvert(wire).take(wire.len() - 2) =~= wire.take(wire.len() - 2));
}

/// A repaired frame is valid: once the pattern that the table holds for the
/// syndrome of a frame is taken off the frame, the syndrome is zero.
pub proof fn lemma_repaired_frame_is_valid(len: nat, t: Map<u64, Vec<u8>>, frame: Seq<u8>)
    requires
        crc_table(len, t),
        frame.len() == len,
        t.contains_key(syndrome(frame)),
    ensures
        t[syndrome(frame)]@.len() == len,
        syndrome(xor_bytes(frame, t[syndrome(frame)]@)) == 0,
{
    let units = unit_residues(8 * len);
    let s = syndrome(frame);
    lemma_entry_properties(units, len, t, s);
    lemma_syndrome_linear(units, frame, t[s]@);
    assert(s ^ s == 0) by (bit_vector);
}

/// In every decoder a repaired frame is valid: by the time a candidate
/// reaches the dispatcher, the syndrome of its frame is zero.
pub proof fn lemma_decoder_repairs_to_valid_frames(d: Decoder, len: int, frame: Seq<u8>)
    requires
        d.wf(),
        frame_length(len),
        frame.len() == len,
        d.table(len).contains_key(syndrome(frame)),
    ensures
        d.table(len)[syndrome(frame)]@.len() == len,
        syndrome(xor_bytes(frame, d.table(len)[syndrome(frame)]@)) == 0,
{
    lemma_repaired_frame_is_valid(len as nat, d.table(len), frame);
}

/// A candidate is two bytes shorter than its frame.
pub proof fn lemma_candidate_length(len: nat, t: Map<u64, Vec<u8>>, wire: Seq<u8>)
    requires
        crc_table(len, t),
        wire.len() == len,
        len >= 2,
    ensures
        candidate(t, wire) matches Some(c) ==> c.data.len() == len - 2,
{
    let frame = uninvert(wire);
    let s = syndrome(frame);
    if s != 0 && t.contains_key(s) {
        lemma_entry_properties(unit_residues(8 * len), len, t, s);
    }
}

/// What the framer makes of a valid frame with the pattern `e` added, when
/// the table holds `e` under its syndrome: the payload of the frame, with as
/// many bits repaired as `e` has.
proof fn lemma_error_repaired(len: nat, t: Map<u64, Vec<u8>>, wire: Seq<u8>, e: Seq<u8>)
    requires
        valid_frame(wire),
        wire.len() == len,
        e.len() == len,
        syndrome(e) != 0,
        has_entry(t, syndrome(e), e),
    ensures
        candidate(t, xor_bytes(wire, e)) == restored(wire, weight(e)),
{
    lemma_error_syndrome(wire, e);
    lemma_uninvert_xor(wire, e);
    lemma_xor_twice(uninvert(wire), e);
    assert(uninvert(wire).take(len - 2) =~= wire.take(len - 2));
}

/// One flipped bit is repaired: the framer recovers the payload of the valid
/// frame, at every frame length that has a table.
pub proof fn lemma_one_bit_repaired(len: nat, t: Map<u64, Vec<u8>>, wire: Seq<u8>, a: int)
    requires
        crc_table(len, t),
        valid_frame(wire),
        wire.len() == len,
        bit_ok(len, a),
    ensures
        candidate(t, xor_bytes(wire, single(len, a))) == restored(wire, 1),
{
    let units = unit_residues(8 * len);
    lemma_syndromes_nonzero(units, len, t);
    lemma_weight_single(len, a);
    assert(has_entry(t, syn1(units, len, a), single(len, a)));
    lemma_error_repaired(len, t, wire, single(len, a));
}

/// Two flipped bits are repaired: the framer recovers the payload of the
/// valid frame, at every frame length that has a table.
pub proof fn lemma_two_bits_repaired(len: nat, t: Map<u64, Vec<u8>>, wire: Seq<u8>, a: int, b: int)
    requires
        crc_table(len, t),
        valid_frame(wire),
        wire.len() == len,
        pair_ok(len, a, b),
    ensures
        candidate(t, xor_bytes(wire, pair(len, a, b))) == restored(wire, 2),
{
    let units = unit_residues(8 * len);
    lemma_syndromes_nonzero(units, len, t);
    lemma_weight_pair(len, a, b);
    assert(has_entry(t, syn2(units, len, a, b), pair(len, a, b)));
    lemma_error_repaired(len, t, wire, pair(len, a, b));
}

/// Three flipped bits whose syndrome is that of no lighter pattern are
/// repaired if the frame is short and no other three-bit pattern has their
/// syndrome; otherwise the frame gives no candidate. It never gives a wrong
/// payload.
pub proof fn lemma_three_bits_repaired_or_dropped(
    len: nat,
    t: Map<u64, Vec<u8>>,
    wire: Seq<u8>,
    a: int,
    b: int,
    c: int,
)
    requires
        crc_table(len, t),
        valid_frame(wire),
        wire.len() == len,
        triple_ok(len, a, b, c),
        !low_syndrome(unit_residues(8 * len), len, syn3(unit_residues(8 * len), len, a, b, c)),
    ensures
        candidate(t, xor_bytes(wire, triple(len, a, b, c))) == if len < TRIPLE_LIMIT
            && unique_triple(unit_residues(8 * len), len, a, b, c) {
            restored(wire, 3)
        } else {
            None
        },
{
    let units = unit_residues(8 * len);
    let e = triple(len, a, b, c);
    lemma_syndromes_nonzero(units, len, t);
    lemma_weight_triple(len, a, b, c);
    assert(syn3(units, len, a, b, c) == syndrome(e));
    if len < TRIPLE_LIMIT && unique_triple(units, len, a, b, c) {
        assert(has_entry(t, syn3(units, len, a, b, c), e));
        lemma_error_repaired(len, t, wire, e);
    } else {
        assert(!t.contains_key(syn3(units, len, a, b, c)));
        lemma_error_syndrome(wire, e);
    }
}

/// Three flipped bits whose syndrome is that of a lighter pattern are taken
/// for that pattern: the framer flips the bits of the lighter pattern and
/// reports its weight.
pub proof fn lemma_three_bits_mistaken(
    len: nat,
    t: Map<u64, Vec<u8>>,
    wire: Seq<u8>,
    a: int,
    b: int,
    c: int,
)
    requires
        crc_table(len, t),
        valid_frame(wire),
        wire.len() == len,
        triple_ok(len, a, b, c),
        low_syndrome(unit_residues(8 * len), len, syn3(unit_residues(8 * len), len, a, b, c)),
    ensures
        t.contains_key(syndrome(triple(len, a, b, c))),
        candidate(t, xor_bytes(wire, triple(len, a, b, c))) == Some(
            Candidate {
                data: xor_bytes(
                    xor_bytes(uninvert(wire), triple(len, a, b, c)),
                    t[syndrome(triple(len, a, b, c))]@,
                ).take(len - 2),
                repaired: weight(t[syndrome(triple(len, a, b, c))]@),
            },
        ),
        weight(t[syndrome(triple(len, a, b, c))]@) <= 2,
{
    let units = unit_residues(8 * len);
    let e = triple(len, a, b, c);
    let s = syn3(units, len, a, b, c);
    lemma_syndromes_nonzero(units, len, t);
    lemma_error_syndrome(wire, e);
    lemma_uninvert_xor(wire, e);
    if exists|d: int| bit_ok(len, d) && #[trigger] syn1(units, len, d) == s {
        let d = choose|d: int| bit_ok(len, d) && #[trigger] syn1(units, len, d) == s;
        assert(has_entry(t, syn1(units, len, d), single(len, d)));
        lemma_weight_single(len, d);
    } else {
        let (d, f) = choose|d: int, f: int|
            pair_ok(len, d, f) && #[trigger] syn2(units, len, d, f) == s;
        assert(has_entry(t, syn2(units, len, d, f), pair(len, d, f)));
        lemma_weight_pair(len, d, f);
    }
}

/// Two decoders give the same telegram for a valid frame, whatever their
/// tables hold: error correction changes nothing for a frame without errors.
pub proof fn lemma_decoders_agree_on_valid_frames(
    d1: Decoder,
    d2: Decoder,
    bytes: Seq<u8>,
    len: int,
)
    requires
        2 <= len <= bytes.len(),
        valid_frame(bytes.take(len)),
    ensures
        frame_telegram(d1.table(len), bytes, len) == frame_telegram(d2.table(len), bytes, len),
        frame_telegram(d1.table(len), bytes, len) == dispatch(
            Candidate { data: bytes.take(len - 2), repaired: 0 },
        ),
{
    lemma_valid_frame_needs_no_table(d1.table(len), d2.table(len), bytes.take(len));
    assert(bytes.take(len).take(len - 2) =~= bytes.take(len - 2));
}

/// A decoder that corrects errors gives, for a valid frame of mode 9 with
/// one or two bits flipped, the telegram of the valid frame.
pub proof fn lemma_decoder_repairs_light_errors(
    d: Decoder,
    bytes: Seq<u8>,
    len: int,
    wire: Seq<u8>,
    a: int,
    b: int,
)
    requires
        d.corrects(),
        frame_length(len),
        len <= bytes.len(),
        valid_frame(wire),
        wire.len() == len,
        mode_of(wire) == 9,
        bit_ok(len as nat, a),
        bit_ok(len as nat, b),
        a <= b,
        bytes.take(len) == if a == b {
            xor_bytes(wire, single(len as nat, a))
        } else {
            xor_bytes(wire, pair(len as nat, a, b))
        },
    ensures
        frame_telegram(d.table(len), bytes, len) == dispatch(
            Candidate { data: wire.take(len - 2), repaired: 0 },
        ),
{
    let t = d.table(len);
    let payload = wire.take(len - 2);
    assert(mode_of(payload) == 9);
    if a == b {
        lemma_one_bit_repaired(len as nat, t, wire, a);
        lemma_mode_nine_ignores_repairs(payload, 1, 0);
    } else {
        lemma_two_bits_repaired(len as nat, t, wire, a, b);
        lemma_mode_nine_ignores_repairs(payload, 2, 0);
    }
}

} // verus!
