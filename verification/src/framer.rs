//! From a frame to a candidate payload: check the CRC and, where the table
//! knows the syndrome, repair the frame.

use crate::crc::{crc16_remainder, syndrome};
use crate::pattern::{count_bits, weight};
use crate::syndrome::xor_bytes;
use std::collections::HashMap;
use vstd::prelude::*;

verus! {

/// A frame that passed the CRC, with its CRC stripped.
#[derive(Clone, Debug, PartialEq, Eq)]
pub struct RepairedTelegram {
    /// The payload.
    pub data: Vec<u8>,
    /// How many bits had to be flipped for the CRC to hold.
    pub number_of_bits_repaired: u32,
}

/// A candidate as plain values: the payload and the number of repaired bits.
pub struct Candidate {
    pub data: Seq<u8>,
    pub repaired: nat,
}

impl View for RepairedTelegram {
    type V = Candidate;

    open spec fn view(&self) -> Candidate {
        Candidate { data: self.data@, repaired: self.number_of_bits_repaired as nat }
    }
}

/// The frame with its CRC, the last two bytes, inverted: on the wire the CRC
/// travels as its complement.
pub open spec fn uninvert(frame: Seq<u8>) -> Seq<u8>
    recommends
        frame.len() >= 2,
{
    frame.update(frame.len() - 2, frame[frame.len() - 2] ^ 0xff).update(
        frame.len() - 1,
        frame[frame.len() - 1] ^ 0xff,
    )
}

/// Every pattern of the table is as long as the frames that it is for.
pub open spec fn patterns_fit(table: Map<u64, Vec<u8>>, len: nat) -> bool {
    forall|s: u64| #[trigger] table.contains_key(s) ==> table[s]@.len() == len
}

/// The candidate that a frame with the syndrome `rem` gives. A zero syndrome
/// needs no repair. Any other is looked up: the pattern found is taken off the
/// frame, and a syndrome that the table does not know gives no candidate.
pub open spec fn repaired(table: Map<u64, Vec<u8>>, frame: Seq<u8>, rem: u64) -> Option<Candidate>
    recommends
        frame.len() >= 2,
{
    if rem == 0 {
        Some(Candidate { data: frame.take(frame.len() - 2), repaired: 0 })
    } else if table.contains_key(rem) {
        Some(
            Candidate {
                data: xor_bytes(frame, table[rem]@).take(frame.len() - 2),
                repaired: weight(table[rem]@),
            },
        )
    } else {
        None
    }
}

/// The candidate that a frame gives as it came over the wire.
pub open spec fn candidate(table: Map<u64, Vec<u8>>, wire: Seq<u8>) -> Option<Candidate>
    recommends
        wire.len() >= 2,
{
    repaired(table, uninvert(wire), syndrome(uninvert(wire)))
}

/// Copies the first `len` bytes of `bytes` and inverts the last two of them.
pub fn uninverted_frame(bytes: &[u8], len: usize) -> (frame: Vec<u8>)
    requires
        2 <= len <= bytes.len(),
    ensures
        frame@ == uninvert(bytes@.take(len as int)),
{
    let mut frame: Vec<u8> = Vec::new();
    frame.extend_from_slice(&bytes[0..len]);
    assert(frame@ =~= bytes@.take(len as int));
    let high = frame[len - 2] ^ 0xff;
    frame.set(len - 2, high);
    let low = frame[len - 1] ^ 0xff;
    frame.set(len - 1, low);
    frame
}

/// The payload of a frame: all but its last two bytes.
fn payload(frame: &Vec<u8>) -> (data: Vec<u8>)
    requires
        frame.len() >= 2,
    ensures
        data@ == frame@.take(frame.len() - 2),
{
    let mut data: Vec<u8> = Vec::new();
    data.extend_from_slice(&frame[0..frame.len() - 2]);
    assert(data@ =~= frame@.take(frame.len() - 2));
    data
}

/// Takes the pattern `error` off the frame.
fn apply(frame: &Vec<u8>, error: &Vec<u8>) -> (fixed: Vec<u8>)
    requires
        error.len() == frame.len(),
    ensures
        fixed@ == xor_bytes(frame@, error@),
{
    let mut fixed = frame.clone();
    let mut i: usize = 0;
    while i < error.len()
        invariant
            i <= error.len(),
            error.len() == frame.len(),
            fixed.len() == frame.len(),
            forall|k: int| 0 <= k < i ==> fixed@[k] == frame@[k] ^ error@[k],
            forall|k: int| i <= k < frame.len() ==> fixed@[k] == frame@[k],
        decreases error.len() - i,
    {
        let byte = fixed[i] ^ error[i];
        fixed.set(i, byte);
        i += 1;
    }
    assert(fixed@ =~= xor_bytes(frame@, error@));
    fixed
}

/// Turns a frame whose CRC is already inverted back, and its syndrome `rem`,
/// into a candidate.
pub fn repair(table: &HashMap<u64, Vec<u8>>, telegram_array: &Vec<u8>, rem: u64) -> (r: Option<
    RepairedTelegram,
>)
    requires
        telegram_array.len() >= 2,
        8 * telegram_array.len() <= u32::MAX,
        patterns_fit(table@, telegram_array@.len()),
    ensures
        r.is_some() == repaired(table@, telegram_array@, rem).is_some(),
        r matches Some(t) ==> t@ == repaired(table@, telegram_array@, rem).unwrap(),
{
    broadcast use vstd::std_specs::hash::group_hash_axioms;

    if rem == 0 {
        Some(RepairedTelegram { data: payload(telegram_array), number_of_bits_repaired: 0 })
    } else {
        match table.get(&rem) {
            Some(error) => {
                let repaired_telegram = apply(telegram_array, error);
                Some(
                    RepairedTelegram {
                        data: payload(&repaired_telegram),
                        number_of_bits_repaired: count_bits(error),
                    },
                )
            },
            None => None,
        }
    }
}

/// The candidate that the first `len` bytes of `bytes` give as a frame:
/// inverts the CRC back, computes the syndrome and repairs the frame if the
/// table knows how.
pub fn frame_candidate(table: &HashMap<u64, Vec<u8>>, bytes: &[u8], len: usize) -> (r: Option<
    RepairedTelegram,
>)
    requires
        2 <= len <= bytes.len(),
        8 * len <= u32::MAX,
        patterns_fit(table@, len as nat),
    ensures
        r.is_some() == candidate(table@, bytes@.take(len as int)).is_some(),
        r matches Some(t) ==> t@ == candidate(table@, bytes@.take(len as int)).unwrap(),
{
    let telegram_array = uninverted_frame(bytes, len);
    let rem = crc16_remainder(&telegram_array);
    repair(table, &telegram_array, rem)
}

} // verus!
