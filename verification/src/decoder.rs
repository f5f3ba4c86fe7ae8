//! The decoder: the correction tables of every frame length, and the search
//! that turns a stream of bits into telegrams.

use crate::crc::{syndrome, unit_residues, unit_syndromes};
use crate::demod::{demodulate, demodulated, MAXIMUM_SIZE, MINIMUM_SIZE};
use crate::dispatch::{dispatch, parse_telegram};
use crate::framer::{candidate, frame_candidate, patterns_fit};
use crate::pattern::{pair, single};
use crate::table::{
    bit_ok, build_table, correction_table, has_entry, lemma_entry_properties,
    lemma_table_distinct, low_distinct, pair_ok, syn1, syn2,
};
use crate::telegrams::{Telegram, TelegramView};
use std::collections::HashMap;
use vstd::prelude::*;

verus! {

/// The table has no entry: only frames whose CRC holds as received pass.
pub open spec fn no_entries(t: Map<u64, Vec<u8>>) -> bool {
    forall|s: u64| !t.contains_key(s)
}

/// `t` is the correction table for frames of `len` bytes under the CRC of the
/// protocol.
pub open spec fn crc_table(len: nat, t: Map<u64, Vec<u8>>) -> bool {
    correction_table(unit_residues(8 * len), len, t)
}

/// Under the CRC of the protocol, no two patterns of one or two bits in a
/// frame of `len` bytes have the same syndrome.
pub open spec fn crc_distinct(len: nat) -> bool {
    low_distinct(unit_residues(8 * len), len)
}

/// `len` is a frame length that the decoder searches.
pub open spec fn frame_length(len: int) -> bool {
    MINIMUM_SIZE <= len <= MAXIMUM_SIZE
}

/// The telegram that the first `len` bytes give as a frame, if any.
pub open spec fn frame_telegram(t: Map<u64, Vec<u8>>, bytes: Seq<u8>, len: int) -> Option<
    TelegramView,
>
    recommends
        2 <= len <= bytes.len(),
{
    match candidate(t, bytes.take(len)) {
        Some(c) => dispatch(c),
        None => None,
    }
}

/// The telegrams that the frame lengths below `upto` give, shortest frame
/// first.
pub open spec fn decoded_upto(tables: Seq<Map<u64, Vec<u8>>>, bytes: Seq<u8>, upto: int) -> Seq<
    TelegramView,
>
    decreases upto,
{
    if upto <= MINIMUM_SIZE {
        Seq::empty()
    } else {
        let len = upto - 1;
        let shorter = decoded_upto(tables, bytes, len);
        match frame_telegram(tables[len - MINIMUM_SIZE], bytes, len) {
            Some(t) => shorter.push(t),
            None => shorter,
        }
    }
}

/// The telegrams that a stream of bits gives: every frame length from the
/// shortest up to two bytes less than what was received is tried, and every
/// one that gives a telegram contributes it.
pub open spec fn decoded(tables: Seq<Map<u64, Vec<u8>>>, bits: Seq<u8>) -> Seq<TelegramView> {
    let bytes = demodulated(bits);
    if bytes.len() < MINIMUM_SIZE {
        Seq::empty()
    } else {
        decoded_upto(tables, bytes, bytes.len() - 1)
    }
}

/// The telegrams of a list, each as plain values.
pub open spec fn views(telegrams: Seq<Telegram>) -> Seq<TelegramView> {
    Seq::new(telegrams.len(), |i: int| telegrams[i]@)
}

/// The patterns of a correction table are as long as its frames.
pub proof fn lemma_crc_table_fits(len: nat, t: Map<u64, Vec<u8>>)
    requires
        no_entries(t) || crc_table(len, t),
    ensures
        patterns_fit(t, len),
{
    assert forall|s: u64| #[trigger] t.contains_key(s) implies t[s]@.len() == len by {
        lemma_entry_properties(unit_residues(8 * len), len, t, s);
    }
}

/// Decoder of telegram frames. It owns one correction table per frame
/// length; they are built once and only read afterwards.
pub struct Decoder {
    maps: Vec<HashMap<u64, Vec<u8>>>,
}

impl Decoder {
    /// The correction tables, by frame length less the shortest.
    pub closed spec fn tables(&self) -> Seq<Map<u64, Vec<u8>>> {
        Seq::new(self.maps@.len(), |i: int| self.maps@[i]@)
    }

    /// The correction table for frames of `len` bytes.
    pub open spec fn table(&self, len: int) -> Map<u64, Vec<u8>> {
        self.tables()[len - MINIMUM_SIZE]
    }

    /// Error correction is off: every table is empty.
    pub open spec fn exact_only(&self) -> bool {
        forall|len: int| frame_length(len) ==> no_entries(#[trigger] self.table(len))
    }

    /// Error correction is on: every table is complete.
    pub open spec fn corrects(&self) -> bool {
        forall|len: int| frame_length(len) ==> crc_table(len as nat, #[trigger] self.table(len))
    }

    /// There is one table per frame length, each empty or complete.
    pub open spec fn wf(&self) -> bool {
        &&& self.tables().len() == MAXIMUM_SIZE - MINIMUM_SIZE + 1
        &&& forall|len: int|
            frame_length(len) ==> no_entries(#[trigger] self.table(len)) || crc_table(
                len as nat,
                self.table(len),
            )
    }

    #[verifier::type_invariant]
    spec fn inv(&self) -> bool {
        self.wf()
    }

    /// Builds the decoder and, unless error correction is disabled, its
    /// correction tables.
    ///
    /// With error correction disabled there is always a decoder. With it
    /// enabled there is one exactly when, at every frame length, the patterns
    /// of one and two bits all have different syndromes.
    pub fn new(disable_error_correction: bool) -> (decoder: Option<Decoder>)
        ensures
            decoder.is_some() <==> disable_error_correction || forall|len: int|
                frame_length(len) ==> #[trigger] crc_distinct(len as nat),
            decoder matches Some(d) ==> d.wf() && if disable_error_correction {
                d.exact_only()
            } else {
                d.corrects()
            },
    {
        let mut maps: Vec<HashMap<u64, Vec<u8>>> = Vec::new();
        let units = if disable_error_correction {
            Vec::new()
        } else {
            unit_syndromes(8 * MAXIMUM_SIZE)
        };
        let mut len: usize = MINIMUM_SIZE;
        while len <= MAXIMUM_SIZE
            invariant
                MINIMUM_SIZE <= len <= MAXIMUM_SIZE + 1,
                maps.len() == len - MINIMUM_SIZE,
                !disable_error_correction ==> units@ == unit_residues((8 * MAXIMUM_SIZE) as nat),
                disable_error_correction ==> forall|l: int|
                    MINIMUM_SIZE <= l < len ==> no_entries(#[trigger] maps@[l - MINIMUM_SIZE]@),
                !disable_error_correction ==> forall|l: int|
                    MINIMUM_SIZE <= l < len ==> crc_table(
                        l as nat,
                        #[trigger] maps@[l - MINIMUM_SIZE]@,
                    ),
                !disable_error_correction ==> forall|l: int|
                    MINIMUM_SIZE <= l < len ==> #[trigger] crc_distinct(l as nat),
            decreases MAXIMUM_SIZE + 1 - len,
        {
            let mut map: HashMap<u64, Vec<u8>> = HashMap::new();
            if !disable_error_correction {
                let residues = &units[0..8 * len];
                assert(residues@ =~= unit_residues((8 * len) as nat));
                match build_table(residues, len) {
                    Some(table) => {
                        map = table;
                    },
                    None => {
                        proof {
                            let l = len as int;
                            assert(frame_length(l) && !crc_distinct(l as nat));
                        }
                        return None;
                    },
                }
            }
            let ghost before = maps@;
            maps.push(map);
            proof {
                assert forall|l: int| MINIMUM_SIZE <= l < len + 1 implies (disable_error_correction
                    ==> no_entries(#[trigger] maps@[l - MINIMUM_SIZE]@)) && (
                !disable_error_correction ==> crc_table(l as nat, maps@[l - MINIMUM_SIZE]@)) by {
                    if l < len {
                        assert(maps@[l - MINIMUM_SIZE] == before[l - MINIMUM_SIZE]);
                    }
                }
            }
            len += 1;
        }
        let decoder = Decoder { maps };
        proof {
            assert forall|l: int| frame_length(l) implies (disable_error_correction ==> no_entries(
                #[trigger] decoder.table(l),
            )) && (!disable_error_correction ==> crc_table(l as nat, decoder.table(l))) by {
                assert(decoder.table(l) == decoder.maps@[l - MINIMUM_SIZE]@);
            }
        }
        Some(decoder)
    }

    /// Decodes one received buffer. See `decode`.
    pub fn process(&self, data: &[u8]) -> (telegrams: Vec<Telegram>)
        ensures
            views(telegrams@) == decoded(self.tables(), data@),
    {
        self.decode(data)
    }

    /// Decodes a stream of bits, one bit per element, into the telegrams
    /// that it holds.
    ///
    /// The true frame length is not known beforehand, so every length is
    /// tried, and every length at which the CRC holds, as received or after
    /// repair, may give a telegram.
    pub fn decode(&self, data: &[u8]) -> (telegrams: Vec<Telegram>)
        ensures
            views(telegrams@) == decoded(self.tables(), data@),
    {
        let byte_array = demodulate(data);
        let mut telegrams: Vec<Telegram> = Vec::new();
        if byte_array.len() < MINIMUM_SIZE {
            assert(views(telegrams@) =~= Seq::<TelegramView>::empty());
            return telegrams;
        }
        proof {
            use_type_invariant(self);
        }
        let last = byte_array.len() - 1;
        let mut telegram_length: usize = MINIMUM_SIZE;
        assert(views(telegrams@) =~= Seq::<TelegramView>::empty());
        while telegram_length < last
            invariant
                self.wf(),
                MINIMUM_SIZE <= byte_array.len() <= MAXIMUM_SIZE,
                last == byte_array.len() - 1,
                MINIMUM_SIZE <= telegram_length,
                views(telegrams@) == decoded_upto(
                    self.tables(),
                    byte_array@,
                    if telegram_length < last {
                        telegram_length as int
                    } else {
                        last as int
                    },
                ),
            decreases last - telegram_length,
        {
            let table = &self.maps[telegram_length - MINIMUM_SIZE];
            proof {
                assert(table@ == self.table(telegram_length as int));
                assert(frame_length(telegram_length as int));
                lemma_crc_table_fits(telegram_length as nat, table@);
            }
            let ghost before = views(telegrams@);
            match frame_candidate(table, byte_array.as_slice(), telegram_length) {
                Some(telegram) => {
                    match parse_telegram(&telegram) {
                        Some(t) => {
                            telegrams.push(t);
                            assert(views(telegrams@) =~= before.push(t@));
                        },
                        None => {},
                    }
                },
                None => {},
            }
            telegram_length += 1;
        }
        telegrams
    }
}

/// Every frame length that gives a telegram contributes it to the result,
/// and every telegram of the result comes from a frame length: nothing is
/// dropped, and nothing is made up.
pub proof fn lemma_decoded_telegrams(
    tables: Seq<Map<u64, Vec<u8>>>,
    bytes: Seq<u8>,
    upto: int,
    t: TelegramView,
)
    ensures
        decoded_upto(tables, bytes, upto).contains(t) <==> exists|len: int|
            MINIMUM_SIZE <= len < upto && #[trigger] frame_telegram(
                tables[len - MINIMUM_SIZE],
                bytes,
                len,
            ) == Some(t),
    decreases upto,
{
    if upto > MINIMUM_SIZE {
        let last = upto - 1;
        let shorter = decoded_upto(tables, bytes, last);
        let all = decoded_upto(tables, bytes, upto);
        lemma_decoded_telegrams(tables, bytes, last, t);
        let found = frame_telegram(tables[last - MINIMUM_SIZE], bytes, last);
        if all.contains(t) {
            let i = choose|i: int| 0 <= i < all.len() && all[i] == t;
            if i < shorter.len() {
                assert(shorter[i] == t);
                let len = choose|len: int|
                    MINIMUM_SIZE <= len < last && #[trigger] frame_telegram(
                        tables[len - MINIMUM_SIZE],
                        bytes,
                        len,
                    ) == Some(t);
                assert(MINIMUM_SIZE <= len < upto);
            } else {
                assert(found == Some(t));
            }
        }
        if exists|len: int|
            MINIMUM_SIZE <= len < upto && #[trigger] frame_telegram(
                tables[len - MINIMUM_SIZE],
                bytes,
                len,
            ) == Some(t) {
            let len = choose|len: int|
                MINIMUM_SIZE <= len < upto && #[trigger] frame_telegram(
                    tables[len - MINIMUM_SIZE],
                    bytes,
                    len,
                ) == Some(t);
            if len < last {
                let i = choose|i: int| 0 <= i < shorter.len() && shorter[i] == t;
                assert(all[i] == t);
            } else {
                assert(all[all.len() - 1] == t);
            }
        }
    }
}

/// In a decoder that corrects errors, the patterns of one and two bits have
/// different syndromes at every frame length, and each of them is entered in
/// the table of its length under its own syndrome and no other.
pub proof fn lemma_light_entries_distinct(d: Decoder, len: int)
    requires
        d.corrects(),
        frame_length(len),
    ensures
        crc_distinct(len as nat),
        forall|a: int|
            bit_ok(len as nat, a) ==> has_entry(
                d.table(len),
                #[trigger] syndrome(single(len as nat, a)),
                single(len as nat, a),
            ),
        forall|a: int, b: int|
            pair_ok(len as nat, a, b) ==> has_entry(
                d.table(len),
                #[trigger] syndrome(pair(len as nat, a, b)),
                pair(len as nat, a, b),
            ),
{
    let units = unit_residues(8 * (len as nat));
    lemma_table_distinct(units, len as nat, d.table(len));
    assert forall|a: int| bit_ok(len as nat, a) implies has_entry(
        d.table(len),
        #[trigger] syndrome(single(len as nat, a)),
        single(len as nat, a),
    ) by {
        assert(syndrome(single(len as nat, a)) == syn1(units, len as nat, a));
    }
    assert forall|a: int, b: int| pair_ok(len as nat, a, b) implies has_entry(
        d.table(len),
        #[trigger] syndrome(pair(len as nat, a, b)),
        pair(len as nat, a, b),
    ) by {
        assert(syndrome(pair(len as nat, a, b)) == syn2(units, len as nat, a, b));
    }
}

} // verus!
