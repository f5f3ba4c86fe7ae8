//! From a candidate payload to a telegram: classify the payload by its mode
//! and its length, and decode or forward it accordingly.

use crate::framer::{Candidate, RepairedTelegram};
use crate::r09::{parse_r09_telegram, r09_telegram};
use crate::telegrams::{RawTelegram, Telegram, TelegramView};
use vstd::prelude::*;

verus! {

/// What kind of telegram a payload is.
#[derive(Clone, Copy, Debug, PartialEq, Eq)]
pub enum Kind {
    /// A three-byte telegram of the R series.
    RFixed,
    /// A four-byte telegram of the C series.
    CFixed,
    /// An R09 telegram, of variable length.
    R09,
    /// A C09 telegram, of variable length.
    C09,
    /// A telegram of a mode whose length is not known.
    Raw,
}

/// The mode of a payload: the high nibble of its first byte.
pub open spec fn mode_of(data: Seq<u8>) -> u8
    recommends
        data.len() >= 1,
{
    data[0] >> 4
}

/// The modes whose telegrams have a fixed length: three bytes in the R
/// series, four in the C series.
pub open spec fn fixed_length_mode(mode: u8) -> bool {
    mode <= 4 || mode >= 10
}

/// The kind of a payload, or `None` for one that is no telegram: shorter
/// than three bytes, too long for a mode of fixed length, or of mode 9 with
/// a length that matches neither its R09 nor its C09 reading.
pub open spec fn kind_of(data: Seq<u8>) -> Option<Kind> {
    if data.len() < 3 {
        None
    } else if mode_of(data) == 9 {
        if 3 + (data[1] & 0xf) == data.len() {
            Some(Kind::R09)
        } else if 4 + (data[2] & 0xf) == data.len() {
            Some(Kind::C09)
        } else {
            None
        }
    } else if !fixed_length_mode(mode_of(data)) {
        Some(Kind::Raw)
    } else if data.len() == 3 {
        Some(Kind::RFixed)
    } else if data.len() == 4 {
        Some(Kind::CFixed)
    } else {
        None
    }
}

/// What an R09 payload gives: its declared type and length, and the decoded
/// record where the payload is of type 1 and length 6 and decodes.
pub open spec fn r09_view(data: Seq<u8>) -> TelegramView
    recommends
        data.len() >= 2,
{
    TelegramView::R09 {
        r09_type: data[0] & 0xf,
        r09_length: data[1] & 0xf,
        telegram: if data[0] & 0xf == 1 && data[1] & 0xf == 6 {
            r09_telegram(data)
        } else {
            None
        },
    }
}

/// The telegram that a candidate gives, if any. A repaired candidate is
/// forwarded only as R09 or C09, never as a raw telegram.
pub open spec fn dispatch(c: Candidate) -> Option<TelegramView> {
    match kind_of(c.data) {
        None => None,
        Some(Kind::R09) => Some(r09_view(c.data)),
        Some(Kind::C09) => Some(
            TelegramView::C09 { c09_type: c.data[2] >> 4, c09_length: c.data[2] & 0xf },
        ),
        Some(_) => if c.repaired == 0 {
            Some(TelegramView::Raw { telegram_type: mode_of(c.data), data: c.data })
        } else {
            None
        },
    }
}

/// Classifies a payload by its mode and its length.
pub fn classify(data: &[u8]) -> (kind: Option<Kind>)
    ensures
        kind == kind_of(data@),
{
    let length = data.len();
    if length < 3 {
        return None;
    }
    let mode: u8 = data[0] >> 4;
    if mode == 9 {
        if 3 + (data[1] & 0xf) as usize == length {
            Some(Kind::R09)
        } else if 4 + (data[2] & 0xf) as usize == length {
            Some(Kind::C09)
        } else {
            None
        }
    } else if mode <= 4 || mode >= 10 {
        if length == 3 {
            Some(Kind::RFixed)
        } else if length == 4 {
            Some(Kind::CFixed)
        } else {
            None
        }
    } else {
        Some(Kind::Raw)
    }
}

/// Decodes a payload of the R09 family, whose length its second byte
/// declares.
pub fn parse_r09(data: &[u8]) -> (telegram: Telegram)
    requires
        data.len() >= 2,
        data.len() == 3 + (data@[1] & 0xf),
    ensures
        telegram@ == r09_view(data@),
{
    let r09_type = data[0] & 0xf;
    let r09_length = data[1] & 0xf;
    let telegram = if r09_type == 1 && r09_length == 6 {
        parse_r09_telegram(data)
    } else {
        None
    };
    Telegram::R09 { r09_type, r09_length, telegram }
}

/// Turns a candidate into the telegram that it stands for, if any.
pub fn parse_telegram(repair_telegram: &RepairedTelegram) -> (telegram: Option<Telegram>)
    ensures
        telegram.is_some() == dispatch(repair_telegram@).is_some(),
        telegram matches Some(t) ==> t@ == dispatch(repair_telegram@).unwrap(),
{
    let data = &repair_telegram.data;
    match classify(data.as_slice()) {
        None => None,
        Some(Kind::R09) => Some(parse_r09(data.as_slice())),
        Some(Kind::C09) => {
            let c09_type = data[2] >> 4;
            let c09_length = data[2] & 0xf;
            Some(Telegram::C09 { c09_type, c09_length })
        },
        Some(Kind::RFixed) | Some(Kind::CFixed) | Some(Kind::Raw) => {
            if repair_telegram.number_of_bits_repaired > 0 {
                None
            } else {
                Some(Telegram::Raw(RawTelegram { telegram_type: data[0] >> 4, data: data.clone() }))
            }
        },
    }
}

/// A raw telegram is given exactly for a payload that is a telegram, whose
/// mode is not 9 and in which no bit was repaired. A repaired frame never
/// gives one.
pub proof fn lemma_raw_rule(c: Candidate)
    ensures
        dispatch(c) matches Some(TelegramView::Raw { .. }) <==> kind_of(c.data).is_some()
            && mode_of(c.data) != 9 && c.repaired == 0,
        dispatch(c) matches Some(TelegramView::Raw { telegram_type, data }) ==> telegram_type
            == mode_of(c.data) && data == c.data,
        c.repaired > 0 ==> !(dispatch(c) matches Some(TelegramView::Raw { .. })),
{
}

/// A payload is a telegram exactly when it has three bytes or more and a
/// length that its mode allows.
pub proof fn lemma_kind_rule(data: Seq<u8>)
    ensures
        kind_of(data).is_some() <==> data.len() >= 3 && if mode_of(data) == 9 {
            data.len() == 3 + (data[1] & 0xf) || data.len() == 4 + (data[2] & 0xf)
        } else {
            fixed_length_mode(mode_of(data)) ==> data.len() <= 4
        },
{
}

/// What a payload of mode 9 gives does not depend on how many bits were
/// repaired.
pub proof fn lemma_mode_nine_ignores_repairs(data: Seq<u8>, n: nat, m: nat)
    requires
        data.len() >= 1,
        mode_of(data) == 9,
    ensures
        dispatch(Candidate { data, repaired: n }) == dispatch(Candidate { data, repaired: m }),
{
}

} // verus!
