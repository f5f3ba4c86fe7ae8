//! The records that the decoder hands out.

use vstd::prelude::*;

verus! {

/// Variant of an R09 telegram, told by the declared length of its payload.
#[derive(Clone, Copy, Debug, PartialEq, Eq, Hash)]
pub enum R09Type {
    /// Four payload bytes after the header: no destination, no train length.
    R14,
    /// Six payload bytes after the header.
    R16,
}

/// A decoded R09 telegram: what a vehicle reports when it passes a
/// reporting point.
#[derive(Clone, Copy, Debug, PartialEq, Eq, Hash)]
pub struct R09Telegram {
    pub r09_type: R09Type,
    /// Deviation from the timetable, negative when early.
    pub delay: Option<i32>,
    pub reporting_point: u32,
    pub junction: u32,
    pub direction: u8,
    pub request_status: u8,
    pub priority: Option<u8>,
    pub direction_request: Option<u8>,
    pub line: Option<u32>,
    pub run_number: Option<u32>,
    pub destination_number: Option<u32>,
    pub train_length: Option<u8>,
    pub vehicle_number: Option<u32>,
    pub operator: Option<u8>,
}

/// A telegram of a mode that is not decoded further: the mode and the
/// payload as received.
#[derive(Clone, Debug, PartialEq, Eq, Hash)]
pub struct RawTelegram {
    /// The mode, the high nibble of the first payload byte.
    pub telegram_type: u8,
    pub data: Vec<u8>,
}

/// What one frame candidate turned out to be.
#[derive(Clone, Debug, PartialEq, Eq, Hash)]
pub enum Telegram {
    /// An R09 frame. `telegram` is the decoded record, if the frame is of the
    /// one kind that is decoded and its decimal fields are well formed.
    R09 { r09_type: u8, r09_length: u8, telegram: Option<R09Telegram> },
    /// A C09 frame; its payload is not decoded.
    C09 { c09_type: u8, c09_length: u8 },
    /// An unrepaired frame of any other mode.
    Raw(RawTelegram),
}

/// A `Telegram` with its bytes as a sequence.
pub enum TelegramView {
    R09 { r09_type: u8, r09_length: u8, telegram: Option<R09Telegram> },
    C09 { c09_type: u8, c09_length: u8 },
    Raw { telegram_type: u8, data: Seq<u8> },
}

impl View for Telegram {
    type V = TelegramView;

    open spec fn view(&self) -> TelegramView {
        match *self {
            Telegram::R09 { r09_type, r09_length, telegram } => TelegramView::R09 {
                r09_type,
                r09_length,
                telegram,
            },
            Telegram::C09 { c09_type, c09_length } => TelegramView::C09 { c09_type, c09_length },
            Telegram::Raw(raw) => TelegramView::Raw {
                telegram_type: raw.telegram_type,
                data: raw.data@,
            },
        }
    }
}

} // verus!
