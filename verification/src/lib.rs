//! Decoder for R09/C09 vehicle-location telegrams received as a noisy bit
//! stream.
//!
//! The pipeline is: repack the demodulated bits into bytes, search every
//! plausible frame length, check (and where possible repair) the frame against
//! its CRC, classify the payload by its mode nibble and decode the R09 fields.
//! Every step is stated as a function on plain values with a verified
//! contract.

pub mod correction;
pub mod crc;
pub mod decoder;
pub mod demod;
pub mod dispatch;
pub mod framer;
pub mod gf2;
pub mod pattern;
pub mod r09;
pub mod syndrome;
pub mod table;
pub mod telegrams;
pub mod tiers;
