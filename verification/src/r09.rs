//! The fields of an R09 telegram, unpacked from its payload.
//!
//! The payload packs its fields in nibbles and single bits, most significant
//! first. The decimal fields are binary-coded: one digit per nibble.

use crate::telegrams::{R09Telegram, R09Type};
use vstd::prelude::*;

verus! {

/// A number read from binary-coded decimal digits.
#[derive(Debug)]
pub struct BCD(pub u32);

/// Every element is a decimal digit.
pub open spec fn all_digits(digits: Seq<u8>) -> bool {
    forall|i: int| 0 <= i < digits.len() ==> digits[i] <= 9
}

/// The number whose decimal digits, most significant first, are `digits`.
pub open spec fn decimal(digits: Seq<u8>) -> nat
    decreases digits.len(),
{
    if digits.len() == 0 {
        0
    } else {
        decimal(digits.drop_last()) * 10 + digits.last() as nat
    }
}

/// `10^n`.
pub open spec fn pow10(n: nat) -> nat
    decreases n,
{
    if n == 0 {
        1
    } else {
        10 * pow10((n - 1) as nat)
    }
}

/// A number of `n` decimal digits is below `10^n`.
pub proof fn lemma_decimal_bound(digits: Seq<u8>)
    requires
        all_digits(digits),
    ensures
        decimal(digits) < pow10(digits.len()),
    decreases digits.len(),
{
    if digits.len() > 0 {
        lemma_decimal_bound(digits.drop_last());
    }
}

/// Up to nine digits are always read without overflow.
pub proof fn lemma_short_fits(digits: Seq<u8>)
    requires
        digits.len() <= 9,
    ensures
        forall|k: int|
            0 <= k <= digits.len() && all_digits(#[trigger] digits.take(k)) ==> decimal(
                digits.take(k),
            ) <= u32::MAX,
{
    assert forall|k: int|
        0 <= k <= digits.len() && all_digits(#[trigger] digits.take(k)) implies decimal(
        digits.take(k),
    ) <= u32::MAX by {
        lemma_decimal_bound(digits.take(k));
        lemma_pow10_monotonic(k as nat, 9);
        assert(pow10(9) == 1_000_000_000) by {
            reveal_with_fuel(pow10, 10);
        }
    }
}

/// `10^n` grows with `n`.
pub proof fn lemma_pow10_monotonic(m: nat, n: nat)
    requires
        m <= n,
    ensures
        0 < pow10(m) <= pow10(n),
    decreases n,
{
    if m == 0 {
        if n > 0 {
            lemma_pow10_monotonic(0, (n - 1) as nat);
        }
    } else {
        lemma_pow10_monotonic((m - 1) as nat, (n - 1) as nat);
    }
}

impl BCD {
    /// Reads a decimal number, one digit per element, most significant digit
    /// first. An element above 9 is no digit: the result is then `None`.
    ///
    /// The digits before the first such element must not overflow a `u32`;
    /// nine digits or fewer never do.
    pub fn parse(bytes: &[u8]) -> (r: Option<BCD>)
        requires
            forall|k: int|
                0 <= k <= bytes@.len() && all_digits(#[trigger] bytes@.take(k)) ==> decimal(
                    bytes@.take(k),
                ) <= u32::MAX,
        ensures
            r.is_some() <==> all_digits(bytes@),
            r matches Some(n) ==> n.0 == decimal(bytes@),
    {
        let mut number: u32 = 0;
        let mut i: usize = 0;
        while i < bytes.len()
            invariant
                i <= bytes.len(),
                all_digits(bytes@.take(i as int)),
                number == decimal(bytes@.take(i as int)),
                forall|k: int|
                    0 <= k <= bytes@.len() && all_digits(#[trigger] bytes@.take(k)) ==> decimal(
                        bytes@.take(k),
                    ) <= u32::MAX,
            decreases bytes.len() - i,
        {
            let val = bytes[i];
            if val > 9 {
                return None;
            }
            proof {
                let next = bytes@.take(i + 1);
                assert(next.drop_last() =~= bytes@.take(i as int));
                assert(all_digits(next));
            }
            number = number * 10 + val as u32;
            i = i + 1;
        }
        assert(bytes@.take(bytes@.len() as int) =~= bytes@);
        Some(BCD(number))
    }
}

/// The reporting point: the four nibbles of the third and fourth byte, most
/// significant first.
pub open spec fn reporting_point_of(b: Seq<u8>) -> u32 {
    (((b[2] >> 4) as u32) << 12) | (((b[2] & 0x0f) as u32) << 8) | (((b[3] >> 4) as u32) << 4)
        | ((b[3] & 0x0f) as u32)
}

/// The three digits of the line number.
pub open spec fn line_digits(b: Seq<u8>) -> Seq<u8> {
    seq![b[4] & 0xf, b[5] >> 4, b[5] & 0xf]
}

/// The two digits of the run number.
pub open spec fn run_digits(b: Seq<u8>) -> Seq<u8> {
    seq![b[6] >> 4, b[6] & 0xf]
}

/// The three digits of the destination number.
pub open spec fn destination_digits(b: Seq<u8>) -> Seq<u8> {
    seq![b[7] >> 4, b[7] & 0xf, b[8] >> 4]
}

/// The delay: three bits of magnitude under one bit of sign, where a set
/// sign bit means a negative delay.
pub open spec fn delay_of(b: Seq<u8>) -> int {
    ((b[1] >> 7) as int * -2 + 1) * (((b[1] >> 4) & 0x7) as int)
}

/// The variant that the low nibble of the second byte declares, if any.
pub open spec fn declared_type(b: Seq<u8>) -> Option<R09Type> {
    if b[1] & 0xf == 4 {
        Some(R09Type::R14)
    } else if b[1] & 0xf == 6 {
        Some(R09Type::R16)
    } else {
        None
    }
}

/// Whether the payload is long enough for the variant that it declares.
pub open spec fn long_enough(b: Seq<u8>) -> bool {
    &&& b.len() >= 2
    &&& declared_type(b) == Some(R09Type::R14) ==> b.len() >= 7
    &&& declared_type(b) == Some(R09Type::R16) ==> b.len() >= 9
}

/// Whether every decimal field of the payload holds decimal digits only.
pub open spec fn digits_valid(b: Seq<u8>) -> bool {
    &&& all_digits(line_digits(b))
    &&& all_digits(run_digits(b))
    &&& declared_type(b) == Some(R09Type::R16) ==> all_digits(destination_digits(b))
}

/// The record that a payload of a declared variant with well-formed decimal
/// fields stands for.
pub open spec fn r09_record(b: Seq<u8>) -> R09Telegram {
    let r09_type = declared_type(b).unwrap();
    let reporting_point = reporting_point_of(b);
    R09Telegram {
        r09_type,
        delay: Some(delay_of(b) as i32),
        reporting_point,
        junction: (reporting_point >> 2) / 10,
        direction: ((reporting_point >> 2) % 10) as u8,
        request_status: (reporting_point & 0x3) as u8,
        priority: Some(b[4] >> 6),
        direction_request: Some((b[4] >> 4) & 0x3),
        line: Some(decimal(line_digits(b)) as u32),
        run_number: Some(decimal(run_digits(b)) as u32),
        destination_number: if r09_type == R09Type::R16 {
            Some(decimal(destination_digits(b)) as u32)
        } else {
            None
        },
        train_length: if r09_type == R09Type::R16 {
            Some(b[8] & 0x7)
        } else {
            None
        },
        vehicle_number: None,
        operator: None,
    }
}

/// What a payload decodes to: nothing when it declares no known variant or a
/// decimal field holds a nibble above 9, and else the full record.
pub open spec fn r09_telegram(b: Seq<u8>) -> Option<R09Telegram> {
    if declared_type(b).is_some() && digits_valid(b) {
        Some(r09_record(b))
    } else {
        None
    }
}

/// The reporting point is the third and fourth byte read as one big-endian
/// number.
pub proof fn lemma_reporting_point(b: Seq<u8>)
    requires
        b.len() >= 4,
    ensures
        reporting_point_of(b) == b[2] as int * 256 + b[3] as int,
{
    let x = b[2];
    let y = b[3];
    assert(((((x >> 4) as u32) << 12) | (((x & 0x0f) as u32) << 8) | (((y >> 4) as u32) << 4) | ((y
        & 0x0f) as u32)) == (x as u32) * 256 + (y as u32)) by (bit_vector);
}

/// The delay lies between -7 and 7.
pub proof fn lemma_delay_range(b: Seq<u8>)
    requires
        b.len() >= 2,
    ensures
        -7 <= delay_of(b) <= 7,
{
    let x = b[1];
    assert(x >> 7 <= 1 && (x >> 4) & 0x7 <= 7) by (bit_vector);
    let sign = (x >> 7) as int;
    let value = ((x >> 4) & 0x7) as int;
    assert((sign * -2 + 1) * value == value || (sign * -2 + 1) * value == -value)
        by (nonlinear_arith)
        requires
            sign == 0 || sign == 1,
    ;
}

/// A field of up to three digits is read without overflow and is below 1000.
proof fn lemma_field_fits(digits: Seq<u8>)
    requires
        digits.len() <= 3,
    ensures
        forall|k: int|
            0 <= k <= digits.len() && all_digits(#[trigger] digits.take(k)) ==> decimal(
                digits.take(k),
            ) <= u32::MAX,
        all_digits(digits) ==> decimal(digits) < 1000,
{
    lemma_short_fits(digits);
    if all_digits(digits) {
        lemma_decimal_bound(digits);
        lemma_pow10_monotonic(digits.len(), 3);
        assert(pow10(3) == 1000) by {
            reveal_with_fuel(pow10, 4);
        }
    }
}

/// Decodes the payload of an R09 telegram.
///
/// The low nibble of the second byte declares the variant: 4 for R09.14, 6
/// for R09.16. A payload that declares anything else, or that holds a nibble
/// above 9 in a decimal field, gives `None`; no partly decoded record is ever
/// returned.
pub fn parse_r09_telegram(byte_array: &[u8]) -> (r: Option<R09Telegram>)
    requires
        long_enough(byte_array@),
    ensures
        r == r09_telegram(byte_array@),
{
    let ghost b = byte_array@;
    let telegram_type = match byte_array[1] & 0xf {
        4 => R09Type::R14,
        6 => R09Type::R16,
        _ => {
            return None;
        },
    };
    let b2 = byte_array[2];
    let b3 = byte_array[3];
    let reporting_point: u32 = (((b2 >> 4) as u32) << 12) | (((b2 & 0x0f) as u32) << 8) | (((b3
        >> 4) as u32) << 4) | ((b3 & 0x0f) as u32);

    let line_nibbles = [byte_array[4] & 0xf, byte_array[5] >> 4, byte_array[5] & 0xf];
    proof {
        assert(line_nibbles@ =~= line_digits(b));
        lemma_field_fits(line_nibbles@);
    }
    let line = match BCD::parse(&line_nibbles) {
        Some(x) => x.0,
        None => {
            return None;
        },
    };
    let run_nibbles = [byte_array[6] >> 4, byte_array[6] & 0xf];
    proof {
        assert(run_nibbles@ =~= run_digits(b));
        lemma_field_fits(run_nibbles@);
    }
    let run = match BCD::parse(&run_nibbles) {
        Some(x) => x.0,
        None => {
            return None;
        },
    };
    let destination = match telegram_type {
        R09Type::R16 => {
            let nibbles = [byte_array[7] >> 4, byte_array[7] & 0xf, byte_array[8] >> 4];
            proof {
                assert(nibbles@ =~= destination_digits(b));
                lemma_field_fits(nibbles@);
            }
            match BCD::parse(&nibbles) {
                Some(x) => Some(x.0),
                None => {
                    return None;
                },
            }
        },
        R09Type::R14 => None,
    };
    let train_length = match telegram_type {
        R09Type::R16 => Some(byte_array[8] & 0x7),
        R09Type::R14 => None,
    };

    let b1 = byte_array[1];
    let sign_of_deviation = (b1 >> 7) as i32;
    let value_of_deviation = ((b1 >> 4) & 0x7) as i32;
    proof {
        assert(b1 >> 7 <= 1 && (b1 >> 4) & 0x7 <= 7) by (bit_vector);
        lemma_delay_range(b);
    }
    let delay = (sign_of_deviation * -2 + 1) * value_of_deviation;
    let shifted = reporting_point >> 2;

    Some(
        R09Telegram {
            r09_type: telegram_type,
            delay: Some(delay),
            reporting_point,
            junction: shifted / 10,
            direction: (shifted % 10) as u8,
            request_status: (reporting_point & 0x3) as u8,
            priority: Some(byte_array[4] >> 6),
            direction_request: Some((byte_array[4] >> 4) & 0x3),
            line: Some(line),
            run_number: Some(run),
            destination_number: destination,
            train_length,
            vehicle_number: None,
            operator: None,
        },
    )
}

/// Some nibble of a decimal field is above 9.
pub open spec fn has_bad_digit(b: Seq<u8>) -> bool {
    ||| b[4] & 0xf > 9
    ||| b[5] >> 4 > 9
    ||| b[5] & 0xf > 9
    ||| b[6] >> 4 > 9
    ||| b[6] & 0xf > 9
    ||| declared_type(b) == Some(R09Type::R16) && (b[7] >> 4 > 9 || b[7] & 0xf > 9 || b[8] >> 4 > 9)
}

/// A payload with a nibble above 9 in a decimal field decodes to nothing,
/// and every other payload of a declared variant decodes to its full record.
pub proof fn lemma_bad_digit_rejected(b: Seq<u8>)
    ensures
        has_bad_digit(b) ==> r09_telegram(b).is_none(),
        !has_bad_digit(b) && declared_type(b).is_some() ==> r09_telegram(b) == Some(r09_record(b)),
{
    let line = line_digits(b);
    let run = run_digits(b);
    let destination = destination_digits(b);
    assert(line[0] == b[4] & 0xf && line[1] == b[5] >> 4 && line[2] == b[5] & 0xf);
    assert(run[0] == b[6] >> 4 && run[1] == b[6] & 0xf);
    assert(destination[0] == b[7] >> 4 && destination[1] == b[7] & 0xf && destination[2] == b[8]
        >> 4);
}

} // verus!
