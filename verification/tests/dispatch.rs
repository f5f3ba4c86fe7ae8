use telegram_decoder::dispatch::{classify, parse_r09, parse_telegram, Kind};
use telegram_decoder::framer::RepairedTelegram;
use telegram_decoder::telegrams::{RawTelegram, Telegram};

fn candidate(data: &[u8], repaired: u32) -> RepairedTelegram {
    RepairedTelegram { data: data.to_vec(), number_of_bits_repaired: repaired }
}

#[test]
fn short_payloads_are_no_telegram() {
    assert_eq!(classify(&[]), None);
    assert_eq!(classify(&[0x50]), None);
    assert_eq!(classify(&[0x50, 1]), None);
    assert_eq!(parse_telegram(&candidate(&[0x50, 1], 0)), None);
    assert_eq!(parse_telegram(&candidate(&[], 0)), None);
}

#[test]
fn fixed_length_modes_take_three_or_four_bytes() {
    for mode in [0u8, 1, 2, 3, 4, 10, 11, 12, 13, 14, 15] {
        let first = mode << 4;
        assert_eq!(classify(&[first, 0, 0]), Some(Kind::RFixed));
        assert_eq!(classify(&[first, 0, 0, 0]), Some(Kind::CFixed));
        assert_eq!(classify(&[first, 0, 0, 0, 0]), None);
        assert_eq!(classify(&[first; 12]), None);
    }
}

#[test]
fn other_modes_take_any_length() {
    for mode in 5u8..9 {
        let first = (mode << 4) | 0x3;
        assert_eq!(classify(&[first, 0, 0]), Some(Kind::Raw));
        assert_eq!(classify(&[first, 0, 0, 0, 0, 0, 0]), Some(Kind::Raw));
    }
}

#[test]
fn mode_nine_goes_by_declared_length() {
    // R09: three bytes and what the low nibble of the second byte declares.
    assert_eq!(classify(&[0x91, 0x02, 0, 0, 0]), Some(Kind::R09));
    assert_eq!(classify(&[0x91, 0xf0, 0x05]), Some(Kind::R09));
    // C09: four bytes and what the low nibble of the third byte declares.
    assert_eq!(classify(&[0x91, 0x07, 0x31, 0, 0]), Some(Kind::C09));
    // Both readings fit: R09 wins.
    assert_eq!(classify(&[0x91, 0x02, 0x01, 0, 0]), Some(Kind::R09));
    // Neither fits.
    assert_eq!(classify(&[0x91, 0x07, 0x05, 0, 0]), None);
}

#[test]
fn raw_telegram_only_for_unrepaired_frames_of_other_modes() {
    for mode in 0u8..16 {
        let data = [(mode << 4) | 0x7, 0x21, 0x43];
        let plain = parse_telegram(&candidate(&data, 0));
        let repaired = parse_telegram(&candidate(&data, 1));
        if mode == 9 {
            assert!(!matches!(plain, Some(Telegram::Raw(_))));
        } else {
            assert_eq!(
                plain,
                Some(Telegram::Raw(RawTelegram { telegram_type: mode, data: data.to_vec() }))
            );
        }
        assert!(!matches!(repaired, Some(Telegram::Raw(_))));
        if mode != 9 {
            assert_eq!(repaired, None);
        }
    }
}

#[test]
fn repaired_frames_of_other_modes_are_dropped_whatever_the_count() {
    for repaired in [1u32, 2, 3, 40] {
        assert_eq!(parse_telegram(&candidate(&[0x60, 1, 2, 3, 4], repaired)), None);
    }
}

#[test]
fn repaired_frames_of_mode_nine_are_kept() {
    let payload = [0x91, 0x16, 0x00, 0x01, 0x00, 0x73, 0x01, 0x36, 0x52];
    let plain = parse_telegram(&candidate(&payload, 0));
    let repaired = parse_telegram(&candidate(&payload, 2));
    assert_eq!(plain, repaired);
    match plain {
        Some(Telegram::R09 { r09_type, r09_length, telegram }) => {
            assert_eq!(r09_type, 1);
            assert_eq!(r09_length, 6);
            assert_eq!(telegram.unwrap().line, Some(73));
        }
        other => panic!("no R09 telegram: {:?}", other),
    }
    assert_eq!(
        parse_telegram(&candidate(&[0x91, 0x07, 0x31, 0, 0], 3)),
        Some(Telegram::C09 { c09_type: 3, c09_length: 1 })
    );
}

#[test]
fn r09_of_another_type_or_length_is_not_decoded() {
    // Type 2 instead of 1.
    assert_eq!(
        parse_r09(&[0x92, 0x16, 0x00, 0x01, 0x00, 0x73, 0x01, 0x36, 0x52]),
        Telegram::R09 { r09_type: 2, r09_length: 6, telegram: None }
    );
    // Length 4 instead of 6.
    assert_eq!(
        parse_r09(&[0x91, 0x14, 0x00, 0x01, 0x00, 0x73, 0x01]),
        Telegram::R09 { r09_type: 1, r09_length: 4, telegram: None }
    );
    // Type 1, length 6, but a nibble that is no digit.
    assert_eq!(
        parse_r09(&[0x91, 0x16, 0x00, 0x01, 0x00, 0x7a, 0x01, 0x36, 0x52]),
        Telegram::R09 { r09_type: 1, r09_length: 6, telegram: None }
    );
}
