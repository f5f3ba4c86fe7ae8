use telegram_decoder::r09::{parse_r09_telegram, BCD};
use telegram_decoder::telegrams::{R09Telegram, R09Type};

const PAYLOAD: [u8; 9] = [0x91, 0x16, 0x00, 0x01, 0x00, 0x73, 0x01, 0x36, 0x52];

#[test]
fn r09_16_payload_gives_its_record() {
    assert_eq!(
        parse_r09_telegram(&PAYLOAD),
        Some(R09Telegram {
            r09_type: R09Type::R16,
            delay: Some(1),
            reporting_point: 1,
            junction: 0,
            direction: 0,
            request_status: 1,
            priority: Some(0),
            direction_request: Some(0),
            line: Some(73),
            run_number: Some(1),
            destination_number: Some(365),
            train_length: Some(2),
            vehicle_number: None,
            operator: None,
        })
    );
}

#[test]
fn r09_14_payload_has_no_destination() {
    let payload = [0x91, 0xa4, 0x0b, 0xb9, 0x71, 0x23, 0x45];
    assert_eq!(
        parse_r09_telegram(&payload),
        Some(R09Telegram {
            r09_type: R09Type::R14,
            delay: Some(-2),
            reporting_point: 3001,
            junction: 75,
            direction: 0,
            request_status: 1,
            priority: Some(1),
            direction_request: Some(3),
            line: Some(123),
            run_number: Some(45),
            destination_number: None,
            train_length: None,
            vehicle_number: None,
            operator: None,
        })
    );
}

#[test]
fn undeclared_variant_gives_nothing() {
    let mut payload = PAYLOAD;
    payload[1] = 0x15;
    assert_eq!(parse_r09_telegram(&payload), None);
    payload[1] = 0x10;
    assert_eq!(parse_r09_telegram(&payload), None);
}

#[test]
fn bad_nibble_in_any_decimal_field_gives_nothing() {
    let spoiled: [(usize, u8); 8] = [
        (4, 0x0a),
        (5, 0xa3),
        (5, 0x7f),
        (6, 0xb1),
        (6, 0x0c),
        (7, 0xd6),
        (7, 0x3e),
        (8, 0xf2),
    ];
    for (index, byte) in spoiled {
        let mut payload = PAYLOAD;
        payload[index] = byte;
        assert_eq!(parse_r09_telegram(&payload), None, "byte {} = {:#x}", index, byte);
    }
}

#[test]
fn every_nibble_from_ten_up_is_rejected() {
    for nibble in 10u8..16 {
        let mut payload = PAYLOAD;
        payload[5] = (nibble << 4) | 3;
        assert_eq!(parse_r09_telegram(&payload), None);
        assert!(BCD::parse(&[1, nibble, 2]).is_none());
    }
}

#[test]
fn high_bits_beside_the_line_are_no_digits() {
    // The high nibble of the fifth byte holds priority and direction request.
    let mut payload = PAYLOAD;
    payload[4] = 0xf9;
    let record = parse_r09_telegram(&payload).unwrap();
    assert_eq!(record.line, Some(973));
    assert_eq!(record.priority, Some(3));
    assert_eq!(record.direction_request, Some(3));
}

#[test]
fn train_length_ignores_the_fourth_bit() {
    let mut payload = PAYLOAD;
    payload[8] = 0x5f;
    let record = parse_r09_telegram(&payload).unwrap();
    assert_eq!(record.train_length, Some(7));
    assert_eq!(record.destination_number, Some(365));
}

#[test]
fn reporting_point_and_what_follows_from_it() {
    let mut payload = PAYLOAD;
    payload[2] = 0xab;
    payload[3] = 0xcd;
    let record = parse_r09_telegram(&payload).unwrap();
    assert_eq!(record.reporting_point, 0xabcd);
    assert_eq!(record.junction, (0xabcd >> 2) / 10);
    assert_eq!(record.junction, 1099);
    assert_eq!(record.direction, 5);
    assert_eq!(record.request_status, 1);
}

#[test]
fn delay_sign_and_magnitude() {
    let cases: [(u8, i32); 6] =
        [(0x06, 0), (0x76, 7), (0x86, 0), (0x96, -1), (0xf6, -7), (0x36, 3)];
    for (byte, delay) in cases {
        let mut payload = PAYLOAD;
        payload[1] = byte;
        assert_eq!(parse_r09_telegram(&payload).unwrap().delay, Some(delay), "{:#x}", byte);
    }
}

#[test]
fn bcd_reads_decimal_digits() {
    assert_eq!(BCD::parse(&[0, 7, 3]).unwrap().0, 73);
    assert_eq!(BCD::parse(&[9, 9, 9]).unwrap().0, 999);
    assert_eq!(BCD::parse(&[4]).unwrap().0, 4);
    assert_eq!(BCD::parse(&[]).unwrap().0, 0);
    assert_eq!(BCD::parse(&[4, 2, 9, 4, 9, 6, 7, 2, 9, 5]).unwrap().0, u32::MAX);
}

#[test]
fn bcd_rejects_what_is_no_digit() {
    assert!(BCD::parse(&[10]).is_none());
    assert!(BCD::parse(&[1, 2, 255]).is_none());
    assert!(BCD::parse(&[15, 0]).is_none());
}
