use telegram_decoder::decoder::Decoder;
use telegram_decoder::telegrams::{R09Telegram, R09Type, Telegram};

/// The fields of an R09.16 telegram as the vehicle sends them.
struct TelegramFrame {
    zv: u32,
    zw: u32,
    mp: u32,
    pr: u32,
    ha: u32,
    ln: u32,
    kn: u32,
    zn: u32,
    zl: u32,
    junction: u32,
    junction_number: u32,
    request_status: u32,
}

struct ValidR09_16Telegram {
    /// The frame on the wire: nine bytes of payload and the inverted CRC.
    frame: [u8; 11],
    output: TelegramFrame,
}

fn samples() -> Vec<ValidR09_16Telegram> {
    vec![
        ValidR09_16Telegram {
            frame: [0x91, 0x16, 0x00, 0x01, 0x00, 0x73, 0x01, 0x36, 0x52, 0x30, 0x99],
            output: TelegramFrame {
                zv: 0,
                zw: 1,
                mp: 1,
                pr: 0,
                ha: 0,
                ln: 73,
                kn: 1,
                zn: 365,
                zl: 2,
                junction: 0,
                junction_number: 0,
                request_status: 1,
            },
        },
        ValidR09_16Telegram {
            frame: [0x91, 0xb6, 0x12, 0x34, 0x90, 0x04, 0x12, 0x10, 0x10, 0xe1, 0xd2],
            output: TelegramFrame {
                zv: 1,
                zw: 3,
                mp: 4660,
                pr: 2,
                ha: 1,
                ln: 4,
                kn: 12,
                zn: 101,
                zl: 0,
                junction: 116,
                junction_number: 5,
                request_status: 0,
            },
        },
        ValidR09_16Telegram {
            frame: [0x91, 0x06, 0x9c, 0x41, 0xf9, 0x99, 0x99, 0x99, 0x97, 0x71, 0xba],
            output: TelegramFrame {
                zv: 0,
                zw: 0,
                mp: 40001,
                pr: 3,
                ha: 3,
                ln: 999,
                kn: 99,
                zn: 999,
                zl: 7,
                junction: 1000,
                junction_number: 0,
                request_status: 1,
            },
        },
        ValidR09_16Telegram {
            frame: [0x91, 0xf6, 0x00, 0x09, 0x60, 0x61, 0x07, 0x22, 0x03, 0x68, 0x89],
            output: TelegramFrame {
                zv: 1,
                zw: 7,
                mp: 9,
                pr: 1,
                ha: 2,
                ln: 61,
                kn: 7,
                zn: 220,
                zl: 3,
                junction: 0,
                junction_number: 2,
                request_status: 1,
            },
        },
        ValidR09_16Telegram {
            frame: [0x91, 0x56, 0x50, 0x03, 0x10, 0x11, 0x45, 0x00, 0x71, 0x3c, 0x6e],
            output: TelegramFrame {
                zv: 0,
                zw: 5,
                mp: 20483,
                pr: 0,
                ha: 1,
                ln: 11,
                kn: 45,
                zn: 7,
                zl: 1,
                junction: 512,
                junction_number: 0,
                request_status: 3,
            },
        },
    ]
}

fn expected(telegram: &TelegramFrame) -> R09Telegram {
    R09Telegram {
        r09_type: R09Type::R16,
        delay: Some((telegram.zv as i32 * -2i32 + 1i32) * (telegram.zw as i32)),
        reporting_point: telegram.mp,
        junction: telegram.junction,
        direction: telegram.junction_number as u8,
        request_status: telegram.request_status as u8,
        priority: Some(telegram.pr as u8),
        direction_request: Some(telegram.ha as u8),
        line: Some(telegram.ln),
        run_number: Some(telegram.kn),
        destination_number: Some(telegram.zn),
        train_length: Some(telegram.zl as u8),
        vehicle_number: None,
        operator: None,
    }
}

/// One element per bit, nine per byte: eight data bits, least significant
/// first, and a separator. The frame is followed by silence up to 21 bytes.
fn to_bits(frame: &[u8]) -> Vec<u8> {
    let mut bits = Vec::new();
    for index in 0..21 {
        let byte = if index < frame.len() { frame[index] } else { 0 };
        for bit in 0..8 {
            bits.push((byte >> bit) & 1);
        }
        bits.push(0);
    }
    bits
}

/// The decoded R09 records among the telegrams of one buffer.
fn r09_records(decoder: &Decoder, bits: &[u8]) -> Vec<R09Telegram> {
    let mut records = Vec::new();
    for telegram in decoder.process(bits) {
        if let Telegram::R09 { telegram: Some(record), .. } = telegram {
            records.push(record);
        }
    }
    records
}

#[test]
fn test_decode_valid_r09_16_telegrams() {
    let decoder = Decoder::new(true).expect("a decoder without tables always exists");
    let parsed = samples();
    for (i, item) in parsed.iter().enumerate() {
        let received = r09_records(&decoder, &to_bits(&item.frame));
        assert_eq!(received, vec![expected(&item.output)]);
        println!("{}/{} OK", i + 1, parsed.len());
    }
}

#[test]
fn test_decode_1bit_error_r09_16_telegrams() {
    let decoder = Decoder::new(false).expect("the code tells all light errors apart");
    let parsed = samples();
    let flips = [3usize, 17, 40, 71, 86];
    for (i, item) in parsed.iter().enumerate() {
        let mut frame = item.frame;
        frame[flips[i] / 8] ^= 1 << (flips[i] % 8);
        let received = r09_records(&decoder, &to_bits(&frame));
        assert_eq!(received, vec![expected(&item.output)]);
        println!("{}/{} OK", i + 1, parsed.len());
    }
}

#[test]
fn valid_frames_decode_alike_with_and_without_correction() {
    let exact = Decoder::new(true).unwrap();
    let correcting = Decoder::new(false).unwrap();
    for item in samples() {
        let bits = to_bits(&item.frame);
        assert_eq!(r09_records(&exact, &bits), r09_records(&correcting, &bits));
        assert_eq!(r09_records(&exact, &bits), vec![expected(&item.output)]);
    }
}

#[test]
fn every_single_bit_error_is_repaired() {
    let decoder = Decoder::new(false).unwrap();
    let item = &samples()[1];
    for bit in 0..88 {
        let mut frame = item.frame;
        frame[bit / 8] ^= 1 << (bit % 8);
        assert_eq!(
            r09_records(&decoder, &to_bits(&frame)),
            vec![expected(&item.output)],
            "bit {}",
            bit
        );
    }
}

#[test]
fn single_bit_error_is_lost_without_correction() {
    let decoder = Decoder::new(true).unwrap();
    let item = &samples()[0];
    let mut frame = item.frame;
    frame[4] ^= 0x20;
    assert_eq!(r09_records(&decoder, &to_bits(&frame)), vec![]);
}

#[test]
fn process_and_decode_agree() {
    let decoder = Decoder::new(true).unwrap();
    let bits = to_bits(&samples()[2].frame);
    assert_eq!(decoder.process(&bits), decoder.decode(&bits));
}

#[test]
fn too_short_a_buffer_gives_nothing() {
    let decoder = Decoder::new(true).unwrap();
    assert_eq!(decoder.decode(&[]), vec![]);
    // Four full symbols and most of a fifth: fewer than five bytes.
    assert_eq!(decoder.decode(&[1u8; 44]), vec![]);
}

#[test]
fn frame_needs_two_more_bytes_received() {
    let decoder = Decoder::new(true).unwrap();
    let item = &samples()[0];
    let bits = to_bits(&item.frame);
    // Twelve bytes received: frames of up to ten bytes are tried.
    assert_eq!(r09_records(&decoder, &bits[..12 * 9]), vec![]);
    // Thirteen bytes received: the frame of eleven bytes is tried.
    assert_eq!(r09_records(&decoder, &bits[..13 * 9]), vec![expected(&item.output)]);
}

#[test]
fn any_non_zero_element_is_a_set_bit() {
    let decoder = Decoder::new(true).unwrap();
    let item = &samples()[3];
    let mut bits = to_bits(&item.frame);
    for bit in bits.iter_mut() {
        if *bit != 0 {
            *bit = 200;
        }
    }
    assert_eq!(r09_records(&decoder, &bits), vec![expected(&item.output)]);
}

#[test]
fn separator_bit_is_ignored() {
    let decoder = Decoder::new(true).unwrap();
    let item = &samples()[4];
    let mut bits = to_bits(&item.frame);
    for symbol in 0..21 {
        bits[symbol * 9 + 8] = 1;
    }
    assert_eq!(r09_records(&decoder, &bits), vec![expected(&item.output)]);
}
