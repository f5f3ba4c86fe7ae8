use telegram_decoder::crc::{crc16_remainder, unit_syndrome, unit_syndromes};
use telegram_decoder::demod::{bit_to_bytes, demodulate};

#[test]
fn eight_bits_least_significant_first() {
    assert_eq!(bit_to_bytes(&[1, 0, 0, 0, 0, 0, 0, 0]), 0x01);
    assert_eq!(bit_to_bytes(&[0, 0, 0, 0, 0, 0, 0, 1]), 0x80);
    assert_eq!(bit_to_bytes(&[1, 0, 0, 0, 1, 0, 0, 0]), 0x11);
    assert_eq!(bit_to_bytes(&[1, 1, 1, 1, 1, 1, 1, 1]), 0xff);
    assert_eq!(bit_to_bytes(&[0, 0, 0, 0, 0, 0, 0, 0]), 0x00);
    assert_eq!(bit_to_bytes(&[0, 7, 0, 255, 0, 0, 2, 0]), 0x4a);
}

#[test]
fn any_other_number_of_bits_is_zero() {
    assert_eq!(bit_to_bytes(&[]), 0);
    assert_eq!(bit_to_bytes(&[1, 1, 1, 1, 1, 1, 1]), 0);
    assert_eq!(bit_to_bytes(&[1, 1, 1, 1, 1, 1, 1, 1, 1]), 0);
}

#[test]
fn one_byte_per_nine_bits() {
    assert_eq!(demodulate(&[]), Vec::<u8>::new());
    assert_eq!(demodulate(&[1; 8]), Vec::<u8>::new());
    assert_eq!(demodulate(&[1; 9]), vec![0xff]);
    assert_eq!(demodulate(&[1; 17]), vec![0xff]);
    assert_eq!(demodulate(&[1; 18]), vec![0xff, 0xff]);
    let mut bits = vec![0u8; 27];
    bits[0] = 1;
    bits[8] = 1;
    bits[9 + 1] = 1;
    bits[18 + 7] = 1;
    assert_eq!(demodulate(&bits), vec![0x01, 0x02, 0x80]);
}

#[test]
fn at_most_twenty_one_bytes() {
    assert_eq!(demodulate(&[1; 21 * 9]).len(), 21);
    assert_eq!(demodulate(&[1; 2048]).len(), 21);
    assert_eq!(demodulate(&[1; 20 * 9 + 8]).len(), 20);
}

#[test]
fn residues_of_the_first_positions_are_the_powers_of_x() {
    for p in 0..16 {
        assert_eq!(unit_syndrome(p), 1 << p);
    }
    assert_eq!(unit_syndrome(16), 0x6f63);
    assert_eq!(unit_syndrome(17), 0xdec6);
    assert_eq!(unit_syndrome(18), 0xd2ef);
    assert_eq!(unit_syndromes(3), vec![1, 2, 4]);
}

#[test]
fn remainder_counts_positions_from_the_end() {
    assert_eq!(crc16_remainder(&vec![]), 0);
    assert_eq!(crc16_remainder(&vec![0, 0, 0, 0]), 0);
    // The most significant bit of the last byte has position 0.
    assert_eq!(crc16_remainder(&vec![0x80]), 1);
    assert_eq!(crc16_remainder(&vec![0x01]), 0x80);
    assert_eq!(crc16_remainder(&vec![0x80, 0x00]), 0x100);
    assert_eq!(crc16_remainder(&vec![0x80, 0x00, 0x00]), 0x6f63);
}

#[test]
fn remainder_adds_up_the_set_bits() {
    assert_eq!(crc16_remainder(&vec![0x80, 0x80]), 0x101);
    assert_eq!(crc16_remainder(&vec![0x80, 0x00, 0x80]), 0x6f63 ^ 1);
    let a = crc16_remainder(&vec![0x12, 0x34, 0x56, 0x78, 0x9a]);
    let b = crc16_remainder(&vec![0xf0, 0x0f, 0xaa, 0x55, 0x01]);
    let both =
        crc16_remainder(&vec![0x12 ^ 0xf0, 0x34 ^ 0x0f, 0x56 ^ 0xaa, 0x78 ^ 0x55, 0x9a ^ 0x01]);
    assert_eq!(both, a ^ b);
}

#[test]
fn remainder_of_a_frame_with_its_crc_is_zero() {
    // The CRC travels inverted.
    let wire = [0x91u8, 0x16, 0x00, 0x01, 0x00, 0x73, 0x01, 0x36, 0x52, 0x30, 0x99];
    let mut frame = wire.to_vec();
    frame[9] ^= 0xff;
    frame[10] ^= 0xff;
    assert_eq!(crc16_remainder(&frame), 0);
    assert_ne!(crc16_remainder(&wire.to_vec()), 0);
}
