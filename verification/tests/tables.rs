use std::collections::HashMap;
use std::collections::HashSet;
use telegram_decoder::crc::{crc16_remainder, unit_syndromes};
use telegram_decoder::framer::{frame_candidate, repair, uninverted_frame, RepairedTelegram};
use telegram_decoder::pattern::{
    count_bits, flip_bit, pair_pattern, position, single_pattern, triple_pattern,
};
use telegram_decoder::table::build_table;

fn table_for(len: usize) -> HashMap<u64, Vec<u8>> {
    build_table(&unit_syndromes(8 * len), len).expect("the code tells all light errors apart")
}

/// Checks that every pattern of one or two bits stands in the table under
/// its own syndrome, computed from scratch.
fn light_patterns_are_entered(len: usize) {
    let table = table_for(len);
    let mut seen = HashSet::new();
    for i in 0..8 * len {
        let pattern = single_pattern(len, i);
        let syndrome = crc16_remainder(&pattern);
        assert_ne!(syndrome, 0);
        assert!(seen.insert(syndrome), "length {}: bit {} repeats a syndrome", len, i);
        assert_eq!(table.get(&syndrome), Some(&pattern));
    }
    for i in 0..8 * len {
        for j in i + 1..8 * len {
            let pattern = pair_pattern(len, i, j);
            let syndrome = crc16_remainder(&pattern);
            assert_ne!(syndrome, 0);
            assert!(seen.insert(syndrome), "length {}: bits {}, {} repeat a syndrome", len, i, j);
            assert_eq!(table.get(&syndrome), Some(&pattern));
        }
    }
    if len >= 14 {
        assert_eq!(table.len(), seen.len());
    }
}

#[test]
fn light_patterns_are_entered_lengths_5_to_9() {
    for len in 5..10 {
        light_patterns_are_entered(len);
    }
}

#[test]
fn light_patterns_are_entered_lengths_10_to_13() {
    for len in 10..14 {
        light_patterns_are_entered(len);
    }
}

#[test]
fn light_patterns_are_entered_lengths_14_to_16() {
    for len in 14..17 {
        light_patterns_are_entered(len);
    }
}

#[test]
fn light_patterns_are_entered_lengths_17_to_18() {
    for len in 17..19 {
        light_patterns_are_entered(len);
    }
}

#[test]
fn light_patterns_are_entered_lengths_19_to_20() {
    for len in 19..21 {
        light_patterns_are_entered(len);
    }
}

#[test]
fn light_patterns_are_entered_length_21() {
    light_patterns_are_entered(21);
}

#[test]
fn table_sizes() {
    // 40 one-bit and 780 two-bit patterns; of the 9880 three-bit patterns
    // 9036 are alone with a syndrome that no lighter pattern has.
    assert_eq!(table_for(5).len(), 40 + 780 + 9036);
    assert_eq!(table_for(13).len(), 104 + 5356 + 9396);
    assert_eq!(table_for(14).len(), 112 + 6216);
}

#[test]
fn three_bit_patterns_alone_with_their_syndrome_are_entered() {
    let len = 5;
    let table = table_for(len);
    let mut count: HashMap<u64, u32> = HashMap::new();
    for i in 0..8 * len {
        for j in i + 1..8 * len {
            for k in j + 1..8 * len {
                *count.entry(crc16_remainder(&triple_pattern(len, i, j, k))).or_insert(0) += 1;
            }
        }
    }
    let mut entered = 0;
    let mut shared = 0;
    let mut taken = 0;
    for i in 0..8 * len {
        for j in i + 1..8 * len {
            for k in j + 1..8 * len {
                let pattern = triple_pattern(len, i, j, k);
                let syndrome = crc16_remainder(&pattern);
                match table.get(&syndrome) {
                    Some(found) if count_bits(found) < 3 => taken += 1,
                    Some(found) => {
                        assert_eq!(found, &pattern);
                        assert_eq!(count[&syndrome], 1);
                        entered += 1;
                    }
                    None => {
                        assert!(count[&syndrome] > 1);
                        shared += 1;
                    }
                }
            }
        }
    }
    assert_eq!(entered, 9036);
    assert_eq!(taken, 100);
    assert_eq!(entered + shared + taken, 9880);
}

#[test]
fn long_frames_have_no_three_bit_entries() {
    let table = table_for(14);
    for pattern in table.values() {
        assert!(count_bits(pattern) <= 2);
        assert_eq!(pattern.len(), 14);
    }
}

#[test]
fn entries_stand_under_their_own_syndrome() {
    let table = table_for(6);
    for (syndrome, pattern) in table.iter() {
        assert_eq!(crc16_remainder(pattern), *syndrome);
        assert_eq!(pattern.len(), 6);
        let weight = count_bits(pattern);
        assert!(1 <= weight && weight <= 3);
    }
}

#[test]
fn residues_that_repeat_give_no_table() {
    // Two bits with one residue cannot be told apart.
    assert!(build_table(&[1, 2, 4, 8, 16, 32, 64, 1], 1).is_none());
    // A bit whose residue is the sum of two others looks like both of them.
    assert!(build_table(&[1, 2, 3, 8, 16, 32, 64, 128], 1).is_none());
    // Two pairs with one sum.
    assert!(build_table(&[1, 2, 4, 7, 16, 32, 64, 128], 1).is_none());
}

#[test]
fn table_of_a_toy_code() {
    // One byte, every bit with a residue of its own power of two: all
    // patterns have different syndromes, so every pattern of up to three
    // bits is entered.
    let units = [1u64, 2, 4, 8, 16, 32, 64, 128];
    let table = build_table(&units, 1).unwrap();
    assert_eq!(table.len(), 8 + 28 + 56);
    // Bit 0 of the byte has position 7.
    assert_eq!(position(1, 0), 7);
    assert_eq!(table.get(&128), Some(&vec![0x01]));
    assert_eq!(table.get(&1), Some(&vec![0x80]));
    assert_eq!(table.get(&(128 | 1)), Some(&vec![0x81]));
    assert_eq!(table.get(&(64 | 32 | 2)), Some(&vec![0x46]));
    assert_eq!(table.get(&15), None);
    assert_eq!(table.get(&0), None);
}

#[test]
fn a_syndrome_of_a_lighter_pattern_keeps_the_lighter_pattern() {
    // The last residue is the sum of the first six, so a pair with it has
    // the syndrome of patterns of five bits, and of no triple.
    let units = [1u64, 2, 4, 8, 16, 32, 64, 127];
    let table = build_table(&units, 1).unwrap();
    assert_eq!(table.get(&(127 ^ 64)), Some(&vec![0x03]));
    assert_eq!(table.get(&(127 ^ 1)), Some(&vec![0x81]));
    for (syndrome, pattern) in table.iter() {
        let mut sum = 0;
        for i in 0..8 {
            if pattern[0] & (1 << i) != 0 {
                sum ^= units[position(1, i)];
            }
        }
        assert_eq!(sum, *syndrome);
    }
}

#[test]
fn a_syndrome_of_two_triples_is_dropped() {
    // The positions 0, 1 and 2 have the syndrome 7, and so have the
    // positions 3, 4 and 7: 8 ^ 16 ^ 31.
    let units = [1u64, 2, 4, 8, 16, 32, 64, 31];
    let table = build_table(&units, 1).unwrap();
    assert_eq!(table.get(&7), None);
    assert_eq!(table.get(&11), None);
    // The positions 0, 1 and 6 are alone with the syndrome 67.
    assert_eq!(table.get(&67), Some(&vec![0xc2]));
    assert_eq!(table.len(), 8 + 28 + 36);
}

fn repaired_payload(table: &HashMap<u64, Vec<u8>>, wire: &[u8]) -> Option<RepairedTelegram> {
    frame_candidate(table, wire, wire.len())
}

const WIRE: [u8; 11] = [0x91, 0xb6, 0x12, 0x34, 0x90, 0x04, 0x12, 0x10, 0x10, 0xe1, 0xd2];

#[test]
fn valid_frame_passes_with_any_table() {
    let full = table_for(11);
    let empty = HashMap::new();
    let expected = Some(RepairedTelegram { data: WIRE[..9].to_vec(), number_of_bits_repaired: 0 });
    assert_eq!(repaired_payload(&full, &WIRE), expected);
    assert_eq!(repaired_payload(&empty, &WIRE), expected);
}

#[test]
fn one_flipped_bit_is_repaired_everywhere() {
    let table = table_for(11);
    for bit in 0..88 {
        let mut wire = WIRE.to_vec();
        flip_bit(&mut wire, bit);
        assert_eq!(
            repaired_payload(&table, &wire),
            Some(RepairedTelegram { data: WIRE[..9].to_vec(), number_of_bits_repaired: 1 })
        );
        assert_eq!(repaired_payload(&HashMap::new(), &wire), None);
    }
}

#[test]
fn two_flipped_bits_are_repaired_everywhere() {
    let table = table_for(11);
    for i in 0..88 {
        for j in i + 1..88 {
            let mut wire = WIRE.to_vec();
            flip_bit(&mut wire, i);
            flip_bit(&mut wire, j);
            assert_eq!(
                repaired_payload(&table, &wire),
                Some(RepairedTelegram { data: WIRE[..9].to_vec(), number_of_bits_repaired: 2 }),
                "bits {}, {}",
                i,
                j
            );
        }
    }
}

#[test]
fn two_flipped_bits_are_repaired_in_the_longest_frame() {
    let table = table_for(21);
    let mut valid = vec![0u8; 21];
    // The zero frame is valid; on the wire its CRC is inverted.
    valid[19] = 0xff;
    valid[20] = 0xff;
    assert_eq!(repaired_payload(&table, &valid).unwrap().number_of_bits_repaired, 0);
    for i in [0usize, 9, 77, 150] {
        for j in i + 1..168 {
            let mut wire = valid.clone();
            flip_bit(&mut wire, i);
            flip_bit(&mut wire, j);
            assert_eq!(
                repaired_payload(&table, &wire),
                Some(RepairedTelegram { data: vec![0u8; 19], number_of_bits_repaired: 2 })
            );
        }
    }
}

#[test]
fn three_flipped_bits_are_repaired_or_dropped_or_mistaken_for_less() {
    let len = 11;
    let table = table_for(len);
    let mut right = 0;
    let mut dropped = 0;
    let mut mistaken = 0;
    for i in (0..88).step_by(5) {
        for j in (i + 1..88).step_by(3) {
            for k in j + 1..88 {
                let mut wire = WIRE.to_vec();
                flip_bit(&mut wire, i);
                flip_bit(&mut wire, j);
                flip_bit(&mut wire, k);
                match repaired_payload(&table, &wire) {
                    None => dropped += 1,
                    Some(found) if found.number_of_bits_repaired == 3 => {
                        assert_eq!(found.data, WIRE[..9].to_vec());
                        right += 1;
                    }
                    Some(found) => {
                        // The syndrome is that of a lighter pattern.
                        assert!(found.number_of_bits_repaired < 3);
                        mistaken += 1;
                    }
                }
            }
        }
    }
    assert!(right > 0 && dropped > 0 && mistaken > 0);
}

#[test]
fn three_bits_with_the_syndrome_of_two_are_taken_for_the_two() {
    // In a frame of five bytes the bits 0, 8 and 13 have the syndrome of the
    // bits 16 and 30.
    let len = 5;
    let table = table_for(len);
    let three = triple_pattern(len, 0, 8, 13);
    let two = pair_pattern(len, 16, 30);
    assert_eq!(crc16_remainder(&three), crc16_remainder(&two));
    assert_eq!(table.get(&crc16_remainder(&three)), Some(&two));
}

#[test]
fn three_flipped_bits_are_never_repaired_in_long_frames() {
    let table = table_for(14);
    let mut valid = vec![0u8; 14];
    valid[12] = 0xff;
    valid[13] = 0xff;
    for k in 2..112 {
        let mut wire = valid.clone();
        flip_bit(&mut wire, 0);
        flip_bit(&mut wire, 1);
        flip_bit(&mut wire, k);
        match repaired_payload(&table, &wire) {
            None => {}
            Some(found) => assert!(found.number_of_bits_repaired < 3),
        }
    }
}

#[test]
fn repair_reports_the_weight_of_the_pattern() {
    let mut table = HashMap::new();
    table.insert(7u64, vec![0x00, 0xf0, 0x01]);
    let frame = vec![0x12, 0x34, 0x56];
    assert_eq!(
        repair(&table, &frame, 7),
        Some(RepairedTelegram { data: vec![0x12], number_of_bits_repaired: 5 })
    );
    table.insert(9u64, vec![0x81, 0x00, 0x00]);
    assert_eq!(
        repair(&table, &frame, 9),
        Some(RepairedTelegram { data: vec![0x93], number_of_bits_repaired: 2 })
    );
    assert_eq!(
        repair(&table, &frame, 0),
        Some(RepairedTelegram { data: vec![0x12], number_of_bits_repaired: 0 })
    );
    assert_eq!(repair(&table, &frame, 8), None);
}

#[test]
fn only_the_first_bytes_make_the_frame() {
    let mut bytes = WIRE.to_vec();
    bytes.extend_from_slice(&[0x55, 0xaa, 0x00]);
    assert_eq!(
        frame_candidate(&HashMap::new(), &bytes, 11),
        Some(RepairedTelegram { data: WIRE[..9].to_vec(), number_of_bits_repaired: 0 })
    );
    assert_eq!(frame_candidate(&HashMap::new(), &bytes, 12), None);
}

#[test]
fn crc_is_inverted_back_before_it_is_checked() {
    assert_eq!(uninverted_frame(&[1, 2, 3, 4, 5], 4), vec![1, 2, 0xfc, 0xfb]);
    assert_eq!(uninverted_frame(&[0xff, 0x00], 2), vec![0x00, 0xff]);
}

#[test]
fn patterns_set_the_bits_they_name() {
    assert_eq!(single_pattern(3, 0), vec![0x01, 0, 0]);
    assert_eq!(single_pattern(3, 23), vec![0, 0, 0x80]);
    assert_eq!(pair_pattern(3, 1, 9), vec![0x02, 0x02, 0]);
    assert_eq!(triple_pattern(2, 0, 7, 8), vec![0x81, 0x01]);
    assert_eq!(count_bits(&vec![0xff, 0x01, 0x00, 0x80]), 10);
    // Bit 0 of the first byte is the eighth position from the front.
    assert_eq!(position(3, 0), 23);
    assert_eq!(position(3, 7), 16);
    assert_eq!(position(3, 23), 0);
}
