use musicbytes::{c_major, map_to_notes, DecodeError, Duration, Melody, Tone};
use std::cell::Cell;

fn plain(pitch: u8, duration: u8, volume: u8) -> Tone {
    Tone { pitch, duration: Duration::from(duration), volume }
}

const SAMPLE: [u8; 20] = [
    0x9C, 0x5A, 0xE3, 0x17, 0x80, 0x01, 0xFE, 0x3C, 0xA5, 0x69, 0x00, 0xFF, 0x42, 0xD7, 0x8B,
    0x36, 0xC1, 0x7E, 0x2D, 0x94,
];

#[test]
fn fourteen_bytes_are_too_few() {
    let source = [0u8; 14];
    assert_eq!(map_to_notes(&source, c_major), Err(DecodeError::FileTooSmall));
}

#[test]
fn empty_source_is_too_small() {
    let source: [u8; 0] = [];
    assert_eq!(map_to_notes(&source, c_major), Err(DecodeError::FileTooSmall));
}

#[test]
fn too_small_source_never_reaches_the_mapping() {
    let calls = Cell::new(0u32);
    let counting = |p: u8, d: u8, v: u8| {
        calls.set(calls.get() + 1);
        Tone::new(p, d, v)
    };
    let source = [0xFFu8; 14];
    assert_eq!(map_to_notes(&source, counting), Err(DecodeError::FileTooSmall));
    assert_eq!(calls.get(), 0);
}

#[test]
fn fifteen_bytes_hold_six_notes() {
    let source = [0x5Au8; 15];
    let melody = map_to_notes(&source, c_major).unwrap();
    assert_eq!(melody.units.len(), 6);
}

#[test]
fn mapping_is_called_once_for_each_note() {
    let calls = Cell::new(0usize);
    let counting = |p: u8, d: u8, v: u8| {
        calls.set(calls.get() + 1);
        Tone::new(p, d, v)
    };
    let melody = map_to_notes(&SAMPLE, counting).unwrap();
    assert_eq!(calls.get(), melody.units.len());
    assert_eq!(calls.get(), 8);
}

#[test]
fn all_zero_source() {
    let source = [0u8; 15];
    let melody = map_to_notes(&source, plain).unwrap();
    assert_eq!(melody.bpm, 120);
    assert_eq!(melody.units.len(), 6);
    for tone in &melody.units {
        assert_eq!(*tone, Tone { pitch: 0, duration: Duration::Double, volume: 0 });
        assert_eq!(tone.volume as f32 / 256.0, 0.0);
    }
}

#[test]
fn all_zero_source_through_the_constructor() {
    let source = [0u8; 15];
    let melody = map_to_notes(&source, Tone::new).unwrap();
    assert_eq!(melody.bpm, 120);
    assert_eq!(melody.units.len(), 6);
    for tone in &melody.units {
        assert_eq!(*tone, Tone { pitch: 0, duration: Duration::Double, volume: 0 });
        assert_eq!(tone.volume as f32 / 256.0, 0.0);
    }
}

#[test]
fn all_zero_source_through_the_c_major_mapping() {
    let source = [0u8; 15];
    let melody = map_to_notes(&source, c_major).unwrap();
    assert_eq!(melody.bpm, 120);
    let expected = Tone { pitch: 60, duration: Duration::Double, volume: 0 };
    assert_eq!(melody.units, vec![expected; 6]);
}

#[test]
fn all_ones_source_of_sixteen_bytes() {
    let source = [0xFFu8; 16];
    let melody = map_to_notes(&source, plain).unwrap();
    assert_eq!(melody.bpm, 135);
    assert_eq!(melody.units.len(), 6);
    for tone in &melody.units {
        assert_eq!(*tone, Tone { pitch: 7, duration: Duration::ThirtySecond, volume: 255 });
    }
}

#[test]
fn tempo_stays_within_its_range() {
    for first in 0..=255u8 {
        let mut source = [0u8; 15];
        source[0] = first;
        let melody = map_to_notes(&source, c_major).unwrap();
        assert!(melody.bpm >= 120 && melody.bpm <= 239);
        assert_eq!(melody.bpm as u32, first as u32 % 120 + 120);
    }
}

#[test]
fn tempo_at_the_ends_of_its_range() {
    let mut source = [0u8; 15];
    source[0] = 119;
    assert_eq!(map_to_notes(&source, c_major).unwrap().bpm, 239);
    source[0] = 120;
    assert_eq!(map_to_notes(&source, c_major).unwrap().bpm, 120);
    source[0] = 240;
    assert_eq!(map_to_notes(&source, c_major).unwrap().bpm, 120);
}

#[test]
fn fields_are_read_most_significant_bit_first() {
    let raw = |p: u8, d: u8, v: u8| Tone { pitch: p, duration: Duration::from(d), volume: v };
    let melody = map_to_notes(&SAMPLE, raw).unwrap();
    assert_eq!(melody.bpm, 156);
    let expected: Vec<(u8, u8, u8)> = vec![
        (2, 13, 113),
        (2, 15, 0),
        (0, 15, 241),
        (1, 4, 173),
        (0, 0, 127),
        (0, 5, 175),
        (5, 9, 182),
        (2, 15, 197),
    ];
    assert_eq!(melody.units.len(), expected.len());
    for (tone, (p, d, v)) in melody.units.iter().zip(expected) {
        assert_eq!(tone.pitch, p);
        assert_eq!(tone.duration, Duration::from(d));
        assert_eq!(tone.volume, v);
    }
}

#[test]
fn raw_values_stay_within_their_widths() {
    let checking = |p: u8, d: u8, v: u8| {
        assert!(p < 8);
        assert!(d < 16);
        Tone::new(p, d, v)
    };
    let source: Vec<u8> = (0..=255u8).collect();
    let melody = map_to_notes(&source, checking).unwrap();
    assert_eq!(melody.units.len(), (8 * 256 - 9) / 18);
}

#[test]
fn the_last_bit_is_never_part_of_a_note() {
    // 8 + 18 * 7 = 134 bits would fit into 17 bytes but for the one bit
    // that is kept back: 17 bytes hold 136 bits, so seven notes fit.
    let seventeen = [0u8; 17];
    assert_eq!(map_to_notes(&seventeen, c_major).unwrap().units.len(), 7);
    // 8 + 18 * 8 = 152 bits are exactly 19 bytes; the eighth note would
    // end on the last bit, so only seven are read.
    let nineteen = [0u8; 19];
    assert_eq!(map_to_notes(&nineteen, c_major).unwrap().units.len(), 7);
    let twenty = [0u8; 20];
    assert_eq!(map_to_notes(&twenty, c_major).unwrap().units.len(), 8);
}

#[test]
fn three_bits_after_each_note_are_passed_over() {
    // Only the reserved bits of the first note are set: bits 23, 24, 25.
    let mut source = [0u8; 15];
    source[2] = 0b0000_0001;
    source[3] = 0b1100_0000;
    let melody = map_to_notes(&source, plain).unwrap();
    let silent = Tone { pitch: 0, duration: Duration::Double, volume: 0 };
    assert_eq!(melody.units, vec![silent; 6]);
    // The bit after them is the highest pitch bit of the second note.
    source[3] = 0b1110_0000;
    let melody = map_to_notes(&source, plain).unwrap();
    assert_eq!(melody.units[0], silent);
    assert_eq!(melody.units[1], Tone { pitch: 4, duration: Duration::Double, volume: 0 });
}

#[test]
fn decoding_the_same_source_twice_gives_the_same_melody() {
    let first: Melody = map_to_notes(&SAMPLE, c_major).unwrap();
    let second: Melody = map_to_notes(&SAMPLE, c_major).unwrap();
    assert_eq!(first, second);
}
