//! The decoder: from a byte sequence to a melody.
//!
//! The source is read as a stream of bits. The first eight bits give the
//! tempo. After them come note records of eighteen bits each: three bits of
//! pitch, four of duration, eight of volume, and three that are passed over.
//! The last bit of the source is never part of a record.

use vstd::prelude::*;
use vstd::arithmetic::power2::lemma2_to64;
use crate::bits::{field, lemma_aligned_field, BitCursor};
use crate::tone::{Melody, Tone};

verus! {

/// The least number of bytes a source must have.
pub const MIN_FILE_SIZE: usize = 15;

/// The number of bits from the start of one note record to the next.
pub const BITS_PER_NOTE: u8 = 18;

/// The width of the tempo field.
pub const TEMPO_BITS: u8 = 8;

/// The width of the pitch field of a note record.
pub const PITCH_BITS: u8 = 3;

/// The width of the duration field of a note record.
pub const DURATION_BITS: u8 = 4;

/// The width of the volume field of a note record.
pub const VOLUME_BITS: u8 = 8;

/// The number of bits at the end of a note record that carry nothing.
pub const RESERVED_BITS: u8 = 3;

/// Why a source could not be decoded.
#[derive(Debug, Clone, Copy, PartialEq, Eq, Structural)]
pub enum DecodeError {
    /// The source has fewer than `MIN_FILE_SIZE` bytes.
    FileTooSmall,
}

/// The tempo that a source's first byte stands for, in beats per minute.
pub open spec fn tempo(source: Seq<u8>) -> int {
    source[0] as int % 120 + 120
}

/// The number of note records in a source.
pub open spec fn note_count(source: Seq<u8>) -> int {
    (8 * source.len() - 9) / 18
}

/// The bit at which note record `i` starts.
pub open spec fn note_start(i: int) -> int {
    8 + 18 * i
}

/// The raw pitch of note record `i`.
pub open spec fn raw_pitch(source: Seq<u8>, i: int) -> nat {
    field(source, note_start(i), 3)
}

/// The raw duration of note record `i`.
pub open spec fn raw_duration(source: Seq<u8>, i: int) -> nat {
    field(source, note_start(i) + 3, 4)
}

/// The raw volume of note record `i`.
pub open spec fn raw_volume(source: Seq<u8>, i: int) -> nat {
    field(source, note_start(i) + 7, 8)
}

/// Whether `melody` is what decoding `source` with the mapping `to_note`
/// may give: the tempo of the first byte, and one tone for each note record,
/// each a result of the mapping on that record's three raw values.
pub open spec fn decodes_to<F: Fn(u8, u8, u8) -> Tone>(
    source: Seq<u8>,
    to_note: F,
    melody: Melody,
) -> bool {
    &&& melody.bpm == tempo(source)
    &&& melody.units@.len() == note_count(source)
    &&& forall|i: int|
        0 <= i < note_count(source) ==> call_ensures(
            to_note,
            (
                raw_pitch(source, i) as u8,
                raw_duration(source, i) as u8,
                raw_volume(source, i) as u8,
            ),
            #[trigger] melody.units@[i],
        )
}

/// Decodes `source` into a melody, building each tone with `to_note`.
///
/// The mapping is only ever called with a raw pitch below 8 and a raw
/// duration below 16. For a source that is too small it is not called at
/// all, and so need not be callable.
pub fn map_to_notes<F: Fn(u8, u8, u8) -> Tone>(source: &[u8], to_note: F) -> (result: Result<
    Melody,
    DecodeError,
>)
    requires
        source@.len() >= 15 ==> forall|p: u8, d: u8, v: u8|
            p < 8 && d < 16 ==> call_requires(to_note, (p, d, v)),
    ensures
        source@.len() < 15 ==> result == Err::<Melody, DecodeError>(DecodeError::FileTooSmall),
        source@.len() >= 15 ==> (result matches Ok(melody) && decodes_to(
            source@,
            to_note,
            melody,
        )),
        result matches Ok(melody) ==> 120 <= melody.bpm <= 239,
{
    if source.len() < MIN_FILE_SIZE {
        return Err(DecodeError::FileTooSmall);
    }
    let mut cursor = BitCursor::new(source);
    let raw_tempo: u8 = cursor.read_bits(TEMPO_BITS).unwrap();
    proof {
        lemma_aligned_field(source@, 0, 8);
        lemma2_to64();
    }
    let bpm: u8 = raw_tempo % 120 + 120;
    let mut units: Vec<Tone> = Vec::new();
    while cursor.bits_left() > BITS_PER_NOTE as u128
        invariant
            source@.len() >= 15,
            cursor.source() == source@,
            cursor.offset() == note_start(units@.len() as int),
            cursor.remaining() >= 1,
            forall|p: u8, d: u8, v: u8| p < 8 && d < 16 ==> call_requires(to_note, (p, d, v)),
            forall|i: int|
                0 <= i < units@.len() ==> call_ensures(
                    to_note,
                    (
                        raw_pitch(source@, i) as u8,
                        raw_duration(source@, i) as u8,
                        raw_volume(source@, i) as u8,
                    ),
                    #[trigger] units@[i],
                ),
        decreases cursor.remaining(),
    {
        let pitch: u8 = cursor.read_bits(PITCH_BITS).unwrap();
        let duration: u8 = cursor.read_bits(DURATION_BITS).unwrap();
        let volume: u8 = cursor.read_bits(VOLUME_BITS).unwrap();
        cursor.skip(RESERVED_BITS);
        proof {
            lemma2_to64();
        }
        let tone = to_note(pitch, duration, volume);
        units.push(tone);
    }
    Ok(Melody { bpm, units })
}

/// The tempo of any source lies between 120 and 239 beats per minute.
pub proof fn lemma_tempo_range(source: Seq<u8>)
    requires
        source.len() >= 1,
    ensures
        120 <= tempo(source) <= 239,
{
}

/// The note records of a source are all those that end before its last
/// bit: the last record does, and one more would not. A source of the
/// least size holds six.
pub proof fn lemma_note_count(source: Seq<u8>)
    requires
        source.len() >= 15,
    ensures
        note_count(source) >= 6,
        note_start(note_count(source)) <= 8 * source.len() - 1,
        note_start(note_count(source) + 1) > 8 * source.len() - 1,
        source.len() == 15 ==> note_count(source) == 6,
{
}

} // verus!
