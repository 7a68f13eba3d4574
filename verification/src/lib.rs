//! Data sonification: a byte sequence is read as a stream of bits, decoded
//! into a tempo and a sequence of tones, and rendered as audio samples or as
//! a table of frequencies.

pub mod bits;
pub mod decode;
pub mod duration;
pub mod frequency;
pub mod note;
pub mod scale;
pub mod synth;
pub mod text;
pub mod tone;

pub use bits::{pack_to_byte, BitCursor};
pub use decode::{map_to_notes, DecodeError};
pub use duration::Duration;
pub use frequency::frequency_hz;
pub use note::Note;
pub use scale::c_major;
pub use synth::{time_calc, write_melody, write_tone};
pub use text::{frequency_list, limited_frequency_list, write_for_arduino, write_for_json};
pub use tone::{Melody, Tone};
