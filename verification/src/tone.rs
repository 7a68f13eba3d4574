//! Tones and melodies: what the decoder produces and the renderers consume.

use vstd::prelude::*;
use crate::duration::Duration;
use crate::frequency::{frequency_hz, hertz};

verus! {

/// One musical event.
///
/// The frequency of a tone is not stored: it follows from the pitch alone.
#[derive(Debug, Clone, Copy, PartialEq, Eq, Structural)]
pub struct Tone {
    /// Position on the equal-tempered scale, in semitones.
    pub pitch: u8,
    /// How long the tone sounds.
    pub duration: Duration,
    /// Loudness in 256ths of full scale: the normalized volume is
    /// `volume / 256`, which lies in `[0, 1)`.
    pub volume: u8,
}

/// A tempo and the tones to play at it, in order.
#[derive(Debug, Clone, PartialEq, Eq)]
pub struct Melody {
    /// Beats per minute.
    pub bpm: u8,
    /// The tones, first to last.
    pub units: Vec<Tone>,
}

impl Tone {
    /// The frequency of the tone in hertz, with its fraction cut off.
    pub fn frequency(&self) -> (hz: u32)
        ensures
            hz == hertz(self.pitch),
    {
        frequency_hz(self.pitch)
    }

    /// The tone that `new` builds from a pitch and two raw values.
    pub open spec fn spec_new(pitch: u8, dur: u8, vol: u8) -> Tone {
        Tone { pitch, duration: Duration::at(dur as int % 9), volume: vol }
    }

    /// A tone of the given pitch. The raw duration selects its category
    /// from the table of nine, wrapping around it; the raw volume is kept
    /// as it is.
    pub fn new(pitch: u8, dur: u8, vol: u8) -> (tone: Tone)
        ensures
            tone == Tone::spec_new(pitch, dur, vol),
    {
        Tone { pitch, duration: Duration::from(dur), volume: vol }
    }
}

} // verus!
