//! A ready-made mapping from raw note values to tones.

use vstd::prelude::*;
use crate::tone::Tone;

verus! {

/// The pitch that `c_major` gives a raw pitch: the raw values run through
/// C, D, E, F, G and A above middle C, and start over after them.
pub open spec fn c_major_pitch(raw: u8) -> u8 {
    let degree = raw as int % 6;
    if degree == 0 {
        60
    } else if degree == 1 {
        62
    } else if degree == 2 {
        64
    } else if degree == 3 {
        65
    } else if degree == 4 {
        67
    } else {
        69
    }
}

/// Maps a raw pitch onto the first six degrees of the C major scale, and
/// builds the tone as `Tone::new` does.
pub fn c_major(pitch: u8, duration: u8, volume: u8) -> (tone: Tone)
    ensures
        tone == Tone::spec_new(c_major_pitch(pitch), duration, volume),
{
    let degree: u8 = pitch % 6;
    let p: u8 = if degree == 0 {
        60
    } else if degree == 1 {
        62
    } else if degree == 2 {
        64
    } else if degree == 3 {
        65
    } else if degree == 4 {
        67
    } else {
        69
    };
    Tone::new(p, duration, volume)
}

} // verus!
