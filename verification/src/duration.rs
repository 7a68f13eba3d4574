//! Note lengths, counted in thirty-seconds of a beat.

use vstd::prelude::*;
use vstd::std_specs::convert::FromSpecImpl;

verus! {

/// How long a tone sounds, from two whole notes down to a hundred
/// twenty-eighth.
#[derive(Debug, Clone, Copy, PartialEq, Eq, Structural)]
pub enum Duration {
    Double,
    Whole,
    Half,
    Quarter,
    Eighth,
    Sixteenth,
    ThirtySecond,
    SixtyFourth,
    HundredTwentyEighth,
}

/// The number of categories a raw duration value wraps around.
pub const DURATION_CATEGORIES: u8 = 9;

impl Duration {
    /// The category at position `index` of the table, longest first.
    pub open spec fn at(index: int) -> Duration {
        if index == 0 {
            Duration::Double
        } else if index == 1 {
            Duration::Whole
        } else if index == 2 {
            Duration::Half
        } else if index == 3 {
            Duration::Quarter
        } else if index == 4 {
            Duration::Eighth
        } else if index == 5 {
            Duration::Sixteenth
        } else if index == 6 {
            Duration::ThirtySecond
        } else if index == 7 {
            Duration::SixtyFourth
        } else {
            Duration::HundredTwentyEighth
        }
    }

    /// The position of this category in the table, longest first.
    pub open spec fn index(self) -> int {
        match self {
            Duration::Double => 0,
            Duration::Whole => 1,
            Duration::Half => 2,
            Duration::Quarter => 3,
            Duration::Eighth => 4,
            Duration::Sixteenth => 5,
            Duration::ThirtySecond => 6,
            Duration::SixtyFourth => 7,
            Duration::HundredTwentyEighth => 8,
        }
    }

    /// The length of this category in thirty-seconds of a beat: the beat
    /// multiplier is `thirty_seconds() / 32`, so a quarter note (one beat)
    /// counts 32 and a double note (eight beats) counts 256.
    pub open spec fn thirty_seconds(self) -> int {
        match self {
            Duration::Double => 256,
            Duration::Whole => 128,
            Duration::Half => 64,
            Duration::Quarter => 32,
            Duration::Eighth => 16,
            Duration::Sixteenth => 8,
            Duration::ThirtySecond => 4,
            Duration::SixtyFourth => 2,
            Duration::HundredTwentyEighth => 1,
        }
    }

    /// The length of this category in thirty-seconds of a beat.
    pub fn beat_units(&self) -> (units: u16)
        ensures
            units == self.thirty_seconds(),
    {
        match self {
            Duration::Double => 256,
            Duration::Whole => 128,
            Duration::Half => 64,
            Duration::Quarter => 32,
            Duration::Eighth => 16,
            Duration::Sixteenth => 8,
            Duration::ThirtySecond => 4,
            Duration::SixtyFourth => 2,
            Duration::HundredTwentyEighth => 1,
        }
    }
}

impl From<u8> for Duration {
    /// Picks the category for a raw value; values past the table wrap
    /// around it.
    fn from(raw: u8) -> (duration: Duration) {
        let index: u8 = raw % DURATION_CATEGORIES;
        if index == 0 {
            Duration::Double
        } else if index == 1 {
            Duration::Whole
        } else if index == 2 {
            Duration::Half
        } else if index == 3 {
            Duration::Quarter
        } else if index == 4 {
            Duration::Eighth
        } else if index == 5 {
            Duration::Sixteenth
        } else if index == 6 {
            Duration::ThirtySecond
        } else if index == 7 {
            Duration::SixtyFourth
        } else {
            Duration::HundredTwentyEighth
        }
    }
}

impl FromSpecImpl<u8> for Duration {
    open spec fn obeys_from_spec() -> bool {
        true
    }

    open spec fn from_spec(raw: u8) -> Duration {
        Duration::at(raw as int % 9)
    }
}

} // verus!
