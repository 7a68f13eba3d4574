//! The textual forms of a melody: its frequencies as a JSON array, and as
//! an array declaration for a microcontroller sketch.

use vstd::prelude::*;
use vstd::string::StringExecFns;
use crate::frequency::{frequency_hz, hertz};
use crate::tone::{Melody, Tone};

verus! {

/// The most tones that the array declaration holds.
pub const MAX_DECLARED_TONES: usize = 100;

/// The frequencies of `units` in whole hertz, in the same order.
pub open spec fn frequencies(units: Seq<Tone>) -> Seq<u32> {
    Seq::new(units.len(), |i: int| hertz(units[i].pitch) as u32)
}

/// The character for a decimal digit.
pub open spec fn digit_char(digit: int) -> char {
    if digit == 0 {
        '0'
    } else if digit == 1 {
        '1'
    } else if digit == 2 {
        '2'
    } else if digit == 3 {
        '3'
    } else if digit == 4 {
        '4'
    } else if digit == 5 {
        '5'
    } else if digit == 6 {
        '6'
    } else if digit == 7 {
        '7'
    } else if digit == 8 {
        '8'
    } else {
        '9'
    }
}

/// A number in decimal notation, without leading zeros.
pub open spec fn decimal_digits(n: nat) -> Seq<char>
    decreases n,
{
    if n < 10 {
        seq![digit_char(n as int)]
    } else {
        decimal_digits(n / 10).push(digit_char((n % 10) as int))
    }
}

/// Numbers in decimal notation, with a comma and a space between each two.
pub open spec fn comma_separated(values: Seq<u32>) -> Seq<char>
    decreases values.len(),
{
    if values.len() == 0 {
        Seq::empty()
    } else if values.len() == 1 {
        decimal_digits(values[0] as nat)
    } else {
        comma_separated(values.drop_last()) + ", "@ + decimal_digits(values.last() as nat)
    }
}

/// The JSON array of `values`, ended by a line feed.
pub open spec fn json_text(values: Seq<u32>) -> Seq<char> {
    "["@ + comma_separated(values) + "]\n"@
}

/// The declaration of `values` as a count and an array of that size.
pub open spec fn arduino_text(values: Seq<u32>) -> Seq<char> {
    "int tone_count = "@ + decimal_digits(values.len()) + ";\nint tones["@ + decimal_digits(
        values.len(),
    ) + "] = {"@ + comma_separated(values) + "};\n"@
}

/// The text of one decimal digit.
fn digit_text(digit: u32) -> (text: &'static str)
    requires
        digit < 10,
    ensures
        text@ == seq![digit_char(digit as int)],
{
    proof {
        reveal_strlit("0");
        reveal_strlit("1");
        reveal_strlit("2");
        reveal_strlit("3");
        reveal_strlit("4");
        reveal_strlit("5");
        reveal_strlit("6");
        reveal_strlit("7");
        reveal_strlit("8");
        reveal_strlit("9");
    }
    let text = if digit == 0 {
        "0"
    } else if digit == 1 {
        "1"
    } else if digit == 2 {
        "2"
    } else if digit == 3 {
        "3"
    } else if digit == 4 {
        "4"
    } else if digit == 5 {
        "5"
    } else if digit == 6 {
        "6"
    } else if digit == 7 {
        "7"
    } else if digit == 8 {
        "8"
    } else {
        "9"
    };
    assert(text@ =~= seq![digit_char(digit as int)]);
    text
}

/// Appends `n` in decimal notation to `text`.
pub fn push_decimal(text: &mut String, n: u32)
    ensures
        final(text)@ == old(text)@ + decimal_digits(n as nat),
    decreases n,
{
    if n >= 10 {
        push_decimal(text, n / 10);
    }
    text.append(digit_text(n % 10));
    proof {
        if n >= 10 {
            assert(old(text)@ + decimal_digits((n / 10) as nat) + seq![
                digit_char((n % 10) as int),
            ] =~= old(text)@ + decimal_digits(n as nat));
        }
    }
}

/// Appends `values` in decimal notation to `text`, with a comma and a space
/// between each two.
pub fn push_comma_separated(text: &mut String, values: &Vec<u32>)
    ensures
        final(text)@ == old(text)@ + comma_separated(values@),
{
    let mut i: usize = 0;
    while i < values.len()
        invariant
            i <= values@.len(),
            text@ == old(text)@ + comma_separated(values@.take(i as int)),
        decreases values@.len() - i,
    {
        if i > 0 {
            text.append(", ");
        }
        push_decimal(text, values[i]);
        proof {
            let before = values@.take(i as int);
            let after = values@.take(i as int + 1);
            assert(after.drop_last() =~= before);
            assert(after.last() == values@[i as int]);
            if i > 0 {
                assert(old(text)@ + comma_separated(before) + ", "@ + decimal_digits(
                    values@[i as int] as nat,
                ) =~= old(text)@ + comma_separated(after));
            } else {
                assert(comma_separated(before) =~= Seq::<char>::empty());
                assert(after[0] == values@[0]);
                assert(old(text)@ + comma_separated(before) + decimal_digits(
                    values@[i as int] as nat,
                ) =~= old(text)@ + comma_separated(after));
            }
        }
        i += 1;
    }
    proof {
        assert(values@.take(values@.len() as int) =~= values@);
    }
}

/// The frequencies of a melody's tones in whole hertz, in the melody's
/// order.
pub fn frequency_list(melody: &Melody) -> (list: Vec<u32>)
    ensures
        list@ == frequencies(melody.units@),
{
    let mut list: Vec<u32> = Vec::new();
    let mut i: usize = 0;
    while i < melody.units.len()
        invariant
            i <= melody.units@.len(),
            list@ == frequencies(melody.units@.take(i as int)),
        decreases melody.units@.len() - i,
    {
        list.push(frequency_hz(melody.units[i].pitch));
        proof {
            assert(list@ =~= frequencies(melody.units@.take(i as int + 1)));
        }
        i += 1;
    }
    proof {
        assert(melody.units@.take(melody.units@.len() as int) =~= melody.units@);
    }
    list
}

/// The frequencies of a melody's first hundred tones in whole hertz, or of
/// all its tones where it has fewer.
pub fn limited_frequency_list(melody: &Melody) -> (list: Vec<u32>)
    ensures
        list@ == frequencies(melody.units@).take(
            if melody.units@.len() <= 100 {
                melody.units@.len() as int
            } else {
                100
            },
        ),
        list@.len() <= 100,
{
    let count: usize = if melody.units.len() <= MAX_DECLARED_TONES {
        melody.units.len()
    } else {
        MAX_DECLARED_TONES
    };
    let mut list: Vec<u32> = Vec::new();
    let mut i: usize = 0;
    while i < count
        invariant
            i <= count <= melody.units@.len(),
            list@ == frequencies(melody.units@).take(i as int),
        decreases count - i,
    {
        list.push(frequency_hz(melody.units[i].pitch));
        proof {
            assert(list@ =~= frequencies(melody.units@).take(i as int + 1));
        }
        i += 1;
    }
    list
}

/// A declaration of the melody's frequencies for a microcontroller sketch:
/// the number of tones, then an array of that size with the frequencies.
/// Tones past the hundredth are left out.
pub fn write_for_arduino(melody: &Melody) -> (text: String)
    ensures
        text@ == arduino_text(
            frequencies(melody.units@).take(
                if melody.units@.len() <= 100 {
                    melody.units@.len() as int
                } else {
                    100
                },
            ),
        ),
{
    let list = limited_frequency_list(melody);
    let mut text = String::new();
    text.append("int tone_count = ");
    push_decimal(&mut text, list.len() as u32);
    text.append(";\nint tones[");
    push_decimal(&mut text, list.len() as u32);
    text.append("] = {");
    push_comma_separated(&mut text, &list);
    text.append("};\n");
    proof {
        assert(text@ =~= arduino_text(list@));
    }
    text
}

/// The melody's frequencies as a JSON array on a line of its own.
pub fn write_for_json(melody: &Melody) -> (text: String)
    ensures
        text@ == json_text(frequencies(melody.units@)),
{
    let list = frequency_list(melody);
    let mut text = String::new();
    text.append("[");
    push_comma_separated(&mut text, &list);
    text.append("]\n");
    proof {
        assert(text@ =~= json_text(list@));
    }
    text
}

} // verus!
