use musicbytes::{c_major, Duration, Note, Tone};

#[test]
fn duration_of_each_raw_value_in_the_table() {
    assert_eq!(Duration::from(0), Duration::Double);
    assert_eq!(Duration::from(1), Duration::Whole);
    assert_eq!(Duration::from(2), Duration::Half);
    assert_eq!(Duration::from(3), Duration::Quarter);
    assert_eq!(Duration::from(4), Duration::Eighth);
    assert_eq!(Duration::from(5), Duration::Sixteenth);
    assert_eq!(Duration::from(6), Duration::ThirtySecond);
    assert_eq!(Duration::from(7), Duration::SixtyFourth);
    assert_eq!(Duration::from(8), Duration::HundredTwentyEighth);
}

#[test]
fn duration_wraps_around_after_nine() {
    assert_eq!(Duration::from(9), Duration::Double);
    assert_eq!(Duration::from(15), Duration::ThirtySecond);
    assert_eq!(Duration::from(17), Duration::HundredTwentyEighth);
    assert_eq!(Duration::from(255), Duration::Quarter);
    for raw in 0..=255u8 {
        assert_eq!(Duration::from(raw), Duration::from(raw % 9));
    }
}

#[test]
fn beat_units_halve_along_the_table() {
    let units: Vec<u16> = (0..9u8).map(|raw| Duration::from(raw).beat_units()).collect();
    assert_eq!(units, vec![256, 128, 64, 32, 16, 8, 4, 2, 1]);
}

#[test]
fn new_tone_takes_its_duration_from_the_table_of_nine() {
    assert_eq!(Tone::new(60, 0, 0).duration, Duration::Double);
    assert_eq!(Tone::new(60, 1, 0).duration, Duration::Whole);
    assert_eq!(Tone::new(60, 2, 0).duration, Duration::Half);
    assert_eq!(Tone::new(60, 3, 0).duration, Duration::Quarter);
    assert_eq!(Tone::new(60, 4, 0).duration, Duration::Eighth);
    assert_eq!(Tone::new(60, 5, 0).duration, Duration::Sixteenth);
    assert_eq!(Tone::new(60, 6, 0).duration, Duration::ThirtySecond);
    assert_eq!(Tone::new(60, 7, 0).duration, Duration::SixtyFourth);
    assert_eq!(Tone::new(60, 8, 0).duration, Duration::HundredTwentyEighth);
}

#[test]
fn new_tone_wraps_its_duration_around_the_table() {
    assert_eq!(Tone::new(60, 9, 0).duration, Duration::Double);
    assert_eq!(Tone::new(60, 15, 0).duration, Duration::ThirtySecond);
    for raw in 0..=255u8 {
        assert_eq!(Tone::new(60, raw, 0).duration, Duration::from(raw));
    }
}

#[test]
fn new_tone_of_all_zero_raw_values() {
    assert_eq!(Tone::new(0, 0, 0), Tone { pitch: 0, duration: Duration::Double, volume: 0 });
}

#[test]
fn new_tone_keeps_pitch_and_volume() {
    let tone = Tone::new(69, 1, 200);
    assert_eq!(tone, Tone { pitch: 69, duration: Duration::Whole, volume: 200 });
    assert_eq!(tone.volume as f32 / 256.0, 0.78125);
}

#[test]
fn volume_stays_below_one() {
    let loudest = Tone::new(69, 0, 255);
    assert!((loudest.volume as f32 / 256.0) < 1.0);
    let silent = Tone::new(69, 0, 0);
    assert_eq!(silent.volume as f32 / 256.0, 0.0);
}

#[test]
fn c_major_runs_through_six_degrees() {
    let pitches: Vec<u8> = (0..8u8).map(|raw| c_major(raw, 0, 0).pitch).collect();
    assert_eq!(pitches, vec![60, 62, 64, 65, 67, 69, 60, 62]);
}

#[test]
fn c_major_builds_the_tone_as_new_does() {
    assert_eq!(c_major(5, 6, 77), Tone::new(69, 6, 77));
    assert_eq!(c_major(3, 1, 9), Tone { pitch: 65, duration: Duration::Whole, volume: 9 });
    assert_eq!(c_major(0, 0, 0), Tone { pitch: 60, duration: Duration::Double, volume: 0 });
}

#[test]
fn note_by_lower_case_name() {
    assert_eq!(Note::from_lowercase("c"), Some(Note::C));
    assert_eq!(Note::from_lowercase("csharp"), Some(Note::CSharp));
    assert_eq!(Note::from_lowercase("dflat"), Some(Note::DFlat));
    assert_eq!(Note::from_lowercase("d"), Some(Note::D));
    assert_eq!(Note::from_lowercase("dsharp"), Some(Note::DSharp));
    assert_eq!(Note::from_lowercase("eflat"), Some(Note::EFlat));
    assert_eq!(Note::from_lowercase("e"), Some(Note::E));
    assert_eq!(Note::from_lowercase("f"), Some(Note::F));
    assert_eq!(Note::from_lowercase("fsharp"), Some(Note::FSharp));
    assert_eq!(Note::from_lowercase("gflat"), Some(Note::GFlat));
    assert_eq!(Note::from_lowercase("g"), Some(Note::G));
    assert_eq!(Note::from_lowercase("gsharp"), Some(Note::GSharp));
    assert_eq!(Note::from_lowercase("aflat"), Some(Note::AFlat));
    assert_eq!(Note::from_lowercase("a"), Some(Note::A));
    assert_eq!(Note::from_lowercase("asharp"), Some(Note::ASharp));
    assert_eq!(Note::from_lowercase("bflat"), Some(Note::BFlat));
    assert_eq!(Note::from_lowercase("b"), Some(Note::B));
}

#[test]
fn lower_case_lookup_does_not_fold_case() {
    assert_eq!(Note::from_lowercase("C"), None);
    assert_eq!(Note::from_lowercase("CSharp"), None);
}

#[test]
fn note_by_name_in_any_case() {
    assert_eq!(Note::from_name("CSharp"), Some(Note::CSharp));
    assert_eq!(Note::from_name("BFLAT"), Some(Note::BFlat));
    assert_eq!(Note::from_name("g"), Some(Note::G));
    assert_eq!(Note::from_name("A"), Some(Note::A));
}

#[test]
fn names_of_notes_are_told_from_other_names() {
    assert!(Note::is_name("c"));
    assert!(Note::is_name("bflat"));
    assert!(Note::is_name("b"));
    assert!(!Note::is_name("B"));
    assert!(!Note::is_name("h"));
    assert!(!Note::is_name(""));
}

#[test]
fn note_that_a_name_stands_for() {
    assert_eq!(Note::named("c"), Note::C);
    assert_eq!(Note::named("fsharp"), Note::FSharp);
    assert_eq!(Note::named("bflat"), Note::BFlat);
    assert_eq!(Note::named("b"), Note::B);
}

#[test]
fn unknown_note_names() {
    assert_eq!(Note::from_name(""), None);
    assert_eq!(Note::from_name("h"), None);
    assert_eq!(Note::from_name("c sharp"), None);
    assert_eq!(Note::from_name("c#"), None);
    assert_eq!(Note::from_name("esharp"), None);
}
