//! The names of the notes of an octave.

use vstd::prelude::*;
use vstd::string::StringExecFns;

verus! {

/// A note of the octave, by name. Sharps and flats are kept apart.
#[derive(Debug, Clone, Copy, PartialEq, Eq, Structural)]
pub enum Note {
    C,
    CSharp,
    DFlat,
    D,
    DSharp,
    EFlat,
    E,
    F,
    FSharp,
    GFlat,
    G,
    GSharp,
    AFlat,
    A,
    ASharp,
    BFlat,
    B,
}

/// The note with the given name in lower case, if there is one.
pub open spec fn note_named(name: Seq<char>) -> Option<Note> {
    if name == "c"@ {
        Some(Note::C)
    } else if name == "csharp"@ {
        Some(Note::CSharp)
    } else if name == "dflat"@ {
        Some(Note::DFlat)
    } else if name == "d"@ {
        Some(Note::D)
    } else if name == "dsharp"@ {
        Some(Note::DSharp)
    } else if name == "eflat"@ {
        Some(Note::EFlat)
    } else if name == "e"@ {
        Some(Note::E)
    } else if name == "f"@ {
        Some(Note::F)
    } else if name == "fsharp"@ {
        Some(Note::FSharp)
    } else if name == "gflat"@ {
        Some(Note::GFlat)
    } else if name == "g"@ {
        Some(Note::G)
    } else if name == "gsharp"@ {
        Some(Note::GSharp)
    } else if name == "aflat"@ {
        Some(Note::AFlat)
    } else if name == "a"@ {
        Some(Note::A)
    } else if name == "asharp"@ {
        Some(Note::ASharp)
    } else if name == "bflat"@ {
        Some(Note::BFlat)
    } else if name == "b"@ {
        Some(Note::B)
    } else {
        None
    }
}

/// The lower-case form that the standard library gives a text.
pub uninterp spec fn lowercase(text: Seq<char>) -> Seq<char>;

/// Calls `str::to_lowercase` of the standard library. Nothing is proved of
/// it: the contract only gives its result the name `lowercase`, as a
/// function of the text alone.
#[verifier::external_body]
fn to_lowercase(text: &str) -> (lower: String)
    ensures
        lower@ == lowercase(text@),
{
    text.to_lowercase()
}

/// Whether `key` reads as `text`.
fn is_text(key: &String, text: &str) -> (same: bool)
    ensures
        same == (key@ == text@),
{
    let other = String::from_str(text);
    *key == other
}

impl Note {
    /// The note with the given name, in whatever case it is written.
    /// `None` where the name is not that of a note.
    pub fn from_name(name: &str) -> (note: Option<Note>)
        ensures
            note == note_named(lowercase(name@)),
    {
        let lower = to_lowercase(name);
        Note::from_lowercase(lower.as_str())
    }

    /// The note with the given name in lower case, or `None` where the
    /// name is not that of a note.
    pub fn from_lowercase(name: &str) -> (note: Option<Note>)
        ensures
            note == note_named(name@),
    {
        if Note::is_name(name) {
            Some(Note::named(name))
        } else {
            None
        }
    }

    /// Whether `lower` is the name of a note, in lower case.
    pub fn is_name(lower: &str) -> (known: bool)
        ensures
            known == note_named(lower@).is_some(),
    {
        let key = String::from_str(lower);
        is_text(&key, "c")
            || is_text(&key, "csharp")
            || is_text(&key, "dflat")
            || is_text(&key, "d")
            || is_text(&key, "dsharp")
            || is_text(&key, "eflat")
            || is_text(&key, "e")
            || is_text(&key, "f")
            || is_text(&key, "fsharp")
            || is_text(&key, "gflat")
            || is_text(&key, "g")
            || is_text(&key, "gsharp")
            || is_text(&key, "aflat")
            || is_text(&key, "a")
            || is_text(&key, "asharp")
            || is_text(&key, "bflat")
            || is_text(&key, "b")
    }

    /// The note that `lower` names. Only the names of notes, in lower case,
    /// are accepted.
    pub fn named(lower: &str) -> (note: Note)
        requires
            note_named(lower@).is_some(),
        ensures
            note_named(lower@) == Some(note),
    {
        let key = String::from_str(lower);
        if is_text(&key, "c") {
            Note::C
        } else if is_text(&key, "csharp") {
            Note::CSharp
        } else if is_text(&key, "dflat") {
            Note::DFlat
        } else if is_text(&key, "d") {
            Note::D
        } else if is_text(&key, "dsharp") {
            Note::DSharp
        } else if is_text(&key, "eflat") {
            Note::EFlat
        } else if is_text(&key, "e") {
            Note::E
        } else if is_text(&key, "f") {
            Note::F
        } else if is_text(&key, "fsharp") {
            Note::FSharp
        } else if is_text(&key, "gflat") {
            Note::GFlat
        } else if is_text(&key, "g") {
            Note::G
        } else if is_text(&key, "gsharp") {
            Note::GSharp
        } else if is_text(&key, "aflat") {
            Note::AFlat
        } else if is_text(&key, "a") {
            Note::A
        } else if is_text(&key, "asharp") {
            Note::ASharp
        } else if is_text(&key, "bflat") {
            Note::BFlat
        } else {
            Note::B
        }
    }
}

} // verus!
