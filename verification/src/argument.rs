//! Reading a predicate's value from the text of its argument.

use vstd::prelude::*;
use crate::number::{decimal, parse_decimal};
use crate::track::TrackFileType;

verus! {

impl View for TrackFileType {
    type V = TrackFileType;

    open spec fn view(&self) -> TrackFileType {
        *self
    }
}

/// A type of value that a predicate can hold and that can be read from text.
pub trait FromArgument: View + Sized {
    /// What `text` reads as; `None` where it cannot be read.
    spec fn read(text: Seq<char>) -> Option<Self::V>;

    /// Reads a value from an argument's text.
    fn from_argument(text: &str) -> (value: Option<Self>)
        ensures
            value is Some <==> Self::read(text@) is Some,
            value matches Some(v) ==> Self::read(text@) == Some(v@),
    ;
}

impl FromArgument for String {
    /// Any text is itself a string.
    open spec fn read(text: Seq<char>) -> Option<Seq<char>> {
        Some(text)
    }

    fn from_argument(text: &str) -> (value: Option<String>) {
        Some(text.to_owned())
    }
}

impl FromArgument for i64 {
    /// Signed decimal text.
    open spec fn read(text: Seq<char>) -> Option<i64> {
        decimal(text)
    }

    fn from_argument(text: &str) -> (value: Option<i64>) {
        parse_decimal(text)
    }
}

impl FromArgument for TrackFileType {
    /// The short name of a format.
    open spec fn read(text: Seq<char>) -> Option<TrackFileType> {
        TrackFileType::named(text)
    }

    fn from_argument(text: &str) -> (value: Option<TrackFileType>) {
        TrackFileType::from_text(text)
    }
}

} // verus!
