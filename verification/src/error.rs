//! What can go wrong during resolution.

use vstd::prelude::*;

verus! {

/// Why resolution failed.
#[derive(Clone, Copy, Debug, PartialEq, Eq, Structural, Hash)]
pub enum Error {
    /// The link has no object file at all.
    NoInputFiles,
    /// A section of mergeable strings ends in a string without a terminator.
    UnterminatedString,
    /// An object lists a section of mergeable strings whose slot is in another state.
    ExpectedMergeStringsSlot,
    /// An undefined symbol of an object is a local one; only global symbols
    /// may be undefined.
    UndefinedLocalSymbol,
    /// There is more input than can be counted.
    TooLarge,
}

impl Error {
    /// The message for the error.
    pub fn message(&self) -> (r: &'static str)
        ensures
            r@ == Error::text(*self)@,
    {
        match self {
            Error::NoInputFiles => "Cannot link with 0 input files",
            Error::UnterminatedString => "String in merge-string section is not null-terminated",
            Error::ExpectedMergeStringsSlot => "Internal error: expected SectionSlot::MergeStrings",
            Error::UndefinedLocalSymbol => "Only globals should be undefined",
            Error::TooLarge => "The input is too large",
        }
    }

    /// The message for the error.
    pub open spec fn text(error: Error) -> &'static str {
        match error {
            Error::NoInputFiles => "Cannot link with 0 input files",
            Error::UnterminatedString => "String in merge-string section is not null-terminated",
            Error::ExpectedMergeStringsSlot => "Internal error: expected SectionSlot::MergeStrings",
            Error::UndefinedLocalSymbol => "Only globals should be undefined",
            Error::TooLarge => "The input is too large",
        }
    }
}

} // verus!
