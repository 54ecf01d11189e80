//! The error taxonomy surfaced to callers, and its classification into
//! broad categories (end of input, syntax, semantic, resource, transport).

use vstd::prelude::*;

verus! {

/// The broad category of an error, used by callers to decide whether an
/// input is permanently invalid (syntax or semantic) or whether retrying
/// could help (transport, end of input against a live stream).
#[derive(Debug, Copy, Clone, PartialEq, Eq, Structural)]
pub enum Category {
    Io,
    Syntax,
    Semantic,
    Eof,
    System,
}

/// Everything that can go wrong while decoding a stream.
///
/// Errors carry no byte offset by design; every error is fatal for the
/// decode operation that detected it.
#[derive(Debug, Copy, Clone, PartialEq, Eq, Structural)]
pub enum Error {
    /// A failure reported by a higher layer built on top of this decoder.
    Message,
    /// The input ended before a required byte was available.
    Eof,
    /// A header used one of the reserved argument selectors.
    ItemIllFormed,
    /// A break marker appeared where a value was required.
    UnexpectedBreak,
    /// A number was decoded but does not fit the requested width.
    NumberOutOfRange,
    ExpectedBool,
    ExpectedNumber,
    ExpectedBytes,
    ExpectedString,
    ExpectedArray,
    ExpectedMap,
    ExpectedSimple,
    ExpectedChar,
    /// A chunk inside an indefinite-length string had the wrong major type.
    IndefiniteStringInconsistent,
    /// A payload had to be copied but the scratch buffer cannot hold it.
    ScratchBufferTooSmall,
    /// A text payload was not well-formed UTF-8.
    InvalidUnicodeCodePoint,
    /// A simple value outside the recognized range was found.
    UnknownSimpleValue(u8),
    /// The underlying byte source failed.
    Io,
}

/// The category that an error belongs to.
pub open spec fn spec_classify(e: Error) -> Category {
    match e {
        Error::Message => Category::Semantic,
        Error::Eof => Category::Eof,
        Error::ItemIllFormed => Category::Syntax,
        Error::UnexpectedBreak => Category::Syntax,
        Error::IndefiniteStringInconsistent => Category::Syntax,
        Error::NumberOutOfRange => Category::Semantic,
        Error::ExpectedBool => Category::Semantic,
        Error::ExpectedNumber => Category::Semantic,
        Error::ExpectedBytes => Category::Semantic,
        Error::ExpectedString => Category::Semantic,
        Error::ExpectedArray => Category::Semantic,
        Error::ExpectedMap => Category::Semantic,
        Error::ExpectedSimple => Category::Semantic,
        Error::ExpectedChar => Category::Semantic,
        Error::ScratchBufferTooSmall => Category::System,
        Error::InvalidUnicodeCodePoint => Category::Semantic,
        Error::UnknownSimpleValue(_) => Category::Semantic,
        Error::Io => Category::Io,
    }
}

impl Error {
    /// Sorts the error into its category.
    pub fn classify(&self) -> (c: Category)
        ensures
            c == spec_classify(*self),
    {
        match self {
            Error::Message => Category::Semantic,
            Error::Eof => Category::Eof,
            Error::ItemIllFormed
            | Error::UnexpectedBreak
            | Error::IndefiniteStringInconsistent => Category::Syntax,
            Error::NumberOutOfRange
            | Error::ExpectedBool
            | Error::ExpectedNumber
            | Error::ExpectedBytes
            | Error::ExpectedString
            | Error::ExpectedArray
            | Error::ExpectedMap
            | Error::ExpectedSimple
            | Error::ExpectedChar
            | Error::InvalidUnicodeCodePoint
            | Error::UnknownSimpleValue(_) => Category::Semantic,
            Error::ScratchBufferTooSmall => Category::System,
            Error::Io => Category::Io,
        }
    }
}

} // verus!
