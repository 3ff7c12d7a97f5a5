//! The error taxonomy: parse, write and internal failures, split per format.

use vstd::prelude::*;

verus! {

/// Names a `MawuValue` variant, for error reports that must say which
/// variant a serializer refused or expected.
#[derive(Clone, Copy, Debug, PartialEq, Eq, Structural)]
pub enum ValueKind {
    CSVObject,
    CSVArray,
    Object,
    Array,
    Uint,
    Int,
    Float,
    Text,
    Bool,
    Null,
}

/// Everything the JSON parser can reject, each variant carrying the
/// offending character where one is available.
#[derive(Clone, Copy, Debug, PartialEq, Eq, Structural)]
pub enum JsonParseError {
    /// A quote appeared where none may stand.
    UnescapedDoubleQuote,
    /// A string was still open when the input ended.
    UnterminatedQuote,
    /// A character that must be escaped appeared bare.
    UnescapedCharacter(char),
    /// A record separator appeared where none may stand.
    UnexpectedNewline,
    /// The input ended while a construct was still open.
    UnexpectedEndOfFile,
    /// A character that no grammar rule allows at this point.
    UnexpectedCharacter(char),
    /// One of `}`, `]`, `,`, `:` stood where a value was expected.
    InvalidStructuralToken(char),
    /// A character that cannot begin or continue the current token.
    InvalidCharacter(char),
    /// A backslash was followed by a character that names no escape,
    /// or a `\u` escape was malformed or a lone surrogate.
    InvalidEscapeSequence(char),
    /// An object member lacked the `:` between key and value.
    ExpectedColon,
    /// An object member began with something other than a string key.
    ExpectedKey,
    /// A value was expected and none was found.
    ExpectedValue,
    /// The input ended before the `}` closing an object.
    ExpectedEndOfObject,
    /// A `NaN` or `Infinity` spelling stood where a number was expected;
    /// carries the character that began it.
    InvalidNumber(char),
}

/// Everything the JSON serializer can reject: the variant that is not
/// JSON-legal.
#[derive(Clone, Copy, Debug, PartialEq, Eq, Structural)]
pub enum JsonWriteError {
    /// The supplied value is not a JSON value.
    NotJSON,
    /// The named variant cannot be written as JSON.
    NotJSONType(ValueKind),
}

/// The JSON side of the taxonomy.
#[derive(Clone, Copy, Debug, PartialEq, Eq, Structural)]
pub enum JsonError {
    ParseError(JsonParseError),
    WriteError(JsonWriteError),
}

/// Everything the CSV parser can reject.
#[derive(Clone, Copy, Debug, PartialEq, Eq, Structural)]
pub enum CsvParseError {
    /// A bare quote stood inside an unquoted field.
    UnescapedDoubleQuote,
    /// A quoted field was still open when the input ended.
    UnterminatedQuote,
    /// A character appeared bare that must be quoted.
    UnescapedCharacter(char),
    /// A row held more fields than the anchor record; carries the count.
    ExtraValue(usize),
    /// The header record could not be read.
    UnrecognizedHeader,
    /// A record separator appeared where none may stand.
    UnexpectedNewline,
}

/// Everything the CSV serializer can reject: the variant that is not
/// CSV-legal at the point where it stood.
#[derive(Clone, Copy, Debug, PartialEq, Eq, Structural)]
pub enum CsvWriteError {
    /// The supplied value is not a CSV value.
    NotCSV,
    /// The named variant cannot be written into a CSV cell or document.
    UnallowedType(ValueKind),
}

/// The CSV side of the taxonomy.
#[derive(Clone, Copy, Debug, PartialEq, Eq, Structural)]
pub enum CsvError {
    ParseError(CsvParseError),
    WriteError(CsvWriteError),
}

/// An invariant violation that well-formed calling code never triggers.
#[derive(Clone, Copy, Debug, PartialEq, Eq, Structural)]
pub enum MawuInternalError {
    /// The exclusive input cursor was unavailable.
    UnableToLockMasterMutex,
    /// A text fragment that must hold a character held none.
    StringWithNoChars,
    /// A `\u` escape could not be decoded.
    UnableToUnescapeUnicode(char),
}

/// The one error type that every fallible call of this crate returns.
#[derive(Clone, Copy, Debug, PartialEq, Eq, Structural)]
pub enum MawuError {
    CsvError(CsvError),
    JsonError(JsonError),
    InternalError(MawuInternalError),
}

} // verus!
