//! The errors that reading a document can end in.
use vstd::prelude::*;

verus! {

/// One of the three names that JSON spells out in letters.
#[derive(Debug, Clone, Copy, PartialEq, Eq, Hash)]
pub enum Literal {
    True,
    False,
    Null,
}

/// The broad classes of failure.
#[derive(Debug, Clone, Copy, PartialEq, Eq, Hash)]
pub enum JsonErrorKind {
    /// The input ended where the grammar still asks for bytes.
    UnexpectedEof,
    /// Brackets, separators or the order of values are wrong.
    InvalidStructure,
    /// A string token is malformed.
    InvalidString,
    /// A number token is malformed.
    InvalidNumber,
    /// The document nests deeper than the reader was told to accept.
    DepthExceeded,
}

/// Why a document was rejected.
#[derive(Debug, PartialEq, Eq, Hash)]
pub enum JsonError {
    /// The input ended where the grammar still asks for bytes.
    UnexpectedEof,
    /// A byte that cannot start a value stands where a value is expected.
    UnexpectedCharacter(u8),
    /// A `}` or `]` (the byte carried) that closes nothing that is open.
    UnmatchedClose(u8),
    /// The letters after `t`, `f` or `n` do not spell the expected name.
    InvalidLiteral { expected: Literal, found: Vec<u8> },
    /// A byte below `0x20` stands unescaped inside a string.
    ControlCharacter(u8),
    /// A backslash is followed by a byte that names no escape.
    InvalidEscape(u8),
    /// A `\u` escape holds a byte that is no hexadecimal digit.
    InvalidHexDigit(u8),
    /// A `\u` escape names a surrogate (the code unit carried) and no second
    /// `\u` escape follows it.
    LoneSurrogate(u32),
    /// A `\u` escape names a surrogate (the first code unit carried) and the
    /// `\u` escape behind it names a code unit (the second carried) that is
    /// no low surrogate.
    InvalidSurrogatePair(u32, u32),
    /// The bytes of a string are not well-formed UTF-8.
    InvalidUtf8,
    /// A number token breaks the grammar at the byte carried.
    InvalidNumber(u8),
    /// Something other than a string stands where an object key is expected.
    KeyNotString,
    /// An object key is not followed by `:`.
    MissingColon,
    /// A value inside an object or array is followed by neither `,` nor the
    /// closing bracket.
    MissingComma,
    /// A value was completed although the enclosing object or array had
    /// already announced its end.
    DanglingComma,
    /// A second value follows the one that makes up the document.
    TrailingContent,
    /// Opening one more object or array would nest deeper than the limit
    /// carried.
    DepthExceeded(usize),
}

/// The mathematical value of a [`JsonError`].
pub enum ErrorView {
    UnexpectedEof,
    UnexpectedCharacter(u8),
    UnmatchedClose(u8),
    InvalidLiteral { expected: Literal, found: Seq<u8> },
    ControlCharacter(u8),
    InvalidEscape(u8),
    InvalidHexDigit(u8),
    LoneSurrogate(u32),
    InvalidSurrogatePair(u32, u32),
    InvalidUtf8,
    InvalidNumber(u8),
    KeyNotString,
    MissingColon,
    MissingComma,
    DanglingComma,
    TrailingContent,
    DepthExceeded(usize),
}

impl ErrorView {
    /// The class that an error belongs to.
    pub open spec fn kind(self) -> JsonErrorKind {
        match self {
            ErrorView::UnexpectedEof => JsonErrorKind::UnexpectedEof,
            ErrorView::UnexpectedCharacter(_) => JsonErrorKind::InvalidStructure,
            ErrorView::UnmatchedClose(_) => JsonErrorKind::InvalidStructure,
            ErrorView::InvalidLiteral { .. } => JsonErrorKind::InvalidStructure,
            ErrorView::ControlCharacter(_) => JsonErrorKind::InvalidString,
            ErrorView::InvalidEscape(_) => JsonErrorKind::InvalidString,
            ErrorView::InvalidHexDigit(_) => JsonErrorKind::InvalidString,
            ErrorView::LoneSurrogate(_) => JsonErrorKind::InvalidString,
            ErrorView::InvalidSurrogatePair(_, _) => JsonErrorKind::InvalidString,
            ErrorView::InvalidUtf8 => JsonErrorKind::InvalidString,
            ErrorView::InvalidNumber(_) => JsonErrorKind::InvalidNumber,
            ErrorView::KeyNotString => JsonErrorKind::InvalidStructure,
            ErrorView::MissingColon => JsonErrorKind::InvalidStructure,
            ErrorView::MissingComma => JsonErrorKind::InvalidStructure,
            ErrorView::DanglingComma => JsonErrorKind::InvalidStructure,
            ErrorView::TrailingContent => JsonErrorKind::InvalidStructure,
            ErrorView::DepthExceeded(_) => JsonErrorKind::DepthExceeded,
        }
    }
}

impl View for JsonError {
    type V = ErrorView;

    open spec fn view(&self) -> ErrorView {
        match self {
            JsonError::UnexpectedEof => ErrorView::UnexpectedEof,
            JsonError::UnexpectedCharacter(c) => ErrorView::UnexpectedCharacter(*c),
            JsonError::UnmatchedClose(c) => ErrorView::UnmatchedClose(*c),
            JsonError::InvalidLiteral { expected, found } => ErrorView::InvalidLiteral {
                expected: *expected,
                found: found@,
            },
            JsonError::ControlCharacter(c) => ErrorView::ControlCharacter(*c),
            JsonError::InvalidEscape(c) => ErrorView::InvalidEscape(*c),
            JsonError::InvalidHexDigit(c) => ErrorView::InvalidHexDigit(*c),
            JsonError::LoneSurrogate(u) => ErrorView::LoneSurrogate(*u),
            JsonError::InvalidSurrogatePair(high, low) => ErrorView::InvalidSurrogatePair(
                *high,
                *low,
            ),
            JsonError::InvalidUtf8 => ErrorView::InvalidUtf8,
            JsonError::InvalidNumber(c) => ErrorView::InvalidNumber(*c),
            JsonError::KeyNotString => ErrorView::KeyNotString,
            JsonError::MissingColon => ErrorView::MissingColon,
            JsonError::MissingComma => ErrorView::MissingComma,
            JsonError::DanglingComma => ErrorView::DanglingComma,
            JsonError::TrailingContent => ErrorView::TrailingContent,
            JsonError::DepthExceeded(n) => ErrorView::DepthExceeded(*n),
        }
    }
}

impl Clone for JsonError {
    fn clone(&self) -> (copy: Self)
        ensures
            copy@ == self@,
    {
        match self {
            JsonError::UnexpectedEof => JsonError::UnexpectedEof,
            JsonError::UnexpectedCharacter(c) => JsonError::UnexpectedCharacter(*c),
            JsonError::UnmatchedClose(c) => JsonError::UnmatchedClose(*c),
            JsonError::InvalidLiteral { expected, found } => JsonError::InvalidLiteral {
                expected: *expected,
                found: vstd::slice::slice_to_vec(found.as_slice()),
            },
            JsonError::ControlCharacter(c) => JsonError::ControlCharacter(*c),
            JsonError::InvalidEscape(c) => JsonError::InvalidEscape(*c),
            JsonError::InvalidHexDigit(c) => JsonError::InvalidHexDigit(*c),
            JsonError::LoneSurrogate(unit) => JsonError::LoneSurrogate(*unit),
            JsonError::InvalidSurrogatePair(high, low) => JsonError::InvalidSurrogatePair(
                *high,
                *low,
            ),
            JsonError::InvalidUtf8 => JsonError::InvalidUtf8,
            JsonError::InvalidNumber(c) => JsonError::InvalidNumber(*c),
            JsonError::KeyNotString => JsonError::KeyNotString,
            JsonError::MissingColon => JsonError::MissingColon,
            JsonError::MissingComma => JsonError::MissingComma,
            JsonError::DanglingComma => JsonError::DanglingComma,
            JsonError::TrailingContent => JsonError::TrailingContent,
            JsonError::DepthExceeded(max) => JsonError::DepthExceeded(*max),
        }
    }
}

impl JsonError {
    /// The class that this error belongs to.
    pub fn kind(&self) -> (k: JsonErrorKind)
        ensures
            k == self@.kind(),
    {
        match self {
            JsonError::UnexpectedEof => JsonErrorKind::UnexpectedEof,
            JsonError::ControlCharacter(_)
            | JsonError::InvalidEscape(_)
            | JsonError::InvalidHexDigit(_)
            | JsonError::LoneSurrogate(_)
            | JsonError::InvalidSurrogatePair(_, _)
            | JsonError::InvalidUtf8 => JsonErrorKind::InvalidString,
            JsonError::InvalidNumber(_) => JsonErrorKind::InvalidNumber,
            JsonError::DepthExceeded(_) => JsonErrorKind::DepthExceeded,
            _ => JsonErrorKind::InvalidStructure,
        }
    }
}

} // verus!
