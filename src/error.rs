use crate::text::{push_char, push_text};
use vstd::prelude::*;

verus! {

/// The cause of a parse failure.
#[derive(Debug, Clone, Copy, PartialEq, Eq, Structural)]
pub enum ErrorKind {
    /// Input ended where a value was expected.
    UnexpectedEnd,
    /// A value cannot start with this character.
    UnexpectedChar(char),
    /// A literal (`null`, `true`, `false`) expected one character and found another.
    LiteralMismatch { expected: char, found: char },
    /// A literal was cut short by the end of input.
    LiteralAtEnd { expected: char },
    /// A string has no closing quote.
    UnterminatedString,
    /// Input ended inside an escape sequence.
    UnterminatedEscape,
    /// A backslash is followed by a character that starts no escape.
    InvalidEscape(char),
    /// A `\u` escape has bad hex digits or an unpaired surrogate.
    InvalidUnicodeEscape,
    /// A number has no digit where its integer part should start.
    ExpectedDigit,
    /// A number starts with `0` followed by another digit.
    LeadingZero,
    /// A decimal point is not followed by a digit.
    ExpectedFractionDigit,
    /// An exponent marker is not followed by a digit.
    ExpectedExponentDigit,
    /// A `,` is followed directly by the closing bracket or brace.
    TrailingComma,
    /// An array element is followed by something other than `,` or `]`.
    ExpectedCommaOrBracket(char),
    /// Input ended inside an array.
    UnterminatedArray,
    /// An object member does not start with a string key.
    ExpectedKey(char),
    /// An object key is not followed by `:`.
    ExpectedColon(char),
    /// An object member is followed by something other than `,` or `}`.
    ExpectedCommaOrBrace(char),
    /// Input ended inside an object.
    UnterminatedObject,
    /// Something other than whitespace follows a complete document.
    TrailingCharacters,
    /// Arrays and objects nest deeper than the parser allows.
    TooDeep,
}

/// A parse failure: its cause, a message, and the offset (in characters) at
/// which it was found.
#[derive(Debug)]
pub struct ParseError {
    pub message: String,
    pub position: usize,
    pub kind: ErrorKind,
}

/// `prefix`, then the character `c`, then `suffix`.
pub open spec fn around(prefix: Seq<char>, c: char, suffix: Seq<char>) -> Seq<char> {
    prefix + seq![c] + suffix
}

/// The message that goes with each kind of failure; it names the characters
/// that the kind carries.
pub open spec fn message_of(k: ErrorKind) -> Seq<char> {
    match k {
        ErrorKind::UnexpectedEnd => "unexpected end of input"@,
        ErrorKind::UnexpectedChar(c) => around("unexpected character: "@, c, ""@),
        ErrorKind::LiteralMismatch { expected, found } => around(
            around("Expected '"@, expected, "', found '"@),
            found,
            "'"@,
        ),
        ErrorKind::LiteralAtEnd { expected } => around("Expected '"@, expected, "', found end of input"@),
        ErrorKind::UnterminatedString => "unterminated string"@,
        ErrorKind::UnterminatedEscape => "unterminated escape sequence"@,
        ErrorKind::InvalidEscape(c) => around("invalid escape sequence: \\"@, c, ""@),
        ErrorKind::InvalidUnicodeEscape => "invalid unicode escape"@,
        ErrorKind::ExpectedDigit => "expected digit after minus sign or invalid number"@,
        ErrorKind::LeadingZero => "leading zero not allowed"@,
        ErrorKind::ExpectedFractionDigit => "expected digit after decimal point"@,
        ErrorKind::ExpectedExponentDigit => "expected digit in exponent"@,
        ErrorKind::TrailingComma => "unexpected trailing comma"@,
        ErrorKind::ExpectedCommaOrBracket(c) => around("expected ',' or ']' in array, found '"@, c, "'"@),
        ErrorKind::UnterminatedArray => "unterminated array"@,
        ErrorKind::ExpectedKey(c) => around("expected string key in object, found '"@, c, "'"@),
        ErrorKind::ExpectedColon(c) => around("expected ':' after object key, found '"@, c, "'"@),
        ErrorKind::ExpectedCommaOrBrace(c) => around("expected ',' or '}' in object, found '"@, c, "'"@),
        ErrorKind::UnterminatedObject => "unterminated object"@,
        ErrorKind::TrailingCharacters => "unexpected trailing characters"@,
        ErrorKind::TooDeep => "arrays and objects nest too deeply"@,
    }
}

/// Appends `prefix`, then `c`, then `suffix`.
fn push_around(out: &mut String, prefix: &str, c: char, suffix: &str)
    ensures
        final(out)@ == old(out)@ + around(prefix@, c, suffix@),
{
    push_text(out, prefix);
    push_char(out, c);
    push_text(out, suffix);
    assert(out@ =~= old(out)@ + around(prefix@, c, suffix@));
}

/// The text `prefix`, then `c`, then `suffix`.
fn text_around(prefix: &str, c: char, suffix: &str) -> (r: String)
    ensures
        r@ == around(prefix@, c, suffix@),
{
    let mut out = String::new();
    push_around(&mut out, prefix, c, suffix);
    assert(out@ =~= around(prefix@, c, suffix@));
    out
}

impl ErrorKind {
    /// The message for this kind of failure.
    pub fn message(&self) -> (r: String)
        ensures
            r@ == message_of(*self),
    {
        match self {
            ErrorKind::UnexpectedEnd => "unexpected end of input".to_owned(),
            ErrorKind::UnexpectedChar(c) => text_around("unexpected character: ", *c, ""),
            ErrorKind::LiteralMismatch { expected, found } => {
                let mut out = text_around("Expected '", *expected, "', found '");
                push_char(&mut out, *found);
                push_text(&mut out, "'");
                assert(out@ =~= message_of(*self));
                out
            },
            ErrorKind::LiteralAtEnd { expected } => text_around("Expected '", *expected, "', found end of input"),
            ErrorKind::UnterminatedString => "unterminated string".to_owned(),
            ErrorKind::UnterminatedEscape => "unterminated escape sequence".to_owned(),
            ErrorKind::InvalidEscape(c) => text_around("invalid escape sequence: \\", *c, ""),
            ErrorKind::InvalidUnicodeEscape => "invalid unicode escape".to_owned(),
            ErrorKind::ExpectedDigit => "expected digit after minus sign or invalid number".to_owned(),
            ErrorKind::LeadingZero => "leading zero not allowed".to_owned(),
            ErrorKind::ExpectedFractionDigit => "expected digit after decimal point".to_owned(),
            ErrorKind::ExpectedExponentDigit => "expected digit in exponent".to_owned(),
            ErrorKind::TrailingComma => "unexpected trailing comma".to_owned(),
            ErrorKind::ExpectedCommaOrBracket(c) => text_around("expected ',' or ']' in array, found '", *c, "'"),
            ErrorKind::UnterminatedArray => "unterminated array".to_owned(),
            ErrorKind::ExpectedKey(c) => text_around("expected string key in object, found '", *c, "'"),
            ErrorKind::ExpectedColon(c) => text_around("expected ':' after object key, found '", *c, "'"),
            ErrorKind::ExpectedCommaOrBrace(c) => text_around("expected ',' or '}' in object, found '", *c, "'"),
            ErrorKind::UnterminatedObject => "unterminated object".to_owned(),
            ErrorKind::TrailingCharacters => "unexpected trailing characters".to_owned(),
            ErrorKind::TooDeep => "arrays and objects nest too deeply".to_owned(),
        }
    }
}

impl ParseError {
    /// Builds the error for `kind` found at offset `position`.
    pub fn new(kind: ErrorKind, position: usize) -> (r: ParseError)
        ensures
            r.kind == kind,
            r.position == position,
            r.message@ == message_of(kind),
    {
        ParseError { message: kind.message(), position, kind }
    }
}

} // verus!
