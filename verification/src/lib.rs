//! Lexical scanning for a small language: a position-tracking character
//! cursor and the rules that recognise numbers, identifiers, strings and
//! comments on top of it.
use vstd::prelude::*;

pub mod cursor;
pub mod comment;
pub mod ident;
pub mod number;
pub mod scanner;
pub mod string;

verus! {

/// Where the first character of a token stands: both counts start at zero.
#[derive(Debug, Clone, Copy, PartialEq, Eq, PartialOrd, Structural)]
pub struct Location {
    pub line: usize,
    pub column: usize,
}

/// The radix in which the digits of a number literal were written.
#[derive(Debug, Clone, Copy, PartialEq, Eq, PartialOrd, Structural)]
pub enum Base {
    Hexadecimal,
    Decimal,
    Binary,
}

/// The kinds of literal.
#[derive(Debug, Clone, Copy, PartialEq, Eq, PartialOrd, Structural)]
pub enum LiteralKind {
    /// A name. `keyword` is for a keyword table to set: scanning leaves it
    /// `false`.
    Ident { keyword: bool },
    Number(Base),
    String,
    Bool,
}

/// The kinds of token.
#[derive(Debug, Clone, Copy, PartialEq, Eq, PartialOrd, Structural)]
pub enum TokenKind {
    /// `+`
    Add,
    /// `-`
    Minus,
    /// `/`
    Divide,
    /// `*`
    Multiply,
    /// `%`
    Modulo,
    /// `.`
    Dot,
    /// `,`
    Comma,
    /// `;`
    Semicolon,
    /// `:`
    Colon,
    /// `(`
    LeftParen,
    /// `)`
    RightParen,
    /// `{`
    LeftBrace,
    /// `}`
    RightBrace,
    /// `[`
    LeftBracket,
    /// `]`
    RightBracket,
    /// `<`
    LessThan,
    /// `>`
    GreaterThan,
    /// `&`
    BitwiseAnd,
    /// `|`
    BitwiseOr,
    /// `!`
    Not,
    /// `=`
    Assign,
    /// An identifier, a number, a string or a boolean.
    Literal(LiteralKind),
    /// `<=`
    LessThanEqual,
    /// `>=`
    GreaterThanEqual,
    /// `==`
    Equal,
    /// `!=`
    NotEqual,
    /// `&&`
    And,
    /// `||`
    Or,
    /// A run of whitespace.
    Whitespace,
}

/// A classified span of source text.
#[derive(Debug, PartialEq, Eq, PartialOrd)]
pub struct Token {
    pub kind: TokenKind,
    /// The text of the token after decoding: escapes resolved, digit
    /// separators dropped.
    pub literal: String,
    /// Where the first character of the span stands.
    pub location: Location,
    /// Number of source characters in the span.
    pub length: usize,
}

impl Token {
    pub fn new(kind: TokenKind, literal: String, location: Location, length: usize) -> (token:
        Token)
        ensures
            token.kind == kind,
            token.literal == literal,
            token.location == location,
            token.length == length,
    {
        Token { kind, literal, location, length }
    }
}

/// The ways in which scanning a token can fail.
#[derive(Debug, Clone, Copy, PartialEq, Eq, PartialOrd, Structural)]
pub enum LexErrorKind {
    /// A leading `0` is followed by something that is neither a base
    /// letter, nor a digit, nor a separator.
    InvalidNumberBase,
    /// The first character cannot start an identifier.
    InvalidIdentifierStart,
    /// The text ended inside a string.
    UnterminatedString,
    /// A backslash in a string is followed by a character that names no
    /// escape.
    InvalidEscapeSequence,
    /// No token starts with this character.
    UnrecognizedCharacter,
    /// The text ended inside a block comment.
    UnterminatedBlockComment,
}

/// A failure and the location at which the failed token started.
#[derive(Debug, Clone, Copy, PartialEq, Eq, PartialOrd, Structural)]
pub struct LexError {
    pub kind: LexErrorKind,
    pub location: Location,
}

} // verus!
