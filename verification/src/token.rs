//! CSS token types (CSS Syntax Level 3, §4 "Tokenization").
//!
//! Tokens own their text. A numeric token keeps the textual
//! representation of its number (`repr`), from which its value is read.

use vstd::prelude::*;

verus! {

/// The `type` flag attached to numeric tokens: whether the token's
/// representation looked like an integer or used a decimal point / exponent.
#[derive(Debug, Clone, Copy, PartialEq, Eq, Structural)]
pub enum NumericType {
    Integer,
    Number,
}

#[derive(Debug, Clone, PartialEq, Eq)]
pub enum Token {
    Ident(String),
    Function(String),
    AtKeyword(String),
    /// `#foo` — `is_id` is true when the hash's name would itself be a
    /// valid identifier (the "id" type flag vs. "unrestricted").
    Hash { value: String, is_id: bool },
    String(String),
    /// An unterminated string (an unescaped newline appeared before the
    /// closing quote). Still a valid, non-fatal token.
    BadString,
    /// `url(...)` in its bare/unquoted form. `url("x")` tokenizes as a
    /// `Function("url")` token followed by a `String` token instead.
    Url(String),
    /// A `url(...)` whose contents couldn't be tokenized.
    BadUrl,
    /// A single code point that didn't start any other token.
    Delim(char),
    /// A number; `repr` is its text exactly as written (e.g. "1.50", "1e2").
    Number { num_type: NumericType, repr: String },
    Percentage { repr: String },
    Dimension { num_type: NumericType, unit: String, repr: String },
    Whitespace,
    /// `<!--`
    Cdo,
    /// `-->`
    Cdc,
    Colon,
    Semicolon,
    Comma,
    LeftSquare,
    RightSquare,
    LeftParen,
    RightParen,
    LeftCurly,
    RightCurly,
}

/// The mathematical value of a [`Token`]: the same shape, with each string
/// taken as its sequence of characters.
pub enum SpecToken {
    Ident(Seq<char>),
    Function(Seq<char>),
    AtKeyword(Seq<char>),
    Hash { value: Seq<char>, is_id: bool },
    String(Seq<char>),
    BadString,
    Url(Seq<char>),
    BadUrl,
    Delim(char),
    Number { num_type: NumericType, repr: Seq<char> },
    Percentage { repr: Seq<char> },
    Dimension { num_type: NumericType, unit: Seq<char>, repr: Seq<char> },
    Whitespace,
    Cdo,
    Cdc,
    Colon,
    Semicolon,
    Comma,
    LeftSquare,
    RightSquare,
    LeftParen,
    RightParen,
    LeftCurly,
    RightCurly,
}

impl View for Token {
    type V = SpecToken;

    open spec fn view(&self) -> SpecToken {
        match self {
            Token::Ident(s) => SpecToken::Ident(s@),
            Token::Function(s) => SpecToken::Function(s@),
            Token::AtKeyword(s) => SpecToken::AtKeyword(s@),
            Token::Hash { value, is_id } => SpecToken::Hash { value: value@, is_id: *is_id },
            Token::String(s) => SpecToken::String(s@),
            Token::BadString => SpecToken::BadString,
            Token::Url(s) => SpecToken::Url(s@),
            Token::BadUrl => SpecToken::BadUrl,
            Token::Delim(c) => SpecToken::Delim(*c),
            Token::Number { num_type, repr } => SpecToken::Number { num_type: *num_type, repr: repr@ },
            Token::Percentage { repr } => SpecToken::Percentage { repr: repr@ },
            Token::Dimension { num_type, unit, repr } => SpecToken::Dimension {
                num_type: *num_type,
                unit: unit@,
                repr: repr@,
            },
            Token::Whitespace => SpecToken::Whitespace,
            Token::Cdo => SpecToken::Cdo,
            Token::Cdc => SpecToken::Cdc,
            Token::Colon => SpecToken::Colon,
            Token::Semicolon => SpecToken::Semicolon,
            Token::Comma => SpecToken::Comma,
            Token::LeftSquare => SpecToken::LeftSquare,
            Token::RightSquare => SpecToken::RightSquare,
            Token::LeftParen => SpecToken::LeftParen,
            Token::RightParen => SpecToken::RightParen,
            Token::LeftCurly => SpecToken::LeftCurly,
            Token::RightCurly => SpecToken::RightCurly,
        }
    }
}

impl SpecToken {
    /// One of the three bracket tokens a simple block can start with.
    pub open spec fn is_open_bracket(self) -> bool {
        self is LeftCurly || self is LeftSquare || self is LeftParen
    }
}

impl Token {
    /// True for the bracket-opening tokens a "simple block" can start with
    /// (CSS Syntax Level 3 §5.4.7).
    pub fn is_block_open(&self) -> (r: bool)
        ensures
            r == self@.is_open_bracket(),
    {
        match self {
            Token::LeftCurly | Token::LeftSquare | Token::LeftParen => true,
            _ => false,
        }
    }

    /// The closing bracket that ends a block opened by this token.
    pub fn matching_close(&self) -> (r: Option<Token>)
        ensures
            r is Some <==> self@.is_open_bracket(),
            self@ is LeftCurly ==> r == Some(Token::RightCurly),
            self@ is LeftSquare ==> r == Some(Token::RightSquare),
            self@ is LeftParen ==> r == Some(Token::RightParen),
    {
        match self {
            Token::LeftCurly => Some(Token::RightCurly),
            Token::LeftSquare => Some(Token::RightSquare),
            Token::LeftParen => Some(Token::RightParen),
            _ => None,
        }
    }

    /// A copy of this token.
    pub fn duplicate(&self) -> (r: Token)
        ensures
            r@ == self@,
    {
        match self {
            Token::Ident(s) => Token::Ident(s.clone()),
            Token::Function(s) => Token::Function(s.clone()),
            Token::AtKeyword(s) => Token::AtKeyword(s.clone()),
            Token::Hash { value, is_id } => Token::Hash { value: value.clone(), is_id: *is_id },
            Token::String(s) => Token::String(s.clone()),
            Token::BadString => Token::BadString,
            Token::Url(s) => Token::Url(s.clone()),
            Token::BadUrl => Token::BadUrl,
            Token::Delim(c) => Token::Delim(*c),
            Token::Number { num_type, repr } => Token::Number { num_type: *num_type, repr: repr.clone() },
            Token::Percentage { repr } => Token::Percentage { repr: repr.clone() },
            Token::Dimension { num_type, unit, repr } => Token::Dimension {
                num_type: *num_type,
                unit: unit.clone(),
                repr: repr.clone(),
            },
            Token::Whitespace => Token::Whitespace,
            Token::Cdo => Token::Cdo,
            Token::Cdc => Token::Cdc,
            Token::Colon => Token::Colon,
            Token::Semicolon => Token::Semicolon,
            Token::Comma => Token::Comma,
            Token::LeftSquare => Token::LeftSquare,
            Token::RightSquare => Token::RightSquare,
            Token::LeftParen => Token::LeftParen,
            Token::RightParen => Token::RightParen,
            Token::LeftCurly => Token::LeftCurly,
            Token::RightCurly => Token::RightCurly,
        }
    }
}

} // verus!
