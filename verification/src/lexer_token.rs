//! Stateless classification of single characters into lexer tokens.
use vstd::prelude::*;

verus! {

/// The structural classes a character can fall into. Classification is a
/// pure function of the character; all lexer state lives elsewhere.
#[derive(PartialEq, Eq, Structural, Clone, Copy, Debug)]
pub enum LexerToken {
    Equals,
    Quote,
    LeftCurly,
    RightCurly,
    LeftParenthesis,
    RightParenthesis,
    Comment,
    Comma,
    Untyped,
}

/// The class of `c`: structural characters map to their own token, `#` and
/// `!` to `Comment`, `,` and `;` to `Comma`, everything else to `Untyped`.
pub open spec fn spec_token_of(c: char) -> LexerToken {
    if c == '=' {
        LexerToken::Equals
    } else if c == '"' {
        LexerToken::Quote
    } else if c == '{' {
        LexerToken::LeftCurly
    } else if c == '}' {
        LexerToken::RightCurly
    } else if c == '(' {
        LexerToken::LeftParenthesis
    } else if c == ')' {
        LexerToken::RightParenthesis
    } else if c == '#' || c == '!' {
        LexerToken::Comment
    } else if c == ',' || c == ';' {
        LexerToken::Comma
    } else {
        LexerToken::Untyped
    }
}

impl LexerToken {
    /// Classifies one character.
    pub fn from_char(c: char) -> (r: LexerToken)
        ensures
            r == spec_token_of(c),
    {
        match c {
            '=' => LexerToken::Equals,
            '"' => LexerToken::Quote,
            '{' => LexerToken::LeftCurly,
            '}' => LexerToken::RightCurly,
            '(' => LexerToken::LeftParenthesis,
            ')' => LexerToken::RightParenthesis,
            '#' => LexerToken::Comment,
            '!' => LexerToken::Comment,
            ',' => LexerToken::Comma,
            ';' => LexerToken::Comma,
            _ => LexerToken::Untyped,
        }
    }

    /// Does `c` classify as this token?
    pub fn equals_char(&self, c: char) -> (r: bool)
        ensures
            r == (spec_token_of(c) == *self),
    {
        LexerToken::from_char(c) == *self
    }
}

} // verus!
