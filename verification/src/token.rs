//! Tokens, their mathematical models, and lexing faults.

use vstd::prelude::*;

use crate::token_type::TokenType;

verus! {

/// A token produced by the tokenizer. Payload-bearing variants carry the
/// literal's value; `Symbol` carries a structural, keyword or operator kind.
#[derive(PartialEq, Eq, Debug)]
pub enum Token {
    Name(String),
    Number(i32),
    String(String),
    Char(char),
    Symbol(TokenType),
}

/// The mathematical value of a token: spellings as character sequences,
/// numbers as unbounded integers. Contracts speak of this model.
pub ghost enum TokenModel {
    Name(Seq<char>),
    Number(int),
    Str(Seq<char>),
    Char(char),
    Symbol(TokenType),
}

/// The model of a concrete token.
pub open spec fn token_model(t: Token) -> TokenModel {
    match t {
        Token::Name(s) => TokenModel::Name(s@),
        Token::Number(n) => TokenModel::Number(n as int),
        Token::String(s) => TokenModel::Str(s@),
        Token::Char(c) => TokenModel::Char(c),
        Token::Symbol(k) => TokenModel::Symbol(k),
    }
}

/// The kind a token maps to: payload-bearing variants map to their
/// literal-family marker, `Symbol(k)` maps to `k`.
pub open spec fn kind_of_model(m: TokenModel) -> TokenType {
    match m {
        TokenModel::Name(_) => TokenType::NAME,
        TokenModel::Number(_) => TokenType::NUMBER,
        TokenModel::Str(_) => TokenType::STRING,
        TokenModel::Char(_) => TokenType::CHAR,
        TokenModel::Symbol(k) => k,
    }
}

impl Token {
    /// The kind of this token.
    pub fn token_type(&self) -> (k: TokenType)
        ensures
            k == kind_of_model(token_model(*self)),
    {
        match self {
            Token::Name(_) => TokenType::NAME,
            Token::Number(_) => TokenType::NUMBER,
            Token::String(_) => TokenType::STRING,
            Token::Char(_) => TokenType::CHAR,
            Token::Symbol(k) => *k,
        }
    }
}

/// Why a literal scan faulted. Every fault is reported to the caller as a
/// value; the tokenizer itself never aborts.
#[derive(Clone, Copy, PartialEq, Eq, Debug, Structural)]
pub enum LexErrorKind {
    /// End of input inside a character literal: after the opening quote,
    /// inside an escape sequence, or where the closing quote was expected.
    UnterminatedCharacterLiteral,
    /// The escape introducer was followed by a character that is not a key
    /// of the escape table.
    InvalidEscapeCharacter,
    /// The character where the closing quote of a character literal was
    /// expected is not a quote: more than one content character.
    MalformedCharacterLiteral,
    /// End of input before the closing quote of a string literal.
    UnterminatedStringLiteral,
    /// A decimal literal does not fit a 32-bit signed integer.
    NumericLiteralOverflow,
}

/// A lexing fault: its kind, and the character offset into the source at
/// which it was detected.
#[derive(Clone, Copy, PartialEq, Eq, Debug, Structural)]
pub struct LexError {
    pub kind: LexErrorKind,
    pub at: usize,
}

} // verus!
