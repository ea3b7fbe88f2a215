//! Tokens and their kinds.

use core::ops::Range;
use vstd::prelude::*;

verus! {

/// Kind of a token.
#[derive(Debug, Clone, Copy, PartialEq, Eq, Structural)]
pub enum TokenKind {
    Error,
    /// Not actually emitted by the lexer, but used by the parser to signal that it reached
    /// EOF without having to wrap the `TokenKind` in an [`Option<T>`].
    EndOfFile,
    // Metadata
    Comment,
    Newline,
    // Literals
    Integer,
    Decimal,
    Character,
    String,
    Tag,
    // Names
    Identifier,
    Operator,
    // Punctuators
    LParen,
    RParen,
    LBracket,
    RBracket,
    LBrace,
    RBrace,
    Comma,
    Semicolon,
    // Keywords
    And,
    Break,
    Default,
    Do,
    Effect,
    Else,
    Fun,
    Handle,
    If,
    Interface,
    Internal,
    Is,
    Let,
    Match,
    Module,
    Mut,
    Or,
    SetKeyword,
    Then,
    Underscore,
    Use,
    Var,
    While,
    With,
    // Reserved operators
    Dot,
    Colon,
    Equals,
    Pipe,
    Ampersand,
    At,
    Arrow,
}

/// A single token, representing a specific lexical construct at a given source span.
///
/// [`Token`]s do not store any information about the contents of the source span. The
/// lexer will only read characters and categorise them into tokens without trying to parse
/// them into usable data.
#[derive(PartialEq, Eq, Debug)]
pub struct Token {
    pub kind: TokenKind,
    pub range: Range<usize>,
}

/// How many kinds of token there are.
pub const CARDINALITY: usize = 50;

impl TokenKind {
    /// Position of the kind in the declaration of [`TokenKind`].
    pub open spec fn ordinal(self) -> int {
        match self {
            TokenKind::Error => 0,
            TokenKind::EndOfFile => 1,
            TokenKind::Comment => 2,
            TokenKind::Newline => 3,
            TokenKind::Integer => 4,
            TokenKind::Decimal => 5,
            TokenKind::Character => 6,
            TokenKind::String => 7,
            TokenKind::Tag => 8,
            TokenKind::Identifier => 9,
            TokenKind::Operator => 10,
            TokenKind::LParen => 11,
            TokenKind::RParen => 12,
            TokenKind::LBracket => 13,
            TokenKind::RBracket => 14,
            TokenKind::LBrace => 15,
            TokenKind::RBrace => 16,
            TokenKind::Comma => 17,
            TokenKind::Semicolon => 18,
            TokenKind::And => 19,
            TokenKind::Break => 20,
            TokenKind::Default => 21,
            TokenKind::Do => 22,
            TokenKind::Effect => 23,
            TokenKind::Else => 24,
            TokenKind::Fun => 25,
            TokenKind::Handle => 26,
            TokenKind::If => 27,
            TokenKind::Interface => 28,
            TokenKind::Internal => 29,
            TokenKind::Is => 30,
            TokenKind::Let => 31,
            TokenKind::Match => 32,
            TokenKind::Module => 33,
            TokenKind::Mut => 34,
            TokenKind::Or => 35,
            TokenKind::SetKeyword => 36,
            TokenKind::Then => 37,
            TokenKind::Underscore => 38,
            TokenKind::Use => 39,
            TokenKind::Var => 40,
            TokenKind::While => 41,
            TokenKind::With => 42,
            TokenKind::Dot => 43,
            TokenKind::Colon => 44,
            TokenKind::Equals => 45,
            TokenKind::Pipe => 46,
            TokenKind::Ampersand => 47,
            TokenKind::At => 48,
            TokenKind::Arrow => 49,
        }
    }

    /// Position of the kind in the declaration of [`TokenKind`].
    pub fn index(self) -> (index: usize)
        ensures
            index == self.ordinal(),
            index < CARDINALITY,
    {
        match self {
            TokenKind::Error => 0,
            TokenKind::EndOfFile => 1,
            TokenKind::Comment => 2,
            TokenKind::Newline => 3,
            TokenKind::Integer => 4,
            TokenKind::Decimal => 5,
            TokenKind::Character => 6,
            TokenKind::String => 7,
            TokenKind::Tag => 8,
            TokenKind::Identifier => 9,
            TokenKind::Operator => 10,
            TokenKind::LParen => 11,
            TokenKind::RParen => 12,
            TokenKind::LBracket => 13,
            TokenKind::RBracket => 14,
            TokenKind::LBrace => 15,
            TokenKind::RBrace => 16,
            TokenKind::Comma => 17,
            TokenKind::Semicolon => 18,
            TokenKind::And => 19,
            TokenKind::Break => 20,
            TokenKind::Default => 21,
            TokenKind::Do => 22,
            TokenKind::Effect => 23,
            TokenKind::Else => 24,
            TokenKind::Fun => 25,
            TokenKind::Handle => 26,
            TokenKind::If => 27,
            TokenKind::Interface => 28,
            TokenKind::Internal => 29,
            TokenKind::Is => 30,
            TokenKind::Let => 31,
            TokenKind::Match => 32,
            TokenKind::Module => 33,
            TokenKind::Mut => 34,
            TokenKind::Or => 35,
            TokenKind::SetKeyword => 36,
            TokenKind::Then => 37,
            TokenKind::Underscore => 38,
            TokenKind::Use => 39,
            TokenKind::Var => 40,
            TokenKind::While => 41,
            TokenKind::With => 42,
            TokenKind::Dot => 43,
            TokenKind::Colon => 44,
            TokenKind::Equals => 45,
            TokenKind::Pipe => 46,
            TokenKind::Ampersand => 47,
            TokenKind::At => 48,
            TokenKind::Arrow => 49,
        }
    }

    /// Construct a token of this kind, at the given range of characters.
    pub fn at(self, range: Range<usize>) -> (token: Token)
        ensures
            token.kind == self,
            token.range == range,
    {
        Token { kind: self, range }
    }
}

/// Different kinds have different positions.
pub proof fn lemma_ordinal_injective(a: TokenKind, b: TokenKind)
    requires
        a.ordinal() == b.ordinal(),
    ensures
        a == b,
{
}

impl Clone for Token {
    fn clone(&self) -> (copy: Self)
        ensures
            copy == *self,
    {
        self.copy()
    }
}

impl Token {
    /// A copy of the token.
    pub fn copy(&self) -> (token: Token)
        ensures
            token == *self,
    {
        Token { kind: self.kind, range: Range { start: self.range.start, end: self.range.end } }
    }
}

} // verus!
