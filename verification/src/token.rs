//! The token model: lexical categories, the tagged literal payload some
//! tokens carry, and the line-tagged token itself.

use vstd::prelude::*;

verus! {

/// The fixed lexical categories: punctuation, one- and two-character
/// operators, the three literal kinds, the sixteen reserved keywords, and the
/// end-of-input marker.
#[derive(Debug, Clone, Copy, PartialEq, Eq, Structural)]
pub enum TokenType {
    LeftParen,
    RightParen,
    LeftBrace,
    RightBrace,
    Comma,
    Dot,
    Minus,
    Plus,
    Semicolon,
    Slash,
    Star,
    Bang,
    BangEqual,
    Equal,
    EqualEqual,
    Greater,
    GreaterEqual,
    Less,
    LessEqual,
    Identifier,
    String,
    Number,
    And,
    Class,
    Else,
    False,
    Fun,
    For,
    If,
    Nil,
    Or,
    Print,
    Return,
    Super,
    This,
    True,
    Var,
    While,
    Eof,
}

/// The tagged literal value a token may carry: an identifier's own text, a
/// string literal's contents, a number literal as the bit pattern of an IEEE
/// double, or nothing.
#[derive(Debug)]
pub enum LoxType {
    Id(String),
    String(String),
    Number(u64),
    Nil,
}

/// The mathematical model of a literal payload.
pub enum LoxTypeV {
    Id(Seq<char>),
    String(Seq<char>),
    Number(u64),
    Nil,
}

impl View for LoxType {
    type V = LoxTypeV;

    open spec fn view(&self) -> LoxTypeV {
        match self {
            LoxType::Id(s) => LoxTypeV::Id(s@),
            LoxType::String(s) => LoxTypeV::String(s@),
            LoxType::Number(n) => LoxTypeV::Number(*n),
            LoxType::Nil => LoxTypeV::Nil,
        }
    }
}

impl LoxType {
    /// An owned copy with the same model.
    pub fn duplicate(&self) -> (r: LoxType)
        ensures
            r@ == self@,
    {
        match self {
            LoxType::Id(s) => LoxType::Id(s.clone()),
            LoxType::String(s) => LoxType::String(s.clone()),
            LoxType::Number(n) => LoxType::Number(*n),
            LoxType::Nil => LoxType::Nil,
        }
    }
}

/// A classified, line-tagged lexical unit produced by scanning.
#[derive(Debug)]
pub struct Token {
    pub kind: TokenType,
    pub literal: LoxType,
    pub line: usize,
}

/// The mathematical model of a token.
pub struct TokenV {
    pub kind: TokenType,
    pub literal: LoxTypeV,
    pub line: int,
}

impl View for Token {
    type V = TokenV;

    open spec fn view(&self) -> TokenV {
        TokenV { kind: self.kind, literal: self.literal@, line: self.line as int }
    }
}

impl Token {
    /// An owned copy with the same model.
    pub fn duplicate(&self) -> (r: Token)
        ensures
            r@ == self@,
    {
        Token { kind: self.kind, literal: self.literal.duplicate(), line: self.line }
    }
}

} // verus!
