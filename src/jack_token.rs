//! Tokens of the high-level language: their kinds and where their text
//! lies in the source.
use vstd::prelude::*;
use crate::text::{decimal, join3, string_of, usize_text};

verus! {

#[derive(Debug, Clone, Copy, PartialEq, Eq, Structural)]
pub enum ReservedKeywords {
    Class,
    Constructor,
    Function,
    Method,
    Field,
    Static,
    Var,
    Int,
    Char,
    Boolean,
    Void,
    True,
    False,
    Null,
    This,
    Let,
    Do,
    If,
    Else,
    While,
    Return,
}

#[derive(Debug, Clone, Copy, PartialEq, Eq, Structural)]
pub enum Symbols {
    LeftParam,
    RightParam,
    LeftBrace,
    RightBrace,
    LeftBracket,
    RightBracket,
    SemiColon,
    Equal,
    Plus,
    Minus,
    And,
    Or,
    Bang,
    Tilde,
    LessThan,
    GreaterThan,
    Comma,
    Asterisk,
    Slash,
    Dot,
}

#[derive(Debug, Clone, Copy, PartialEq, Eq, Structural)]
pub enum TokenType {
    Keyword(ReservedKeywords),
    Symbol(Symbols),
    Integer(usize),
    String,
    Identifier,
    EOF,
}

pub open spec fn keyword_name(k: ReservedKeywords) -> Seq<char> {
    match k {
        ReservedKeywords::Class => "Class"@,
        ReservedKeywords::Constructor => "Constructor"@,
        ReservedKeywords::Function => "Function"@,
        ReservedKeywords::Method => "Method"@,
        ReservedKeywords::Field => "Field"@,
        ReservedKeywords::Static => "Static"@,
        ReservedKeywords::Var => "Var"@,
        ReservedKeywords::Int => "Int"@,
        ReservedKeywords::Char => "Char"@,
        ReservedKeywords::Boolean => "Boolean"@,
        ReservedKeywords::Void => "Void"@,
        ReservedKeywords::True => "True"@,
        ReservedKeywords::False => "False"@,
        ReservedKeywords::Null => "Null"@,
        ReservedKeywords::This => "This"@,
        ReservedKeywords::Let => "Let"@,
        ReservedKeywords::Do => "Do"@,
        ReservedKeywords::If => "If"@,
        ReservedKeywords::Else => "Else"@,
        ReservedKeywords::While => "While"@,
        ReservedKeywords::Return => "Return"@,
    }
}

pub open spec fn symbol_name(k: Symbols) -> Seq<char> {
    match k {
        Symbols::LeftParam => "LeftParam"@,
        Symbols::RightParam => "RightParam"@,
        Symbols::LeftBrace => "LeftBrace"@,
        Symbols::RightBrace => "RightBrace"@,
        Symbols::LeftBracket => "LeftBracket"@,
        Symbols::RightBracket => "RightBracket"@,
        Symbols::SemiColon => "SemiColon"@,
        Symbols::Equal => "Equal"@,
        Symbols::Plus => "Plus"@,
        Symbols::Minus => "Minus"@,
        Symbols::And => "And"@,
        Symbols::Or => "Or"@,
        Symbols::Bang => "Bang"@,
        Symbols::Tilde => "Tilde"@,
        Symbols::LessThan => "LessThan"@,
        Symbols::GreaterThan => "GreaterThan"@,
        Symbols::Comma => "Comma"@,
        Symbols::Asterisk => "Asterisk"@,
        Symbols::Slash => "Slash"@,
        Symbols::Dot => "Dot"@,
    }
}

/// How a token kind is written in messages: `Keyword(Do)`, `Symbol(And)`,
/// `Integer(5)`, `String`, `Identifier`, `EOF`.
pub open spec fn kind_name(t: TokenType) -> Seq<char> {
    match t {
        TokenType::Keyword(k) => "Keyword("@ + keyword_name(k) + ")"@,
        TokenType::Symbol(s) => "Symbol("@ + symbol_name(s) + ")"@,
        TokenType::Integer(n) => "Integer("@ + decimal(n as nat) + ")"@,
        TokenType::String => "String"@,
        TokenType::Identifier => "Identifier"@,
        TokenType::EOF => "EOF"@,
    }
}

impl ReservedKeywords {
    /// The name of this variant.
    pub fn name(&self) -> (r: &'static str)
        ensures
            r@ == keyword_name(*self),
    {
        match self {
            ReservedKeywords::Class => "Class",
            ReservedKeywords::Constructor => "Constructor",
            ReservedKeywords::Function => "Function",
            ReservedKeywords::Method => "Method",
            ReservedKeywords::Field => "Field",
            ReservedKeywords::Static => "Static",
            ReservedKeywords::Var => "Var",
            ReservedKeywords::Int => "Int",
            ReservedKeywords::Char => "Char",
            ReservedKeywords::Boolean => "Boolean",
            ReservedKeywords::Void => "Void",
            ReservedKeywords::True => "True",
            ReservedKeywords::False => "False",
            ReservedKeywords::Null => "Null",
            ReservedKeywords::This => "This",
            ReservedKeywords::Let => "Let",
            ReservedKeywords::Do => "Do",
            ReservedKeywords::If => "If",
            ReservedKeywords::Else => "Else",
            ReservedKeywords::While => "While",
            ReservedKeywords::Return => "Return",
        }
    }
}

impl Symbols {
    /// The name of this variant.
    pub fn name(&self) -> (r: &'static str)
        ensures
            r@ == symbol_name(*self),
    {
        match self {
            Symbols::LeftParam => "LeftParam",
            Symbols::RightParam => "RightParam",
            Symbols::LeftBrace => "LeftBrace",
            Symbols::RightBrace => "RightBrace",
            Symbols::LeftBracket => "LeftBracket",
            Symbols::RightBracket => "RightBracket",
            Symbols::SemiColon => "SemiColon",
            Symbols::Equal => "Equal",
            Symbols::Plus => "Plus",
            Symbols::Minus => "Minus",
            Symbols::And => "And",
            Symbols::Or => "Or",
            Symbols::Bang => "Bang",
            Symbols::Tilde => "Tilde",
            Symbols::LessThan => "LessThan",
            Symbols::GreaterThan => "GreaterThan",
            Symbols::Comma => "Comma",
            Symbols::Asterisk => "Asterisk",
            Symbols::Slash => "Slash",
            Symbols::Dot => "Dot",
        }
    }
}

impl TokenType {
    /// How this kind is written in messages.
    pub fn kind_name(&self) -> (r: String)
        ensures
            r@ == kind_name(*self),
    {
        match self {
            TokenType::Keyword(k) => join3("Keyword(", k.name(), ")"),
            TokenType::Symbol(s) => join3("Symbol(", s.name(), ")"),
            TokenType::Integer(n) => join3("Integer(", usize_text(*n).as_str(), ")"),
            TokenType::String => String::from_str("String"),
            TokenType::Identifier => String::from_str("Identifier"),
            TokenType::EOF => String::from_str("EOF"),
        }
    }
}

/// A token: its kind, and the `length` characters from `start` that it
/// covers, on `line`.
#[derive(Debug, Clone, Copy, PartialEq, Eq, Structural)]
pub struct Token {
    pub _type: TokenType,
    pub start: usize,
    pub length: usize,
    pub line: usize,
}

/// The text of token `t` in `source`; a string constant without its quotes.
pub open spec fn token_text(t: Token, source: Seq<char>) -> Seq<char> {
    if t._type is String {
        source.subrange(t.start + 1, t.start + t.length - 1)
    } else {
        source.subrange(t.start as int, t.start + t.length)
    }
}

/// Whether token `t` lies within `source` (a string constant with both its
/// quotes).
pub open spec fn token_fits(t: Token, source: Seq<char>) -> bool {
    &&& t.start + t.length <= source.len()
    &&& t._type is String ==> t.length >= 2
}

impl Token {
    pub fn new(_type: TokenType, start: usize, length: usize, line: usize) -> (r: Self)
        ensures
            r == (Token { _type, start, length, line }),
    {
        Token { _type, start, length, line }
    }

    /// The text of this token in `source`.
    pub fn get_source(&self, source: &[char]) -> (r: String)
        requires
            token_fits(*self, source@),
        ensures
            r@ == token_text(*self, source@),
    {
        let n = source.len();
        assert(self.start + self.length <= n);
        match self._type {
            TokenType::String => string_of(source, self.start + 1, self.start + self.length - 1),
            _ => string_of(source, self.start, self.start + self.length),
        }
    }
}

} // verus!
