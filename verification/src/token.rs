//! The token model: one immutable record per lexical unit.

use vstd::prelude::*;

verus! {

/// The closed set of token kinds: single-character punctuation, one- and
/// two-character operators, the three literal-bearing kinds, the reserved
/// keywords, and the end-of-input marker.
#[derive(Debug, Clone, Copy, PartialEq, Eq, Structural)]
pub enum TokenType {
    LeftParen,
    RightParen,
    LeftBrace,
    RightBrace,
    Comma,
    Dot,
    Minus,
    Plus,
    Semicolon,
    Slash,
    Star,
    Bang,
    BangEqual,
    Equal,
    EqualEqual,
    Greater,
    GreaterEqual,
    Less,
    LessEqual,
    Identifier,
    String,
    Number,
    And,
    Class,
    Else,
    False,
    Fun,
    For,
    If,
    Nil,
    Or,
    Print,
    Return,
    Super,
    This,
    True,
    Var,
    While,
    Eof,
}

/// Specification-level image of a `Literal`.
pub ghost enum LitSpec {
    Nil,
    Number(Seq<char>),
    Str(Seq<char>),
}

/// The decoded literal payload of a token: absent for most kinds, the exact
/// digit text for a number literal, and the text between the quotes for a
/// string literal. The digit text of a number is kept verbatim, so the
/// numeric value can be recovered exactly by any caller that wants one.
#[derive(Debug, PartialEq, Eq)]
pub enum Literal {
    Nil,
    Number(Vec<char>),
    String(Vec<char>),
}

impl View for Literal {
    type V = LitSpec;

    open spec fn view(&self) -> LitSpec {
        match self {
            Literal::Nil => LitSpec::Nil,
            Literal::Number(d) => LitSpec::Number(d@),
            Literal::String(t) => LitSpec::Str(t@),
        }
    }
}

/// Specification-level image of a `Token`.
pub ghost struct TokenSpec {
    pub kind: TokenType,
    pub lexeme: Seq<char>,
    pub literal: LitSpec,
    pub line: int,
}

/// One lexical unit: its kind, the exact source text that produced it, its
/// decoded literal payload, and the 1-based line on which it began.
#[derive(Debug, PartialEq, Eq)]
pub struct Token {
    pub kind: TokenType,
    pub lexeme: Vec<char>,
    pub literal: Literal,
    pub line: usize,
}

impl View for Token {
    type V = TokenSpec;

    open spec fn view(&self) -> TokenSpec {
        TokenSpec {
            kind: self.kind,
            lexeme: self.lexeme@,
            literal: self.literal@,
            line: self.line as int,
        }
    }
}

impl Token {
    /// A token from its parts; tokens are immutable once constructed.
    pub fn new(kind: TokenType, lexeme: Vec<char>, literal: Literal, line: usize) -> (r: Token)
        ensures
            r@ == (TokenSpec { kind, lexeme: lexeme@, literal: literal@, line: line as int }),
    {
        Token { kind, lexeme, literal, line }
    }
}

/// The token list as specification values.
pub open spec fn toks(v: Seq<Token>) -> Seq<TokenSpec> {
    v.map_values(|t: Token| t@)
}

} // verus!
