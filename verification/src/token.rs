//! Tokens: the lexical units of the language, each with its place in the
//! source.

use vstd::prelude::*;

verus! {

/// A half-open byte range `[start, end)` of the source buffer.
#[derive(Debug, Clone, Copy, PartialEq, Eq, Structural, PartialOrd, Ord, Hash)]
pub struct Pos(pub usize, pub usize);

impl Pos {
    /// The sentinel position that stands for the end of the input.
    pub open spec fn sentinel() -> Pos {
        Pos(0, 0)
    }

    /// The position that covers `[start, end)`.
    pub open spec fn span(start: int, end: int) -> Pos {
        Pos(start as usize, end as usize)
    }
}

impl Default for Pos {
    fn default() -> (pos: Pos)
        ensures
            pos == Pos::sentinel(),
    {
        Pos(0, 0)
    }
}

/// The operators of the language.
#[derive(Debug, Clone, Copy, PartialEq, Eq, Structural, Hash)]
pub enum OperatorKind {
    Add,
    Sub,
    Mul,
    Div,
    Assign,
    Eq,
    Neq,
    Lt,
    Leq,
    Gt,
    Geq,
}

/// The delimiters of the language.
#[derive(Debug, Clone, Copy, PartialEq, Eq, Structural, Hash)]
pub enum DelimiterKind {
    LeftParen,
    RightParen,
    LeftBrace,
    RightBrace,
    Semicolon,
    Comma,
}

/// The keywords that the lexer recognises.
#[derive(Debug, Clone, Copy, PartialEq, Eq, Structural, Hash)]
pub enum KeywordKind {
    Return,
    If,
    While,
    Else,
    For,
}

/// What a token is.
#[derive(Debug, PartialEq, Eq, Hash)]
pub enum TokenKind {
    Number(usize),
    Identifier(String),
    Operator(OperatorKind),
    Delimiter(DelimiterKind),
    Keyword(KeywordKind),
}

/// A token: its kind and the bytes of the source that it covers.
#[derive(Debug, PartialEq, Eq, Hash)]
pub struct Token(pub TokenKind, pub Pos);

/// The mathematical value of a [`TokenKind`]: a number is a natural number,
/// an identifier is its sequence of characters.
pub enum TokenKindView {
    Number(nat),
    Identifier(Seq<char>),
    Operator(OperatorKind),
    Delimiter(DelimiterKind),
    Keyword(KeywordKind),
}

/// The mathematical value of a [`Token`].
pub struct TokenView(pub TokenKindView, pub Pos);

impl View for TokenKind {
    type V = TokenKindView;

    open spec fn view(&self) -> TokenKindView {
        match self {
            TokenKind::Number(n) => TokenKindView::Number(*n as nat),
            TokenKind::Identifier(name) => TokenKindView::Identifier(name@),
            TokenKind::Operator(op) => TokenKindView::Operator(*op),
            TokenKind::Delimiter(d) => TokenKindView::Delimiter(*d),
            TokenKind::Keyword(k) => TokenKindView::Keyword(*k),
        }
    }
}

impl View for Token {
    type V = TokenView;

    open spec fn view(&self) -> TokenView {
        TokenView(self.0@, self.1)
    }
}

} // verus!
