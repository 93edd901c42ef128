//! Tokens: what the parser reads.

use vstd::prelude::*;

verus! {

/// A half-open interval of offsets into the source text: from `start` up to
/// but not including `end`.
#[derive(Debug, Clone, Copy, PartialEq, Eq)]
pub struct Span {
    pub start: usize,
    pub end: usize,
}

/// The kind of a token, with the payload of the two kinds that carry one.
#[derive(Debug, Clone, PartialEq)]
pub enum TokenType {
    /// A number literal. The payload is the literal's value as the bit
    /// pattern of a 64-bit IEEE-754 number; the parser moves it into the
    /// tree untouched.
    Number(u64),
    /// A name.
    Identifier(String),
    Newline,
    Plus,
    Minus,
    Star,
    Dot,
    Cross,
    Slash,
    Divide,
    Percent,
    Mod,
    Carrot,
    Sqrt,
    Cbrt,
    Fort,
    Exclamation,
    Degree,
    LeftParen,
    RightParen,
    Pipe,
    LeftFloor,
    RightFloor,
    LeftCeil,
    RightCeil,
    Eq,
    EOF,
}

/// The mathematical value of a [`TokenType`]: the same kinds, with a name
/// held as a sequence of characters.
pub enum TokenTypeView {
    Number(u64),
    Identifier(Seq<char>),
    Newline,
    Plus,
    Minus,
    Star,
    Dot,
    Cross,
    Slash,
    Divide,
    Percent,
    Mod,
    Carrot,
    Sqrt,
    Cbrt,
    Fort,
    Exclamation,
    Degree,
    LeftParen,
    RightParen,
    Pipe,
    LeftFloor,
    RightFloor,
    LeftCeil,
    RightCeil,
    Eq,
    EOF,
}

impl View for TokenType {
    type V = TokenTypeView;

    open spec fn view(&self) -> TokenTypeView {
        match self {
            TokenType::Number(x) => TokenTypeView::Number(*x),
            TokenType::Identifier(name) => TokenTypeView::Identifier(name@),
            TokenType::Newline => TokenTypeView::Newline,
            TokenType::Plus => TokenTypeView::Plus,
            TokenType::Minus => TokenTypeView::Minus,
            TokenType::Star => TokenTypeView::Star,
            TokenType::Dot => TokenTypeView::Dot,
            TokenType::Cross => TokenTypeView::Cross,
            TokenType::Slash => TokenTypeView::Slash,
            TokenType::Divide => TokenTypeView::Divide,
            TokenType::Percent => TokenTypeView::Percent,
            TokenType::Mod => TokenTypeView::Mod,
            TokenType::Carrot => TokenTypeView::Carrot,
            TokenType::Sqrt => TokenTypeView::Sqrt,
            TokenType::Cbrt => TokenTypeView::Cbrt,
            TokenType::Fort => TokenTypeView::Fort,
            TokenType::Exclamation => TokenTypeView::Exclamation,
            TokenType::Degree => TokenTypeView::Degree,
            TokenType::LeftParen => TokenTypeView::LeftParen,
            TokenType::RightParen => TokenTypeView::RightParen,
            TokenType::Pipe => TokenTypeView::Pipe,
            TokenType::LeftFloor => TokenTypeView::LeftFloor,
            TokenType::RightFloor => TokenTypeView::RightFloor,
            TokenType::LeftCeil => TokenTypeView::LeftCeil,
            TokenType::RightCeil => TokenTypeView::RightCeil,
            TokenType::Eq => TokenTypeView::Eq,
            TokenType::EOF => TokenTypeView::EOF,
        }
    }
}

/// A token: its kind and the half-open interval of the source text it was
/// read from.
#[derive(Debug, Clone, PartialEq)]
pub struct Token {
    pub ty: TokenType,
    pub range: Span,
}

/// The mathematical value of a [`Token`].
pub struct TokenView {
    pub ty: TokenTypeView,
    pub range: Span,
}

impl View for Token {
    type V = TokenView;

    open spec fn view(&self) -> TokenView {
        TokenView { ty: self.ty@, range: self.range }
    }
}

/// The values of a token sequence, token by token.
pub open spec fn token_views(tokens: Seq<Token>) -> Seq<TokenView> {
    Seq::new(tokens.len(), |i: int| tokens[i]@)
}

/// The token that stands for the end of the input: it has the kind `EOF`
/// and the empty range at offset zero.
pub open spec fn end_of_stream() -> TokenView {
    TokenView { ty: TokenTypeView::EOF, range: Span { start: 0, end: 0 } }
}

/// The token at position `p` of `tokens`, or the end-of-stream token where
/// the sequence has no such position.
pub open spec fn token_at(tokens: Seq<TokenView>, p: nat) -> TokenView {
    if p < tokens.len() {
        tokens[p as int]
    } else {
        end_of_stream()
    }
}

} // verus!
