//! Tokens of the line lexer, as the parser reads them.
use vstd::prelude::*;

use crate::symbols::same_text;

verus! {

/// A half-open byte range `start..end` in a source text.
#[derive(Debug, Clone, Copy, PartialEq, Eq, Structural, PartialOrd, Ord, Hash)]
pub struct Span {
    pub start: usize,
    pub end: usize,
}

impl Span {
    /// A span from `start` to `end`.
    pub fn new(start: usize, end: usize) -> (s: Span)
        ensures
            s.start == start,
            s.end == end,
    {
        Span { start, end }
    }

    /// The span as a range `start..end`.
    pub fn range(&self) -> (r: std::ops::Range<usize>)
        ensures
            r.start == self.start,
            r.end == self.end,
    {
        self.start..self.end
    }
}

impl From<std::ops::Range<usize>> for Span {
    fn from(value: std::ops::Range<usize>) -> (s: Span) {
        Span { start: value.start, end: value.end }
    }
}

impl vstd::std_specs::convert::FromSpecImpl<std::ops::Range<usize>> for Span {
    open spec fn obeys_from_spec() -> bool {
        true
    }

    open spec fn from_spec(value: std::ops::Range<usize>) -> Span {
        Span { start: value.start, end: value.end }
    }
}

impl<'a> From<std::ops::Range<&'a usize>> for Span {
    fn from(value: std::ops::Range<&'a usize>) -> (s: Span) {
        Span { start: *value.start, end: *value.end }
    }
}

impl<'a> vstd::std_specs::convert::FromSpecImpl<std::ops::Range<&'a usize>> for Span {
    open spec fn obeys_from_spec() -> bool {
        true
    }

    open spec fn from_spec(value: std::ops::Range<&'a usize>) -> Span {
        Span { start: *value.start, end: *value.end }
    }
}

impl From<Span> for std::ops::Range<usize> {
    fn from(value: Span) -> (r: std::ops::Range<usize>) {
        value.start..value.end
    }
}

impl vstd::std_specs::convert::FromSpecImpl<Span> for std::ops::Range<usize> {
    open spec fn obeys_from_spec() -> bool {
        true
    }

    open spec fn from_spec(value: Span) -> std::ops::Range<usize> {
        std::ops::Range { start: value.start, end: value.end }
    }
}

/// A token, generic in how it holds text: [`Token`] holds `String`s and its value,
/// [`TokenModel`], holds character sequences. Numbers keep the digits they were read
/// from.
#[derive(Debug, Clone, PartialEq, PartialOrd)]
pub enum TokenOf<T> {
    // blocks
    Newline,
    Indent,
    Dedent,
    // identifiers
    Ident(T),
    // values
    NoneValue,
    Bool(bool),
    Int(T),
    Float(T),
    Str(T),
    // operators
    Add,
    Sub,
    Not,
    Mul,
    Div,
    Modulo,
    Pow,
    Eq,
    Lt,
    Gt,
    NEq,
    LtEq,
    GtEq,
    And,
    Or,
    Walrus,
    // control
    Period,
    Comma,
    Assign,
    Colon,
    SemiColon,
    Question,
    OpenParen,
    CloseParen,
    OpenCurly,
    CloseCurly,
    OpenSquare,
    CloseSquare,
    Arrow,
    FatArrow,
    // keywords
    Let,
    Fn,
    If,
    Else,
    While,
    Static,
    Const,
}

/// A token with its text as strings.
pub type Token = TokenOf<String>;

/// The value of a [`Token`].
pub type TokenModel = TokenOf<Seq<char>>;

impl View for TokenOf<String> {
    type V = TokenOf<Seq<char>>;

    open spec fn view(&self) -> TokenOf<Seq<char>> {
        match self {
            TokenOf::Newline => TokenOf::Newline,
            TokenOf::Indent => TokenOf::Indent,
            TokenOf::Dedent => TokenOf::Dedent,
            TokenOf::Ident(s) => TokenOf::Ident(s@),
            TokenOf::NoneValue => TokenOf::NoneValue,
            TokenOf::Bool(b) => TokenOf::Bool(*b),
            TokenOf::Int(s) => TokenOf::Int(s@),
            TokenOf::Float(s) => TokenOf::Float(s@),
            TokenOf::Str(s) => TokenOf::Str(s@),
            TokenOf::Add => TokenOf::Add,
            TokenOf::Sub => TokenOf::Sub,
            TokenOf::Not => TokenOf::Not,
            TokenOf::Mul => TokenOf::Mul,
            TokenOf::Div => TokenOf::Div,
            TokenOf::Modulo => TokenOf::Modulo,
            TokenOf::Pow => TokenOf::Pow,
            TokenOf::Eq => TokenOf::Eq,
            TokenOf::Lt => TokenOf::Lt,
            TokenOf::Gt => TokenOf::Gt,
            TokenOf::NEq => TokenOf::NEq,
            TokenOf::LtEq => TokenOf::LtEq,
            TokenOf::GtEq => TokenOf::GtEq,
            TokenOf::And => TokenOf::And,
            TokenOf::Or => TokenOf::Or,
            TokenOf::Walrus => TokenOf::Walrus,
            TokenOf::Period => TokenOf::Period,
            TokenOf::Comma => TokenOf::Comma,
            TokenOf::Assign => TokenOf::Assign,
            TokenOf::Colon => TokenOf::Colon,
            TokenOf::SemiColon => TokenOf::SemiColon,
            TokenOf::Question => TokenOf::Question,
            TokenOf::OpenParen => TokenOf::OpenParen,
            TokenOf::CloseParen => TokenOf::CloseParen,
            TokenOf::OpenCurly => TokenOf::OpenCurly,
            TokenOf::CloseCurly => TokenOf::CloseCurly,
            TokenOf::OpenSquare => TokenOf::OpenSquare,
            TokenOf::CloseSquare => TokenOf::CloseSquare,
            TokenOf::Arrow => TokenOf::Arrow,
            TokenOf::FatArrow => TokenOf::FatArrow,
            TokenOf::Let => TokenOf::Let,
            TokenOf::Fn => TokenOf::Fn,
            TokenOf::If => TokenOf::If,
            TokenOf::Else => TokenOf::Else,
            TokenOf::While => TokenOf::While,
            TokenOf::Static => TokenOf::Static,
            TokenOf::Const => TokenOf::Const,
        }
    }
}

/// The keyword a word spells, if any.
pub open spec fn keyword(w: Seq<char>) -> Option<TokenModel> {
    if w == seq!['n', 'o', 'n', 'e'] {
        Some(TokenOf::NoneValue)
    } else if w == seq!['t', 'r', 'u', 'e'] {
        Some(TokenOf::Bool(true))
    } else if w == seq!['f', 'a', 'l', 's', 'e'] {
        Some(TokenOf::Bool(false))
    } else if w == seq!['n', 'o', 't'] {
        Some(TokenOf::Not)
    } else if w == seq!['a', 'n', 'd'] {
        Some(TokenOf::And)
    } else if w == seq!['o', 'r'] {
        Some(TokenOf::Or)
    } else if w == seq!['l', 'e', 't'] {
        Some(TokenOf::Let)
    } else if w == seq!['f', 'n'] {
        Some(TokenOf::Fn)
    } else if w == seq!['i', 'f'] {
        Some(TokenOf::If)
    } else if w == seq!['e', 'l', 's', 'e'] {
        Some(TokenOf::Else)
    } else if w == seq!['w', 'h', 'i', 'l', 'e'] {
        Some(TokenOf::While)
    } else if w == seq!['s', 't', 'a', 't', 'i', 'c'] {
        Some(TokenOf::Static)
    } else if w == seq!['c', 'o', 'n', 's', 't'] {
        Some(TokenOf::Const)
    } else {
        None
    }
}

/// The token a word stands for: its keyword, else an identifier.
pub open spec fn ident_token(w: Seq<char>) -> TokenModel {
    match keyword(w) {
        Some(t) => t,
        None => TokenOf::Ident(w),
    }
}

impl TokenOf<String> {
    /// The keyword `text` spells, or else the identifier `text`.
    pub fn parse_ident(text: &str) -> (t: Token)
        ensures
            t@ == ident_token(text@),
    {
        if same_text(text, &['n', 'o', 'n', 'e']) {
            TokenOf::NoneValue
        } else if same_text(text, &['t', 'r', 'u', 'e']) {
            TokenOf::Bool(true)
        } else if same_text(text, &['f', 'a', 'l', 's', 'e']) {
            TokenOf::Bool(false)
        } else if same_text(text, &['n', 'o', 't']) {
            TokenOf::Not
        } else if same_text(text, &['a', 'n', 'd']) {
            TokenOf::And
        } else if same_text(text, &['o', 'r']) {
            TokenOf::Or
        } else if same_text(text, &['l', 'e', 't']) {
            TokenOf::Let
        } else if same_text(text, &['f', 'n']) {
            TokenOf::Fn
        } else if same_text(text, &['i', 'f']) {
            TokenOf::If
        } else if same_text(text, &['e', 'l', 's', 'e']) {
            TokenOf::Else
        } else if same_text(text, &['w', 'h', 'i', 'l', 'e']) {
            TokenOf::While
        } else if same_text(text, &['s', 't', 'a', 't', 'i', 'c']) {
            TokenOf::Static
        } else if same_text(text, &['c', 'o', 'n', 's', 't']) {
            TokenOf::Const
        } else {
            TokenOf::Ident(text.to_owned())
        }
    }
}

} // verus!
