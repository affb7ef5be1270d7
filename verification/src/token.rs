//! Tokens produced by the indentation lexer.
use vstd::prelude::*;

verus! {

/// A lexical token. Text-carrying tokens hold the source text they were read from.
#[derive(Debug, Clone, PartialEq)]
pub enum Token {
    // whitespace
    Comment(String),
    Newline,
    Indent,
    Dedent,
    // values
    NoneValue,
    Bool(bool),
    Int(String),
    Float(String),
    Str(String),
    Ident(String),
    // keywords
    If,
    While,
    Fn,
    // braces
    OpenParen,
    CloseParen,
    OpenSquare,
    CloseSquare,
    // control
    Dot,
    Comma,
    Assign,
    Question,
    Colon,
    DoubleColon,
    // operators
    Add,
    Sub,
    Not,
    Mul,
    Div,
    Mod,
    Pow,
    Eq,
    Lt,
    Gt,
    NEq,
    LtEq,
    GtEq,
    And,
    Or,
}

/// The mathematical value of a [`Token`]: text is a sequence of characters.
pub enum TokenModel {
    Comment(Seq<char>),
    Newline,
    Indent,
    Dedent,
    NoneValue,
    Bool(bool),
    Int(Seq<char>),
    Float(Seq<char>),
    Str(Seq<char>),
    Ident(Seq<char>),
    If,
    While,
    Fn,
    OpenParen,
    CloseParen,
    OpenSquare,
    CloseSquare,
    Dot,
    Comma,
    Assign,
    Question,
    Colon,
    DoubleColon,
    Add,
    Sub,
    Not,
    Mul,
    Div,
    Mod,
    Pow,
    Eq,
    Lt,
    Gt,
    NEq,
    LtEq,
    GtEq,
    And,
    Or,
}

impl View for Token {
    type V = TokenModel;

    open spec fn view(&self) -> TokenModel {
        match self {
            Token::Comment(s) => TokenModel::Comment(s@),
            Token::Newline => TokenModel::Newline,
            Token::Indent => TokenModel::Indent,
            Token::Dedent => TokenModel::Dedent,
            Token::NoneValue => TokenModel::NoneValue,
            Token::Bool(b) => TokenModel::Bool(*b),
            Token::Int(s) => TokenModel::Int(s@),
            Token::Float(s) => TokenModel::Float(s@),
            Token::Str(s) => TokenModel::Str(s@),
            Token::Ident(s) => TokenModel::Ident(s@),
            Token::If => TokenModel::If,
            Token::While => TokenModel::While,
            Token::Fn => TokenModel::Fn,
            Token::OpenParen => TokenModel::OpenParen,
            Token::CloseParen => TokenModel::CloseParen,
            Token::OpenSquare => TokenModel::OpenSquare,
            Token::CloseSquare => TokenModel::CloseSquare,
            Token::Dot => TokenModel::Dot,
            Token::Comma => TokenModel::Comma,
            Token::Assign => TokenModel::Assign,
            Token::Question => TokenModel::Question,
            Token::Colon => TokenModel::Colon,
            Token::DoubleColon => TokenModel::DoubleColon,
            Token::Add => TokenModel::Add,
            Token::Sub => TokenModel::Sub,
            Token::Not => TokenModel::Not,
            Token::Mul => TokenModel::Mul,
            Token::Div => TokenModel::Div,
            Token::Mod => TokenModel::Mod,
            Token::Pow => TokenModel::Pow,
            Token::Eq => TokenModel::Eq,
            Token::Lt => TokenModel::Lt,
            Token::Gt => TokenModel::Gt,
            Token::NEq => TokenModel::NEq,
            Token::LtEq => TokenModel::LtEq,
            Token::GtEq => TokenModel::GtEq,
            Token::And => TokenModel::And,
            Token::Or => TokenModel::Or,
        }
    }
}

} // verus!
