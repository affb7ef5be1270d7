//! Reading tokens line by line for the parser: one token of look-ahead, the span of the
//! token read last, and errors that carry spans.
use vstd::prelude::*;

use crate::line_lexer::LexError;
use crate::parse_token::{Span, Token, TokenModel, TokenOf};
use crate::shell_stream::{ShellStream, StreamModel};

verus! {

/// An error found while parsing.
#[derive(Debug)]
pub enum ParseError {
    /// The lexer could not read a token.
    TokenError { error: LexError, span: Span },
    /// A token (or the end of the line, `None`) other than what was expected.
    UnexpectedInput { expect: String, found: Option<Token>, span: Span },
    /// An opening bracket that was not closed on its line.
    UnclosedBrace { open: Span, end: Span },
}

/// The value of a [`ParseError`].
pub enum ParseErrorModel {
    TokenError { error: LexError, span: Span },
    UnexpectedInput { expect: Seq<char>, found: Option<TokenModel>, span: Span },
    UnclosedBrace { open: Span, end: Span },
}

impl View for ParseError {
    type V = ParseErrorModel;

    open spec fn view(&self) -> ParseErrorModel {
        match self {
            ParseError::TokenError { error, span } => ParseErrorModel::TokenError { error: *error, span: *span },
            ParseError::UnexpectedInput { expect, found, span } => ParseErrorModel::UnexpectedInput {
                expect: expect@,
                found: match found {
                    Some(t) => Some(t@),
                    None => None,
                },
                span: *span,
            },
            ParseError::UnclosedBrace { open, end } => ParseErrorModel::UnclosedBrace { open: *open, end: *end },
        }
    }
}

/// The values of a list of errors.
pub open spec fn errors_view(es: Seq<ParseError>) -> Seq<ParseErrorModel> {
    es.map_values(|e: ParseError| e@)
}

/// What a scan of the rest of a line does with a token.
#[derive(Debug, Clone, Copy, PartialEq, Eq, Structural)]
pub enum ConsumeFlag {
    /// Stop, the token taken.
    Inclusive,
    /// Stop, the token left to be read again.
    Exclusive,
    /// Go on.
    Ignore,
}

/// How a scan of the rest of a line ended.
#[derive(Debug)]
pub enum ConsumeEnd {
    Inclusive(Token),
    Exclusive(Token),
    Nothing,
}

/// The value of a [`ConsumeEnd`].
pub enum ConsumeEndModel {
    Inclusive(TokenModel),
    Exclusive(TokenModel),
    Nothing,
}

impl View for ConsumeEnd {
    type V = ConsumeEndModel;

    open spec fn view(&self) -> ConsumeEndModel {
        match self {
            ConsumeEnd::Inclusive(t) => ConsumeEndModel::Inclusive(t@),
            ConsumeEnd::Exclusive(t) => ConsumeEndModel::Exclusive(t@),
            ConsumeEnd::Nothing => ConsumeEndModel::Nothing,
        }
    }
}

/// `until` answers each token with `flag` of its value.
pub open spec fn implements<F: Fn(&Token) -> ConsumeFlag>(until: F, flag: spec_fn(TokenModel) -> ConsumeFlag) -> bool {
    forall|t: &Token, r: ConsumeFlag| #[trigger] until.ensures((t,), r) ==> r == flag(t@)
}

/// An empty span at the end of `s`.
pub open spec fn end_span(s: Span) -> Span {
    Span { start: s.end, end: s.end }
}

/// An empty span at the start of `s`.
pub open spec fn start_span(s: Span) -> Span {
    Span { start: s.start, end: s.start }
}

/// The value of a [`LineParser`]: the token looked at but not taken, the stream, and the
/// span of the token taken last.
pub struct LineModel {
    pub peeked: Option<TokenModel>,
    pub stream: StreamModel,
    pub span: Span,
}

/// How much is left to read: the stream's tokens and the one looked at.
pub open spec fn measure(m: LineModel) -> nat {
    m.stream.tokens.len() + if m.peeked is Some { 1nat } else { 0nat }
}

/// Reads the stream's next entry; an error becomes a parse error at its span.
pub open spec fn generate(m: LineModel) -> (LineModel, Option<Result<TokenModel, ParseErrorModel>>) {
    if m.stream.tokens.len() == 0 {
        (m, None)
    } else {
        let (r, sp) = m.stream.tokens[0];
        let m1 = LineModel { stream: StreamModel { tokens: m.stream.tokens.drop_first(), span: sp, ..m.stream }, ..m };
        (
            m1,
            Some(
                match r {
                    Ok(t) => Ok(t),
                    Err(e) => Err(ParseErrorModel::TokenError { error: e, span: sp }),
                },
            ),
        )
    }
}

/// Takes a token: the one looked at, else the stream's next; the span follows the
/// stream, or becomes empty at its end when nothing is left.
pub open spec fn take_model(m: LineModel) -> (LineModel, Option<Result<TokenModel, ParseErrorModel>>) {
    match m.peeked {
        Some(t) => (LineModel { peeked: None, span: m.stream.span, ..m }, Some(Ok(t))),
        None => {
            let (m1, r) = generate(m);
            match r {
                None => (LineModel { span: end_span(m.span), ..m1 }, None),
                Some(x) => (LineModel { span: m1.stream.span, ..m1 }, Some(x)),
            }
        },
    }
}

/// Looks at the next token without taking it; an error is read and reported.
pub open spec fn peek_model(m: LineModel) -> (LineModel, Option<Result<TokenModel, ParseErrorModel>>) {
    match m.peeked {
        Some(t) => (m, Some(Ok(t))),
        None => {
            let (m1, r) = generate(m);
            match r {
                Some(Ok(t)) => (LineModel { peeked: Some(t), ..m1 }, Some(Ok(t))),
                _ => (m1, r),
            }
        },
    }
}

/// Takes a token of the current line: a line break is left to be read again and ends
/// the line (`None`).
pub open spec fn line_take(m: LineModel) -> (LineModel, Option<Result<TokenModel, ParseErrorModel>>) {
    let (m1, r) = take_model(m);
    if r == Some(Ok::<TokenModel, ParseErrorModel>(TokenOf::Newline)) {
        (LineModel { peeked: Some(TokenOf::Newline), ..m1 }, None)
    } else {
        (m1, r)
    }
}

/// Looks at the next token of the current line; a line break ends the line (`None`).
pub open spec fn line_peek(m: LineModel) -> (LineModel, Option<Result<TokenModel, ParseErrorModel>>) {
    let (m1, r) = peek_model(m);
    if r == Some(Ok::<TokenModel, ParseErrorModel>(TokenOf::Newline)) {
        (m1, None)
    } else {
        (m1, r)
    }
}

/// The error for finding `found` where `expect` was expected.
pub open spec fn unexpected(expect: Seq<char>, found: Option<TokenModel>, span: Span) -> ParseErrorModel {
    ParseErrorModel::UnexpectedInput { expect, found, span }
}

/// Takes the rest of the line, keeping the errors found in it.
pub open spec fn consume_line_model(m: LineModel, errs: Seq<ParseErrorModel>) -> (LineModel, Seq<ParseErrorModel>)
    decreases measure(m),
{
    let (m1, r) = line_take(m);
    match r {
        None => (m1, errs),
        Some(x) => if measure(m1) < measure(m) {
            consume_line_model(
                m1,
                match x {
                    Err(e) => errs.push(e),
                    Ok(_) => errs,
                },
            )
        } else {
            (m1, errs)
        },
    }
}

/// Takes the line token by token, keeping the errors found, until `flag` says to stop at
/// a token: `Inclusive` takes it, `Exclusive` leaves it to be read again; `Ignore` goes
/// on. The end of the line stops with `Nothing`.
pub open spec fn consume_until_model(m: LineModel, errs: Seq<ParseErrorModel>, flag: spec_fn(TokenModel) -> ConsumeFlag) -> (
    LineModel,
    Seq<ParseErrorModel>,
    ConsumeEndModel,
)
    decreases measure(m),
{
    let (m1, r) = line_take(m);
    match r {
        None => (m1, errs, ConsumeEndModel::Nothing),
        Some(Err(e)) => if measure(m1) < measure(m) {
            consume_until_model(m1, errs.push(e), flag)
        } else {
            (m1, errs.push(e), ConsumeEndModel::Nothing)
        },
        Some(Ok(t)) => match flag(t) {
            ConsumeFlag::Inclusive => (m1, errs, ConsumeEndModel::Inclusive(t)),
            ConsumeFlag::Exclusive => (LineModel { peeked: Some(t), ..m1 }, errs, ConsumeEndModel::Exclusive(t)),
            ConsumeFlag::Ignore => if measure(m1) < measure(m) {
                consume_until_model(m1, errs, flag)
            } else {
                (m1, errs, ConsumeEndModel::Nothing)
            },
        },
    }
}

/// Reading the rest of a line is reading until a token that is never chosen: the line is
/// read to its end, with the same errors.
pub proof fn lemma_consume_line_is_until_nothing(m: LineModel, errs: Seq<ParseErrorModel>)
    ensures
        consume_until_model(m, errs, |t: TokenModel| ConsumeFlag::Ignore) == (
            consume_line_model(m, errs).0,
            consume_line_model(m, errs).1,
            ConsumeEndModel::Nothing,
        ),
    decreases measure(m),
{
    let (m1, r) = line_take(m);
    lemma_line_take_measure(m);
    match r {
        None => {},
        Some(Err(e)) => lemma_consume_line_is_until_nothing(m1, errs.push(e)),
        Some(Ok(t)) => lemma_consume_line_is_until_nothing(m1, errs),
    }
}

/// Takes the line up to and including a `)`, keeping the errors found; reports whether
/// one was found.
pub open spec fn consume_close_model(m: LineModel, errs: Seq<ParseErrorModel>) -> (LineModel, Seq<ParseErrorModel>, bool)
    decreases measure(m),
{
    let (m1, r) = line_take(m);
    match r {
        None => (m1, errs, false),
        Some(Ok(TokenOf::CloseParen)) => (m1, errs, true),
        Some(x) => if measure(m1) < measure(m) {
            consume_close_model(
                m1,
                match x {
                    Err(e) => errs.push(e),
                    Ok(_) => errs,
                },
            )
        } else {
            (m1, errs, false)
        },
    }
}

/// Every span the stream can hand out starts before the largest offset, so that a span
/// one past its start exists.
pub open spec fn spans_ok(m: LineModel) -> bool {
    &&& m.stream.span.start < usize::MAX
    &&& forall|i: int| 0 <= i < m.stream.tokens.len() ==> (#[trigger] m.stream.tokens[i]).1.start < usize::MAX
}

/// Takes tokens up to and including a line break, keeping the errors found; the parser
/// level of [`consume_line_model`].
pub open spec fn parser_consume_model(m: LineModel, errs: Seq<ParseErrorModel>) -> (LineModel, Seq<ParseErrorModel>)
    decreases measure(m),
{
    let (m1, r) = take_model(m);
    match r {
        None => (m1, errs),
        Some(Ok(TokenOf::Newline)) => (m1, errs),
        Some(x) => if measure(m1) < measure(m) {
            parser_consume_model(
                m1,
                match x {
                    Err(e) => errs.push(e),
                    Ok(_) => errs,
                },
            )
        } else {
            (m1, errs)
        },
    }
}

/// Looks at a token of the line that must be there: the end of the line is an error at
/// the stream's span.
pub open spec fn peek_some_model(m: LineModel, expect: Seq<char>) -> (LineModel, Result<TokenModel, ParseErrorModel>) {
    let (m1, r) = line_peek(m);
    match r {
        Some(Ok(t)) => (m1, Ok(t)),
        Some(Err(e)) => (m1, Err(e)),
        None => (m1, Err(unexpected(expect, None, m1.stream.span))),
    }
}

/// Looks at a token of the line that must be `expect` (`None`: the end of the line).
pub open spec fn peek_expect_model(m: LineModel, expect: Option<TokenModel>) -> (LineModel, Result<(), ParseErrorModel>) {
    let (m1, r) = line_peek(m);
    match r {
        Some(Err(e)) => (m1, Err(e)),
        _ => {
            let token = match r {
                Some(Ok(t)) => Some(t),
                _ => None,
            };
            if expect == token {
                (m1, Ok(()))
            } else {
                let text = match expect {
                    Some(t) => token_text(t),
                    None => "end of line"@,
                };
                (m1, Err(unexpected(text, token, m1.span)))
            }
        },
    }
}

/// Taking a token takes the one looked at or reads one entry, when there is one.
pub proof fn lemma_take_measure(m: LineModel)
    ensures
        take_model(m).1 is Some ==> measure(take_model(m).0) + 1 == measure(m),
        take_model(m).1 is None ==> measure(take_model(m).0) == measure(m),
{
}

/// Taking a token of the line reads one entry when it finds one, and none otherwise; a
/// token found gets the stream's span.
pub proof fn lemma_line_take_measure(m: LineModel)
    ensures
        line_take(m).1 is Some ==> measure(line_take(m).0) + 1 == measure(m),
        line_take(m).1 is Some ==> line_take(m).0.span == line_take(m).0.stream.span,
        line_take(m).1 is None ==> measure(line_take(m).0) == measure(m),
        spans_ok(m) ==> spans_ok(line_take(m).0),
{
    if m.stream.tokens.len() > 0 {
        assert(m.stream.tokens[0].1.start < usize::MAX || !spans_ok(m));
        assert forall|i: int| 0 <= i < m.stream.tokens.len() - 1 implies m.stream.tokens.drop_first()[i] == m.stream.tokens[i + 1] by {}
    }
}

/// Looking at a token never adds to what is left.
pub proof fn lemma_line_peek_measure(m: LineModel)
    ensures
        measure(line_peek(m).0) <= measure(m),
        line_peek(m).1 matches Some(Err(_)) ==> measure(line_peek(m).0) < measure(m),
        line_peek(m).1 matches Some(Ok(t)) ==> line_peek(m).0.peeked == Some(t) && measure(line_peek(m).0) == measure(m),
        spans_ok(m) ==> spans_ok(line_peek(m).0),
{
    if m.stream.tokens.len() > 0 {
        assert(m.stream.tokens[0].1.start < usize::MAX || !spans_ok(m));
        assert forall|i: int| 0 <= i < m.stream.tokens.len() - 1 implies m.stream.tokens.drop_first()[i] == m.stream.tokens[i + 1] by {}
    }
}

/// How a token is written in messages.
pub open spec fn token_text(t: TokenModel) -> Seq<char> {
    match t {
        TokenOf::Newline => "newline"@,
        TokenOf::Indent => "indent"@,
        TokenOf::Dedent => "dedent"@,
        TokenOf::Ident(s) => s,
        TokenOf::NoneValue => "none"@,
        TokenOf::Bool(b) => if b { "true"@ } else { "false"@ },
        TokenOf::Int(s) => s,
        TokenOf::Float(s) => s,
        TokenOf::Str(s) => "'"@ + s + "'"@,
        TokenOf::Add => "+"@,
        TokenOf::Sub => "-"@,
        TokenOf::Not => "not"@,
        TokenOf::Mul => "*"@,
        TokenOf::Div => "/"@,
        TokenOf::Modulo => "%"@,
        TokenOf::Pow => "**"@,
        TokenOf::Eq => "=="@,
        TokenOf::Lt => "<"@,
        TokenOf::Gt => ">"@,
        TokenOf::NEq => "!="@,
        TokenOf::LtEq => "<="@,
        TokenOf::GtEq => ">="@,
        TokenOf::And => "and"@,
        TokenOf::Or => "or"@,
        TokenOf::Walrus => ":="@,
        TokenOf::Period => "."@,
        TokenOf::Comma => ","@,
        TokenOf::Assign => "="@,
        TokenOf::Colon => ":"@,
        TokenOf::SemiColon => ";"@,
        TokenOf::Question => "?"@,
        TokenOf::OpenParen => "("@,
        TokenOf::CloseParen => ")"@,
        TokenOf::OpenCurly => "{"@,
        TokenOf::CloseCurly => "}"@,
        TokenOf::OpenSquare => "["@,
        TokenOf::CloseSquare => "]"@,
        TokenOf::Arrow => "->"@,
        TokenOf::FatArrow => "=>"@,
        TokenOf::Let => "let"@,
        TokenOf::Fn => "fn"@,
        TokenOf::If => "if"@,
        TokenOf::Else => "else"@,
        TokenOf::While => "while"@,
        TokenOf::Static => "static"@,
        TokenOf::Const => "const"@,
    }
}

/// How a token is written in messages (see [`token_text`]).
pub fn display_token(t: &Token) -> (r: String)
    ensures
        r@ == token_text(t@),
{
    match t {
        TokenOf::Newline => "newline".to_owned(),
        TokenOf::Indent => "indent".to_owned(),
        TokenOf::Dedent => "dedent".to_owned(),
        TokenOf::Ident(s) => s.clone(),
        TokenOf::NoneValue => "none".to_owned(),
        TokenOf::Bool(b) => if *b { "true".to_owned() } else { "false".to_owned() },
        TokenOf::Int(s) => s.clone(),
        TokenOf::Float(s) => s.clone(),
        TokenOf::Str(s) => {
            let mut r = "'".to_owned();
            r.append(s.as_str());
            r.append("'");
            r
        },
        TokenOf::Add => "+".to_owned(),
        TokenOf::Sub => "-".to_owned(),
        TokenOf::Not => "not".to_owned(),
        TokenOf::Mul => "*".to_owned(),
        TokenOf::Div => "/".to_owned(),
        TokenOf::Modulo => "%".to_owned(),
        TokenOf::Pow => "**".to_owned(),
        TokenOf::Eq => "==".to_owned(),
        TokenOf::Lt => "<".to_owned(),
        TokenOf::Gt => ">".to_owned(),
        TokenOf::NEq => "!=".to_owned(),
        TokenOf::LtEq => "<=".to_owned(),
        TokenOf::GtEq => ">=".to_owned(),
        TokenOf::And => "and".to_owned(),
        TokenOf::Or => "or".to_owned(),
        TokenOf::Walrus => ":=".to_owned(),
        TokenOf::Period => ".".to_owned(),
        TokenOf::Comma => ",".to_owned(),
        TokenOf::Assign => "=".to_owned(),
        TokenOf::Colon => ":".to_owned(),
        TokenOf::SemiColon => ";".to_owned(),
        TokenOf::Question => "?".to_owned(),
        TokenOf::OpenParen => "(".to_owned(),
        TokenOf::CloseParen => ")".to_owned(),
        TokenOf::OpenCurly => "{".to_owned(),
        TokenOf::CloseCurly => "}".to_owned(),
        TokenOf::OpenSquare => "[".to_owned(),
        TokenOf::CloseSquare => "]".to_owned(),
        TokenOf::Arrow => "->".to_owned(),
        TokenOf::FatArrow => "=>".to_owned(),
        TokenOf::Let => "let".to_owned(),
        TokenOf::Fn => "fn".to_owned(),
        TokenOf::If => "if".to_owned(),
        TokenOf::Else => "else".to_owned(),
        TokenOf::While => "while".to_owned(),
        TokenOf::Static => "static".to_owned(),
        TokenOf::Const => "const".to_owned(),
    }
}

/// Whether two tokens are the same.
pub fn same_token(a: &Token, b: &Token) -> (r: bool)
    ensures
        r == (a@ == b@),
{
    match a {
        TokenOf::Ident(x) => match b {
            TokenOf::Ident(y) => *x == *y,
            _ => false,
        },
        TokenOf::Int(x) => match b {
            TokenOf::Int(y) => *x == *y,
            _ => false,
        },
        TokenOf::Float(x) => match b {
            TokenOf::Float(y) => *x == *y,
            _ => false,
        },
        TokenOf::Str(x) => match b {
            TokenOf::Str(y) => *x == *y,
            _ => false,
        },
        TokenOf::Bool(x) => match b {
            TokenOf::Bool(y) => *x == *y,
            _ => false,
        },
        TokenOf::Newline => matches!(b, TokenOf::Newline),
        TokenOf::Indent => matches!(b, TokenOf::Indent),
        TokenOf::Dedent => matches!(b, TokenOf::Dedent),
        TokenOf::NoneValue => matches!(b, TokenOf::NoneValue),
        TokenOf::Add => matches!(b, TokenOf::Add),
        TokenOf::Sub => matches!(b, TokenOf::Sub),
        TokenOf::Not => matches!(b, TokenOf::Not),
        TokenOf::Mul => matches!(b, TokenOf::Mul),
        TokenOf::Div => matches!(b, TokenOf::Div),
        TokenOf::Modulo => matches!(b, TokenOf::Modulo),
        TokenOf::Pow => matches!(b, TokenOf::Pow),
        TokenOf::Eq => matches!(b, TokenOf::Eq),
        TokenOf::Lt => matches!(b, TokenOf::Lt),
        TokenOf::Gt => matches!(b, TokenOf::Gt),
        TokenOf::NEq => matches!(b, TokenOf::NEq),
        TokenOf::LtEq => matches!(b, TokenOf::LtEq),
        TokenOf::GtEq => matches!(b, TokenOf::GtEq),
        TokenOf::And => matches!(b, TokenOf::And),
        TokenOf::Or => matches!(b, TokenOf::Or),
        TokenOf::Walrus => matches!(b, TokenOf::Walrus),
        TokenOf::Period => matches!(b, TokenOf::Period),
        TokenOf::Comma => matches!(b, TokenOf::Comma),
        TokenOf::Assign => matches!(b, TokenOf::Assign),
        TokenOf::Colon => matches!(b, TokenOf::Colon),
        TokenOf::SemiColon => matches!(b, TokenOf::SemiColon),
        TokenOf::Question => matches!(b, TokenOf::Question),
        TokenOf::OpenParen => matches!(b, TokenOf::OpenParen),
        TokenOf::CloseParen => matches!(b, TokenOf::CloseParen),
        TokenOf::OpenCurly => matches!(b, TokenOf::OpenCurly),
        TokenOf::CloseCurly => matches!(b, TokenOf::CloseCurly),
        TokenOf::OpenSquare => matches!(b, TokenOf::OpenSquare),
        TokenOf::CloseSquare => matches!(b, TokenOf::CloseSquare),
        TokenOf::Arrow => matches!(b, TokenOf::Arrow),
        TokenOf::FatArrow => matches!(b, TokenOf::FatArrow),
        TokenOf::Let => matches!(b, TokenOf::Let),
        TokenOf::Fn => matches!(b, TokenOf::Fn),
        TokenOf::If => matches!(b, TokenOf::If),
        TokenOf::Else => matches!(b, TokenOf::Else),
        TokenOf::While => matches!(b, TokenOf::While),
        TokenOf::Static => matches!(b, TokenOf::Static),
        TokenOf::Const => matches!(b, TokenOf::Const),
    }
}

/// Takes a token of the line that must be there: the end of the line is an error.
pub open spec fn take_some_model(m: LineModel, expect: Seq<char>) -> (LineModel, Result<TokenModel, ParseErrorModel>) {
    let (m1, r) = line_take(m);
    match r {
        Some(Ok(t)) => (m1, Ok(t)),
        Some(Err(e)) => (m1, Err(e)),
        None => (m1, Err(unexpected(expect, None, m1.span))),
    }
}

/// Takes a token of the line that must be `expect` (`None`: the end of the line).
pub open spec fn take_expect_model(m: LineModel, expect: Option<TokenModel>) -> (LineModel, Result<(), ParseErrorModel>) {
    let (m1, r) = line_take(m);
    match r {
        Some(Err(e)) => (m1, Err(e)),
        _ => {
            let token = match r {
                Some(Ok(t)) => Some(t),
                _ => None,
            };
            if expect == token {
                (m1, Ok(()))
            } else {
                let text = match expect {
                    Some(t) => token_text(t),
                    None => "end of line"@,
                };
                (m1, Err(unexpected(text, token, m1.span)))
            }
        },
    }
}

/// Reads tokens for the parser with one token of look-ahead.
pub struct LineParser {
    peeked: Option<Token>,
    stream: ShellStream,
    span: Span,
}

/// The value of an optional token.
pub open spec fn opt_token_view(t: Option<Token>) -> Option<TokenModel> {
    match t {
        Some(x) => Some(x@),
        None => None,
    }
}

/// The value of a token result.
pub open spec fn result_view(r: Option<Result<Token, ParseError>>) -> Option<Result<TokenModel, ParseErrorModel>> {
    match r {
        None => None,
        Some(Ok(t)) => Some(Ok(t@)),
        Some(Err(e)) => Some(Err(e@)),
    }
}

impl View for LineParser {
    type V = LineModel;

    closed spec fn view(&self) -> LineModel {
        LineModel { peeked: opt_token_view(self.peeked), stream: self.stream@, span: self.span }
    }
}

/// Copies a token.
pub fn copy_token(t: &Token) -> (r: Token)
    ensures
        r@ == t@,
{
    match t {
        TokenOf::Ident(s) => TokenOf::Ident(s.clone()),
        TokenOf::Int(s) => TokenOf::Int(s.clone()),
        TokenOf::Float(s) => TokenOf::Float(s.clone()),
        TokenOf::Str(s) => TokenOf::Str(s.clone()),
        TokenOf::Bool(b) => TokenOf::Bool(*b),
        TokenOf::Newline => TokenOf::Newline,
        TokenOf::Indent => TokenOf::Indent,
        TokenOf::Dedent => TokenOf::Dedent,
        TokenOf::NoneValue => TokenOf::NoneValue,
        TokenOf::Add => TokenOf::Add,
        TokenOf::Sub => TokenOf::Sub,
        TokenOf::Not => TokenOf::Not,
        TokenOf::Mul => TokenOf::Mul,
        TokenOf::Div => TokenOf::Div,
        TokenOf::Modulo => TokenOf::Modulo,
        TokenOf::Pow => TokenOf::Pow,
        TokenOf::Eq => TokenOf::Eq,
        TokenOf::Lt => TokenOf::Lt,
        TokenOf::Gt => TokenOf::Gt,
        TokenOf::NEq => TokenOf::NEq,
        TokenOf::LtEq => TokenOf::LtEq,
        TokenOf::GtEq => TokenOf::GtEq,
        TokenOf::And => TokenOf::And,
        TokenOf::Or => TokenOf::Or,
        TokenOf::Walrus => TokenOf::Walrus,
        TokenOf::Period => TokenOf::Period,
        TokenOf::Comma => TokenOf::Comma,
        TokenOf::Assign => TokenOf::Assign,
        TokenOf::Colon => TokenOf::Colon,
        TokenOf::SemiColon => TokenOf::SemiColon,
        TokenOf::Question => TokenOf::Question,
        TokenOf::OpenParen => TokenOf::OpenParen,
        TokenOf::CloseParen => TokenOf::CloseParen,
        TokenOf::OpenCurly => TokenOf::OpenCurly,
        TokenOf::CloseCurly => TokenOf::CloseCurly,
        TokenOf::OpenSquare => TokenOf::OpenSquare,
        TokenOf::CloseSquare => TokenOf::CloseSquare,
        TokenOf::Arrow => TokenOf::Arrow,
        TokenOf::FatArrow => TokenOf::FatArrow,
        TokenOf::Let => TokenOf::Let,
        TokenOf::Fn => TokenOf::Fn,
        TokenOf::If => TokenOf::If,
        TokenOf::Else => TokenOf::Else,
        TokenOf::While => TokenOf::While,
        TokenOf::Static => TokenOf::Static,
        TokenOf::Const => TokenOf::Const,
    }
}

/// Whether a token is a line break.
pub fn is_newline(t: &Token) -> (r: bool)
    ensures
        r == (t@ == TokenOf::<Seq<char>>::Newline),
{
    match t {
        TokenOf::Newline => true,
        _ => false,
    }
}

impl LineParser {
    /// Starts reading `stream`; the span starts empty at the end of the stream's span.
    pub fn new(stream: ShellStream) -> (p: Self)
        ensures
            p@ == (LineModel { peeked: None, stream: stream@, span: end_span(stream@.span) }),
    {
        let end = stream.token_end();
        LineParser { peeked: None, stream, span: Span::new(end, end) }
    }

    /// A copy of the parser.
    pub fn duplicate(&self) -> (p: Self)
        ensures
            p@ == self@,
    {
        let peeked = match &self.peeked {
            Some(t) => Some(copy_token(t)),
            None => None,
        };
        LineParser { peeked, stream: self.stream.duplicate(), span: self.span }
    }

    /// Hands back the stream (a token looked at but not taken is dropped).
    pub fn into_stream(self) -> (s: ShellStream)
        ensures
            s@ == self@.stream,
    {
        self.stream
    }

    /// Where the token taken last starts.
    pub fn token_start(&self) -> (n: usize)
        ensures
            n == self@.span.start,
    {
        self.span.start
    }

    /// Where the token taken last ends.
    pub fn token_end(&self) -> (n: usize)
        ensures
            n == self@.span.end,
    {
        self.span.end
    }

    /// The span of the token taken last.
    pub fn token_span(&self) -> (s: Span)
        ensures
            s == self@.span,
    {
        self.span
    }

    /// An empty span where the token taken last starts.
    pub fn token_start_span(&self) -> (s: Span)
        ensures
            s == start_span(self@.span),
    {
        Span::new(self.span.start, self.span.start)
    }

    /// An empty span where the token taken last ends.
    pub fn token_end_span(&self) -> (s: Span)
        ensures
            s == end_span(self@.span),
    {
        Span::new(self.span.end, self.span.end)
    }

    fn generate(&mut self) -> (r: Option<Result<Token, ParseError>>)
        ensures
            (final(self)@, result_view(r)) == generate(old(self)@),
    {
        match self.stream.next_token() {
            None => None,
            Some(Ok(token)) => Some(Ok(token)),
            Some(Err(error)) => Some(Err(ParseError::TokenError { error, span: self.stream.token_span() })),
        }
    }

    /// Takes a token (see [`take_model`]).
    pub fn take_token(&mut self) -> (r: Option<Result<Token, ParseError>>)
        ensures
            (final(self)@, result_view(r)) == take_model(old(self)@),
    {
        match self.peeked.take() {
            Some(token) => {
                self.span = self.stream.token_span();
                Some(Ok(token))
            },
            None => match self.generate() {
                None => {
                    self.span = Span::new(self.span.end, self.span.end);
                    None
                },
                Some(result) => {
                    self.span = self.stream.token_span();
                    Some(result)
                },
            },
        }
    }

    /// Looks at the next token (see [`peek_model`]); the token is copied out.
    pub fn peek_token(&mut self) -> (r: Option<Result<Token, ParseError>>)
        ensures
            (final(self)@, result_view(r)) == peek_model(old(self)@),
    {
        match &self.peeked {
            Some(token) => Some(Ok(copy_token(token))),
            None => match self.generate() {
                None => None,
                Some(Err(error)) => Some(Err(error)),
                Some(Ok(token)) => {
                    let copy = copy_token(&token);
                    self.peeked = Some(token);
                    Some(Ok(copy))
                },
            },
        }
    }

    /// Takes tokens up to and including a line break (see [`parser_consume_model`]); the
    /// errors found, if any, are the error.
    pub fn consume_line(&mut self) -> (r: Result<(), Vec<ParseError>>)
        ensures
            ({
                let (m1, es) = parser_consume_model(old(self)@, Seq::empty());
                &&& final(self)@ == m1
                &&& (es.len() == 0 ==> r is Ok)
                &&& (es.len() > 0 ==> (r matches Err(v) && errors_view(v@) == es))
            }),
    {
        let mut errors: Vec<ParseError> = Vec::new();
        assert(errors_view(errors@) =~= Seq::<ParseErrorModel>::empty());
        loop
            invariant_except_break
                parser_consume_model(self@, errors_view(errors@)) == parser_consume_model(old(self)@, Seq::empty()),
            ensures
                (self@, errors_view(errors@)) == parser_consume_model(old(self)@, Seq::empty()),
            decreases measure(self@),
        {
            let ghost before = self@;
            proof {
                lemma_take_measure(before);
            }
            match self.take_token() {
                None => {
                    break;
                },
                Some(Err(error)) => {
                    proof {
                        assert(errors_view(errors@.push(error)) =~= errors_view(errors@).push(error@));
                    }
                    errors.push(error);
                },
                Some(Ok(token)) => {
                    if is_newline(&token) {
                        break;
                    }
                },
            }
        }
        if errors.len() == 0 {
            Ok(())
        } else {
            Err(errors)
        }
    }

    /// Starts reading a line.
    pub fn line(self) -> (l: TokenLine)
        ensures
            l@ == self@,
    {
        TokenLine { parser: self }
    }
}

/// The parser restricted to one line: a line break ends it and is left to be read again.
pub struct TokenLine {
    parser: LineParser,
}

impl View for TokenLine {
    type V = LineModel;

    closed spec fn view(&self) -> LineModel {
        self.parser@
    }
}

impl TokenLine {
    /// A copy of the line.
    pub fn duplicate(&self) -> (l: Self)
        ensures
            l@ == self@,
    {
        TokenLine { parser: self.parser.duplicate() }
    }

    /// Hands back the parser.
    pub fn into_parser(self) -> (p: LineParser)
        ensures
            p@ == self@,
    {
        self.parser
    }

    /// Where the token taken last starts.
    pub fn token_start(&self) -> (n: usize)
        ensures
            n == self@.span.start,
    {
        self.parser.token_start()
    }

    /// Where the token taken last ends.
    pub fn token_end(&self) -> (n: usize)
        ensures
            n == self@.span.end,
    {
        self.parser.token_end()
    }

    /// The span of the token taken last.
    pub fn token_span(&self) -> (s: Span)
        ensures
            s == self@.span,
    {
        self.parser.token_span()
    }

    /// An empty span where the token taken last ends.
    pub fn token_end_span(&self) -> (s: Span)
        ensures
            s == end_span(self@.span),
    {
        self.parser.token_end_span()
    }

    /// Takes a token of the line (see [`line_take`]).
    pub fn take_token(&mut self) -> (r: Option<Result<Token, ParseError>>)
        ensures
            (final(self)@, result_view(r)) == line_take(old(self)@),
    {
        match self.parser.take_token() {
            Some(Ok(token)) => {
                if is_newline(&token) {
                    self.parser.peeked = Some(token);
                    None
                } else {
                    Some(Ok(token))
                }
            },
            result => result,
        }
    }

    /// Looks at the next token of the line (see [`line_peek`]).
    pub fn peek_token(&mut self) -> (r: Option<Result<Token, ParseError>>)
        ensures
            (final(self)@, result_view(r)) == line_peek(old(self)@),
    {
        match self.parser.peek_token() {
            Some(Ok(token)) => {
                if is_newline(&token) {
                    None
                } else {
                    Some(Ok(token))
                }
            },
            result => result,
        }
    }

    /// Looks at a token of the line that must be there (see [`peek_some_model`]).
    pub fn peek_some(&mut self, expect: &str) -> (r: Result<Token, ParseError>)
        ensures
            (final(self)@, match r {
                Ok(t) => Ok::<TokenModel, ParseErrorModel>(t@),
                Err(e) => Err(e@),
            }) == peek_some_model(old(self)@, expect@),
    {
        match self.peek_token() {
            Some(result) => result,
            None => Err(ParseError::UnexpectedInput { expect: expect.to_owned(), found: None, span: self.parser.stream.token_span() }),
        }
    }

    /// Looks at a token of the line that must be `expect` (see [`peek_expect_model`]).
    pub fn peek_expect(&mut self, expect: Option<&Token>) -> (r: Result<(), ParseError>)
        ensures
            (final(self)@, match r {
                Ok(_) => Ok::<(), ParseErrorModel>(()),
                Err(e) => Err(e@),
            }) == peek_expect_model(old(self)@, match expect {
                Some(t) => Some(t@),
                None => None,
            }),
    {
        let token = match self.peek_token() {
            None => None,
            Some(Ok(token)) => Some(token),
            Some(Err(error)) => {
                return Err(error);
            },
        };
        let same = match (expect, &token) {
            (None, None) => true,
            (Some(a), Some(b)) => same_token(a, b),
            _ => false,
        };
        if same {
            Ok(())
        } else {
            let text = match expect {
                Some(t) => display_token(t),
                None => "end of line".to_owned(),
            };
            Err(ParseError::UnexpectedInput { expect: text, found: token, span: self.token_span() })
        }
    }

    /// Takes a token of the line that must be there (see [`take_some_model`]).
    pub fn take_some(&mut self, expect: &str) -> (r: Result<Token, ParseError>)
        ensures
            (final(self)@, match r {
                Ok(t) => Ok::<TokenModel, ParseErrorModel>(t@),
                Err(e) => Err(e@),
            }) == take_some_model(old(self)@, expect@),
    {
        match self.take_token() {
            Some(result) => result,
            None => Err(ParseError::UnexpectedInput { expect: expect.to_owned(), found: None, span: self.token_span() }),
        }
    }

    /// Takes a token of the line that must be `expect` (see [`take_expect_model`]).
    pub fn take_expect(&mut self, expect: Option<&Token>) -> (r: Result<(), ParseError>)
        ensures
            (final(self)@, match r {
                Ok(_) => Ok::<(), ParseErrorModel>(()),
                Err(e) => Err(e@),
            }) == take_expect_model(old(self)@, match expect {
                Some(t) => Some(t@),
                None => None,
            }),
    {
        let token = match self.take_token() {
            None => None,
            Some(Ok(token)) => Some(token),
            Some(Err(error)) => {
                return Err(error);
            },
        };
        let same = match (expect, &token) {
            (None, None) => true,
            (Some(a), Some(b)) => same_token(a, b),
            _ => false,
        };
        if same {
            Ok(())
        } else {
            let text = match expect {
                Some(t) => display_token(t),
                None => "end of line".to_owned(),
            };
            Err(ParseError::UnexpectedInput { expect: text, found: token, span: self.token_span() })
        }
    }

    /// Takes the rest of the line, adding the errors found in it to `store`.
    pub fn consume_line(&mut self, store: &mut Vec<ParseError>)
        ensures
            spans_ok(old(self)@) ==> spans_ok(final(self)@),
            measure(final(self)@) <= measure(old(self)@),
            final(store)@.len() >= old(store)@.len(),
            (final(self)@, errors_view(final(store)@)) == consume_line_model(old(self)@, errors_view(old(store)@)),
    {
        loop
            invariant
                spans_ok(old(self)@) ==> spans_ok(self@),
                measure(self@) <= measure(old(self)@),
                store@.len() >= old(store)@.len(),
                consume_line_model(self@, errors_view(store@)) == consume_line_model(old(self)@, errors_view(old(store)@)),
            decreases measure(self@),
        {
            let ghost before = self@;
            proof {
                lemma_line_take_measure(before);
            }
            match self.take_token() {
                None => {
                    return;
                },
                Some(Err(error)) => {
                    proof {
                        assert(errors_view(store@.push(error)) =~= errors_view(store@).push(error@));
                    }
                    store.push(error);
                },
                Some(Ok(_)) => {},
            }
        }
    }

    /// Takes the line until `until` says to stop at a token, adding the errors found to
    /// `store` (see [`consume_until_model`], for any `flag` that `until` implements).
    pub fn consume_until<F: Fn(&Token) -> ConsumeFlag>(&mut self, store: &mut Vec<ParseError>, until: F) -> (end: ConsumeEnd)
        requires
            forall|t: &Token| until.requires((t,)),
        ensures
            forall|flag: spec_fn(TokenModel) -> ConsumeFlag|
                #[trigger] implements(until, flag) ==> (final(self)@, errors_view(final(store)@), end@) == consume_until_model(
                    old(self)@,
                    errors_view(old(store)@),
                    flag,
                ),
    {
        loop
            invariant
                forall|t: &Token| until.requires((t,)),
                forall|flag: spec_fn(TokenModel) -> ConsumeFlag|
                    #[trigger] implements(until, flag) ==> consume_until_model(self@, errors_view(store@), flag)
                        == consume_until_model(old(self)@, errors_view(old(store)@), flag),
            decreases measure(self@),
        {
            let ghost before = self@;
            let ghost errs = errors_view(store@);
            proof {
                lemma_line_take_measure(before);
            }
            match self.take_token() {
                None => {
                    return ConsumeEnd::Nothing;
                },
                Some(Err(error)) => {
                    proof {
                        assert(errors_view(store@.push(error)) =~= errs.push(error@));
                    }
                    store.push(error);
                },
                Some(Ok(token)) => {
                    let ghost tv = token@;
                    let f = until(&token);
                    match f {
                        ConsumeFlag::Ignore => {},
                        ConsumeFlag::Inclusive => {
                            return ConsumeEnd::Inclusive(token);
                        },
                        ConsumeFlag::Exclusive => {
                            let copy = copy_token(&token);
                            self.parser.peeked = Some(token);
                            return ConsumeEnd::Exclusive(copy);
                        },
                    }
                },
            }
        }
    }

    /// Takes the line up to and including a `)`, adding the errors found to `store`; says
    /// whether a `)` was found.
    pub fn consume_until_close(&mut self, store: &mut Vec<ParseError>) -> (found: bool)
        ensures
            spans_ok(old(self)@) ==> spans_ok(final(self)@),
            measure(final(self)@) <= measure(old(self)@),
            final(store)@.len() >= old(store)@.len(),
            (final(self)@, errors_view(final(store)@), found) == consume_close_model(old(self)@, errors_view(old(store)@)),
    {
        loop
            invariant
                spans_ok(old(self)@) ==> spans_ok(self@),
                measure(self@) <= measure(old(self)@),
                store@.len() >= old(store)@.len(),
                consume_close_model(self@, errors_view(store@)) == consume_close_model(old(self)@, errors_view(old(store)@)),
            decreases measure(self@),
        {
            let ghost before = self@;
            proof {
                lemma_line_take_measure(before);
            }
            match self.take_token() {
                None => {
                    return false;
                },
                Some(Err(error)) => {
                    proof {
                        assert(errors_view(store@.push(error)) =~= errors_view(store@).push(error@));
                    }
                    store.push(error);
                },
                Some(Ok(TokenOf::CloseParen)) => {
                    return true;
                },
                Some(Ok(_)) => {},
            }
        }
    }
}

} // verus!
