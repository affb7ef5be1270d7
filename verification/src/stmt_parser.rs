//! Statements, one line at a time: `let`, assignments and expressions end on their line;
//! `while` and `fn` open a block that takes the indented lines after them, until a dedent.
use vstd::prelude::*;

use crate::expr_parser::{expr_result, lemma_name_stops, lemma_peeked_next, node, parse, parse_model};
use crate::line_parser::{
    consume_close_model, consume_line_model, end_span, errors_view, lemma_line_peek_measure, lemma_line_take_measure,
    line_peek, line_take, measure, spans_ok, take_expect_model, take_some_model, unexpected, LineModel, ParseError,
    ParseErrorModel, TokenLine,
};
use crate::parse_token::{Span, Token, TokenModel, TokenOf};
use crate::syntax::{
    Expr, ExprModel, ExprNode, ExprNodeModel, FuncModel, FuncNode, Statement, StatementModel, StatementNode,
    StatementNodeModel,
};

verus! {

/// How a line statement ended.
#[derive(Debug, Clone, Copy, PartialEq, Eq, Structural)]
pub enum CloseType {
    SemiColon,
    EndLine,
}

/// The end of a line statement: the end of the line, or `;` and then the end of the
/// line. On an error the rest of the line is read.
pub open spec fn close_model(m: LineModel) -> (LineModel, Result<CloseType, Seq<ParseErrorModel>>) {
    let (m1, t) = line_take(m);
    let (m2, r) = match t {
        Some(Err(e)) => (m1, Err(seq![e])),
        None => (m1, Ok(CloseType::EndLine)),
        Some(Ok(TokenOf::SemiColon)) => {
            let (m2, c) = take_expect_model(m1, None);
            match c {
                Err(e) => (m2, Err(seq![e])),
                Ok(_) => (m2, Ok(CloseType::SemiColon)),
            }
        },
        Some(Ok(tok)) => (m1, Err(seq![unexpected("';' or end of line"@, Some(tok), m1.span)])),
    };
    match r {
        Err(es) => {
            let (m3, es2) = consume_line_model(m2, es);
            (m3, Err(es2))
        },
        Ok(c) => (m2, Ok(c)),
    }
}

/// The value of a block being parsed: the statement still open in it, the statements
/// so far, and whether it is complete.
pub struct BlockModel {
    pub pending: Option<Box<StatementParserModel>>,
    pub body: Seq<StatementNodeModel>,
    pub complete: bool,
}

/// The value of an open multi-line statement.
pub struct StatementParserModel {
    pub kind: Option<ParseKindModel>,
}

/// The value of what an open statement is.
pub enum ParseKindModel {
    While { source: Span, cond: ExprNodeModel, block: BlockModel },
    Func { source: Span, name: Seq<char>, params: Seq<Seq<char>>, block: BlockModel },
}

/// The value of the start of a statement: a whole statement, or one that goes on.
pub enum StatementTypeModel {
    SingleLine(StatementNodeModel),
    MultiLine(StatementParserModel),
}

/// A statement node by value.
pub open spec fn stmt(s: StatementModel, span: Span) -> StatementNodeModel {
    StatementNodeModel { statement: s, span }
}

/// A new, empty block.
pub open spec fn empty_block() -> BlockModel {
    BlockModel { pending: None, body: Seq::empty(), complete: false }
}

/// The start of a block: `:` and then the end of the line. On an error the rest of the
/// line is read.
pub open spec fn block_start_model(m: LineModel) -> (LineModel, Result<BlockModel, Seq<ParseErrorModel>>) {
    let (m1, t) = line_take(m);
    let (m2, r) = match t {
        Some(Err(e)) => (m1, Err(seq![e])),
        Some(Ok(TokenOf::Colon)) => {
            let (m2, c) = take_expect_model(m1, None);
            match c {
                Err(e) => (m2, Err(seq![e])),
                Ok(_) => (m2, Ok(empty_block())),
            }
        },
        Some(Ok(tok)) => (m1, Err(seq![unexpected("':'"@, Some(tok), m1.span)])),
        None => (m1, Err(seq![unexpected("':'"@, None, m1.span)])),
    };
    match r {
        Err(es) => {
            let (m3, es2) = consume_line_model(m2, es);
            (m3, Err(es2))
        },
        Ok(b) => (m2, Ok(b)),
    }
}

/// The parameters of a function after `(`, after `params`: names separated by `,` and
/// closed by `)`; gives the names and where the `)` ends.
pub open spec fn params_model(m: LineModel, params: Seq<Seq<char>>) -> (LineModel, Result<(Seq<Seq<char>>, usize), Seq<ParseErrorModel>>)
    decreases measure(m),
{
    let (m1, t) = take_some_model(m, "identifier or ')'"@);
    match t {
        Err(e) => (m1, Err(seq![e])),
        Ok(TokenOf::CloseParen) => (m1, Ok((params, m1.span.end))),
        Ok(TokenOf::Ident(name)) => {
            let (m2, t2) = take_some_model(m1, "',' or ')'"@);
            match t2 {
                Err(e) => (m2, Err(seq![e])),
                Ok(TokenOf::Comma) => if measure(m2) < measure(m) {
                    params_model(m2, params.push(name))
                } else {
                    (m2, Err(Seq::empty()))
                },
                Ok(TokenOf::CloseParen) => (m2, Ok((params.push(name), m2.span.end))),
                Ok(tok) => (m2, Err(seq![unexpected("',' or ')'"@, Some(tok), m2.span)])),
            }
        },
        Ok(tok) => (m1, Err(seq![unexpected("identifier or ')'"@, Some(tok), m1.span)])),
    }
}

/// After an expression at the start of a line: the end of the line or `;` makes it a
/// statement, `=` makes it the target of an assignment.
#[verifier::opaque]
pub open spec fn expr_statement_model(m: LineModel, expr: ExprNodeModel) -> (LineModel, Result<StatementTypeModel, Seq<ParseErrorModel>>) {
    let (m1, t) = line_take(m);
    match t {
        Some(Err(e)) => (m1, Err(seq![e])),
        None => (m1, Ok(StatementTypeModel::SingleLine(stmt(StatementModel::Expr { expr, closed: false }, expr.span)))),
        Some(Ok(TokenOf::SemiColon)) => {
            let (m2, c) = take_expect_model(m1, None);
            match c {
                Err(e) => (m2, Err(seq![e])),
                Ok(_) => (m2, Ok(StatementTypeModel::SingleLine(stmt(StatementModel::Expr { expr, closed: true }, expr.span)))),
            }
        },
        Some(Ok(TokenOf::Assign)) => {
            let (m2, rhs) = parse_model(m1);
            match rhs {
                Err(es) => (m2, Err(es)),
                Ok(rhs) => {
                    let (m3, c) = close_model(m2);
                    match c {
                        Err(es) => (m3, Err(es)),
                        Ok(_) => (
                            m3,
                            Ok(
                                StatementTypeModel::SingleLine(
                                    stmt(
                                        StatementModel::Assign { init: false, lhs: expr, rhs },
                                        Span { start: expr.span.start, end: rhs.span.end },
                                    ),
                                ),
                            ),
                        ),
                    }
                },
            }
        },
        Some(Ok(tok)) => (m1, Err(seq![unexpected("'=', ';', or end of line"@, Some(tok), m1.span)])),
    }
}

/// `let lhs = rhs`, after `let` (which started at `start`).
#[verifier::opaque]
pub open spec fn let_model(m: LineModel, start: usize) -> (LineModel, Result<StatementTypeModel, Seq<ParseErrorModel>>) {
    let (m1, lhs) = parse_model(m);
    match lhs {
        Err(es) => (m1, Err(es)),
        Ok(lhs) => {
            let (m2, a) = take_expect_model(m1, Some(TokenOf::Assign));
            match a {
                Err(e) => (m2, Err(seq![e])),
                Ok(_) => {
                    let (m3, rhs) = parse_model(m2);
                    match rhs {
                        Err(es) => (m3, Err(es)),
                        Ok(rhs) => {
                            let (m4, c) = close_model(m3);
                            match c {
                                Err(es) => (m4, Err(es)),
                                Ok(_) => (
                                    m4,
                                    Ok(
                                        StatementTypeModel::SingleLine(
                                            stmt(
                                                StatementModel::Assign { init: true, lhs, rhs },
                                                Span { start, end: rhs.span.end },
                                            ),
                                        ),
                                    ),
                                ),
                            }
                        },
                    }
                },
            }
        },
    }
}

/// `while cond:`, after `while` (which started at `start`).
#[verifier::opaque]
pub open spec fn while_model(m: LineModel, start: usize) -> (LineModel, Result<StatementTypeModel, Seq<ParseErrorModel>>) {
    let (m1, cond) = parse_model(m);
    match cond {
        Err(es) => (m1, Err(es)),
        Ok(cond) => {
            let (m2, b) = block_start_model(m1);
            match b {
                Err(es) => (m2, Err(es)),
                Ok(block) => (
                    m2,
                    Ok(
                        StatementTypeModel::MultiLine(
                            StatementParserModel {
                                kind: Some(
                                    ParseKindModel::While { source: Span { start, end: cond.span.end }, cond, block },
                                ),
                            },
                        ),
                    ),
                ),
            }
        },
    }
}

/// `fn name(params):`, after `fn` (which started at `start`). An error in the parameters
/// reads the line up to a `)`, reporting an unclosed brace at `start` if there is none.
#[verifier::opaque]
pub open spec fn fn_model(m: LineModel, start: usize) -> (LineModel, Result<StatementTypeModel, Seq<ParseErrorModel>>) {
    let (m1, t) = take_some_model(m, "identifier"@);
    match t {
        Err(e) => (m1, Err(seq![e])),
        Ok(TokenOf::Ident(name)) => {
            let (m2, o) = take_expect_model(m1, Some(TokenOf::OpenParen));
            match o {
                Err(e) => (m2, Err(seq![e])),
                Ok(_) => {
                    let (m3, ps) = params_model(m2, Seq::empty());
                    match ps {
                        Err(es) => {
                            let (m4, es2, found) = consume_close_model(m3, es);
                            if found {
                                (m4, Err(es2))
                            } else {
                                (
                                    m4,
                                    Err(
                                        es2.push(
                                            ParseErrorModel::UnclosedBrace {
                                                open: Span { start, end: (start + 1) as usize },
                                                end: end_span(m4.span),
                                            },
                                        ),
                                    ),
                                )
                            }
                        },
                        Ok((params, end)) => {
                            let (m4, b) = block_start_model(m3);
                            match b {
                                Err(es) => (m4, Err(es)),
                                Ok(block) => (
                                    m4,
                                    Ok(
                                        StatementTypeModel::MultiLine(
                                            StatementParserModel {
                                                kind: Some(
                                                    ParseKindModel::Func {
                                                        source: Span { start, end },
                                                        name,
                                                        params,
                                                        block,
                                                    },
                                                ),
                                            },
                                        ),
                                    ),
                                ),
                            }
                        },
                    }
                },
            }
        },
        Ok(tok) => (m1, Err(seq![unexpected("identifier"@, Some(tok), m1.span)])),
    }
}

/// The start of a statement: by its first token, `let`, `while`, `fn`, `if` or an
/// expression. After `if` only a condition that does not parse is handled: its errors are
/// the result (the rest is not handled yet, see [`start_hits_if`]). On an error the rest
/// of the line is read.
pub open spec fn start_model(m: LineModel) -> (LineModel, Result<StatementTypeModel, Seq<ParseErrorModel>>) {
    let (m1, p) = line_peek(m);
    let (m2, r) = match p {
        Some(Ok(TokenOf::Let)) => {
            let (m2, _) = line_take(m1);
            let_model(m2, m2.span.start)
        },
        Some(Ok(TokenOf::While)) => {
            let (m2, _) = line_take(m1);
            while_model(m2, m2.span.start)
        },
        Some(Ok(TokenOf::Fn)) => {
            let (m2, _) = line_take(m1);
            fn_model(m2, m2.span.start)
        },
        Some(Ok(TokenOf::If)) => {
            let (m2, _) = line_take(m1);
            let (m3, e) = parse_model(m2);
            match e {
                Err(es) => (m3, Err(es)),
                Ok(_) => (m3, Err(Seq::empty())),
            }
        },
        Some(_) => {
            let (m2, e) = parse_model(m1);
            match e {
                Err(es) => (m2, Err(es)),
                Ok(expr) => expr_statement_model(m2, expr),
            }
        },
        None => (m1, Err(seq![unexpected("'let' or expression"@, None, m1.span)])),
    };
    match r {
        Err(es) => {
            let (m3, es2) = consume_line_model(m2, es);
            (m3, Err(es2))
        },
        Ok(s) => (m2, Ok(s)),
    }
}

/// The start of a statement is `if` followed by a condition that parses: what comes next
/// is not handled yet.
pub open spec fn start_hits_if(m: LineModel) -> bool {
    let (m1, p) = line_peek(m);
    &&& p == Some(Ok::<TokenModel, ParseErrorModel>(TokenOf::If))
    &&& parse_model(line_take(m1).0).1 is Ok
}

/// Parsing a line in block `b` starts a statement at `if` (see [`block_line_model`]).
pub open spec fn block_hits_if(b: BlockModel, m: LineModel) -> bool
    decreases b,
{
    if b.complete {
        false
    } else {
        let fresh = b.pending is None && b.body.len() == 0;
        let (m1, p) = line_peek(m);
        if fresh && p != Some(Ok::<TokenModel, ParseErrorModel>(TokenOf::Indent)) {
            false
        } else {
            let m0 = if fresh {
                line_take(m1).0
            } else {
                m
            };
            match b.pending {
                Some(parser) => statement_hits_if(*parser, m0),
                None => {
                    let (m2, q) = line_peek(m0);
                    if q == Some(Ok::<TokenModel, ParseErrorModel>(TokenOf::Dedent)) {
                        false
                    } else {
                        start_hits_if(m2)
                    }
                },
            }
        }
    }
}

/// Parsing a line in an open statement starts a statement at `if`.
pub open spec fn statement_hits_if(p: StatementParserModel, m: LineModel) -> bool
    decreases p,
{
    match p.kind {
        None => false,
        Some(ParseKindModel::While { block, .. }) => block_hits_if(block, m),
        Some(ParseKindModel::Func { block, .. }) => block_hits_if(block, m),
    }
}

/// One line of a block: a fresh block takes a leading indent, or ends at once with no
/// statements; an open statement takes the line; otherwise a dedent ends the block (left
/// to be read again) and anything else starts a statement. Gives the body once the block
/// ends.
pub open spec fn block_line_model(b: BlockModel, m: LineModel) -> (BlockModel, LineModel, Result<Option<Seq<StatementNodeModel>>, Seq<ParseErrorModel>>)
    decreases b,
{
    if b.complete {
        (b, m, Ok(None))
    } else {
        let fresh = b.pending is None && b.body.len() == 0;
        let (m1, p) = line_peek(m);
        if fresh && p != Some(Ok::<TokenModel, ParseErrorModel>(TokenOf::Indent)) {
            (b, m1, Ok(Some(Seq::empty())))
        } else {
            let m0 = if fresh {
                line_take(m1).0
            } else {
                m
            };
            match b.pending {
                Some(parser) => {
                    let (p2, m2, r) = statement_line_model(*parser, m0);
                    match r {
                        Err(es) => (BlockModel { pending: None, ..b }, m2, Err(es)),
                        Ok(Some(s)) => (BlockModel { pending: None, body: b.body.push(s), ..b }, m2, Ok(None)),
                        Ok(None) => (BlockModel { pending: Some(Box::new(p2)), ..b }, m2, Ok(None)),
                    }
                },
                None => {
                    let (m2, q) = line_peek(m0);
                    if q == Some(Ok::<TokenModel, ParseErrorModel>(TokenOf::Dedent)) {
                        (BlockModel { body: Seq::empty(), ..b }, m2, Ok(Some(b.body)))
                    } else {
                        let (m3, s) = start_model(m2);
                        match s {
                            Err(es) => (b, m3, Err(es)),
                            Ok(StatementTypeModel::MultiLine(parser)) => (
                                BlockModel { pending: Some(Box::new(parser)), ..b },
                                m3,
                                Ok(None),
                            ),
                            Ok(StatementTypeModel::SingleLine(st)) => (BlockModel { body: b.body.push(st), ..b }, m3, Ok(None)),
                        }
                    }
                },
            }
        }
    }
}

/// One line of an open statement: once its block ends, a `while` becomes a loop and a
/// `fn` an assignment of the function to its name; until then it stays open.
pub open spec fn statement_line_model(p: StatementParserModel, m: LineModel) -> (StatementParserModel, LineModel, Result<Option<StatementNodeModel>, Seq<ParseErrorModel>>)
    decreases p,
{
    match p.kind {
        None => (p, m, Ok(None)),
        Some(ParseKindModel::While { source, cond, block }) => {
            let (b2, m1, r) = block_line_model(block, m);
            match r {
                Ok(Some(body)) => (
                    StatementParserModel { kind: None },
                    m1,
                    Ok(Some(stmt(StatementModel::While { cond, body }, source))),
                ),
                Ok(None) => (
                    StatementParserModel { kind: Some(ParseKindModel::While { source, cond, block: b2 }) },
                    m1,
                    Ok(None),
                ),
                Err(es) => (
                    StatementParserModel { kind: Some(ParseKindModel::While { source, cond, block: b2 }) },
                    m1,
                    Err(es),
                ),
            }
        },
        Some(ParseKindModel::Func { source, name, params, block }) => {
            let (b2, m1, r) = block_line_model(block, m);
            match r {
                Ok(Some(body)) => {
                    let func = FuncModel { params, body, span: source };
                    (
                        StatementParserModel { kind: None },
                        m1,
                        Ok(
                            Some(
                                stmt(
                                    StatementModel::Assign {
                                        init: true,
                                        lhs: node(ExprModel::Var(name), source),
                                        rhs: node(ExprModel::Func(Box::new(func)), source),
                                    },
                                    source,
                                ),
                            ),
                        ),
                    )
                },
                Ok(None) => (
                    StatementParserModel { kind: Some(ParseKindModel::Func { source, name, params, block: b2 }) },
                    m1,
                    Ok(None),
                ),
                Err(es) => (
                    StatementParserModel { kind: Some(ParseKindModel::Func { source, name, params, block: b2 }) },
                    m1,
                    Err(es),
                ),
            }
        },
    }
}

// ----- executable parsing -----

/// A block being parsed: the statement still open in it, the statements so far, and
/// whether it is complete.
pub struct BlockParser {
    pending: Option<Box<StatementParser>>,
    body: Vec<StatementNode>,
    complete: bool,
}

/// An open multi-line statement.
pub struct StatementParser {
    kind: Option<ParseKind>,
}

/// What an open statement is.
pub enum ParseKind {
    While { source: Span, cond: ExprNode, block: BlockParser },
    Func { source: Span, name: String, params: Vec<String>, block: BlockParser },
}

/// The start of a statement: a whole statement, or one that goes on.
pub enum StatementType {
    SingleLine(StatementNode),
    MultiLine(StatementParser),
}

/// The value of a block parser.
pub closed spec fn block_view(b: BlockParser) -> BlockModel
    decreases b,
{
    BlockModel {
        pending: match b.pending {
            Some(p) => Some(Box::new(parser_view(*p))),
            None => None,
        },
        body: crate::syntax::statements_view(b.body@),
        complete: b.complete,
    }
}

/// The value of an open statement.
pub closed spec fn parser_view(p: StatementParser) -> StatementParserModel
    decreases p,
{
    StatementParserModel {
        kind: match p.kind {
            None => None,
            Some(ParseKind::While { source, cond, block }) => Some(
                ParseKindModel::While { source, cond: cond@, block: block_view(block) },
            ),
            Some(ParseKind::Func { source, name, params, block }) => Some(
                ParseKindModel::Func {
                    source,
                    name: name@,
                    params: params@.map_values(|s: String| s@),
                    block: block_view(block),
                },
            ),
        },
    }
}

impl View for BlockParser {
    type V = BlockModel;

    open spec fn view(&self) -> BlockModel {
        block_view(*self)
    }
}

impl View for StatementParser {
    type V = StatementParserModel;

    open spec fn view(&self) -> StatementParserModel {
        parser_view(*self)
    }
}

/// The value of a statement start.
pub open spec fn stype_view(s: StatementType) -> StatementTypeModel {
    match s {
        StatementType::SingleLine(n) => StatementTypeModel::SingleLine(n@),
        StatementType::MultiLine(p) => StatementTypeModel::MultiLine(p@),
    }
}

/// The value of a result.
pub open spec fn res_view<T, V>(r: Result<T, Vec<ParseError>>, f: spec_fn(T) -> V) -> Result<V, Seq<ParseErrorModel>> {
    match r {
        Ok(x) => Ok(f(x)),
        Err(es) => Err(errors_view(es@)),
    }
}

fn one_error(e: ParseError) -> (r: Vec<ParseError>)
    ensures
        r@.len() == 1,
        errors_view(r@) == seq![e@],
{
    let r = vec![e];
    assert(errors_view(r@) =~= seq![e@]);
    r
}

fn unexpected_error(expect: &str, found: Option<Token>, span: Span) -> (r: Vec<ParseError>)
    ensures
        r@.len() == 1,
        errors_view(r@) == seq![unexpected(expect@, match found {
            Some(t) => Some(t@),
            None => None,
        }, span)],
{
    one_error(ParseError::UnexpectedInput { expect: expect.to_owned(), found, span })
}

/// The end of a line statement (see [`close_model`]).
pub fn parse_close(line: &mut TokenLine) -> (r: Result<CloseType, Vec<ParseError>>)
    requires
        spans_ok(old(line)@),
    ensures
        spans_ok(final(line)@),
        measure(final(line)@) <= measure(old(line)@),
        r matches Err(es) ==> es@.len() > 0,
        (final(line)@, res_view(r, |c: CloseType| c)) == close_model(old(line)@),
{
    proof {
        lemma_line_take_measure(line@);
    }
    let r = match line.take_token() {
        Some(Err(e)) => Err(one_error(e)),
        None => Ok(CloseType::EndLine),
        Some(Ok(TokenOf::SemiColon)) => {
            proof {
                lemma_line_take_measure(line@);
            }
            match line.take_expect(None) {
                Err(e) => Err(one_error(e)),
                Ok(_) => Ok(CloseType::SemiColon),
            }
        },
        Some(Ok(token)) => Err(unexpected_error("';' or end of line", Some(token), line.token_span())),
    };
    match r {
        Err(mut errors) => {
            line.consume_line(&mut errors);
            Err(errors)
        },
        Ok(c) => Ok(c),
    }
}

/// The start of a block (see [`block_start_model`]).
pub fn start_block(line: &mut TokenLine) -> (r: Result<BlockParser, Vec<ParseError>>)
    requires
        spans_ok(old(line)@),
    ensures
        spans_ok(final(line)@),
        measure(final(line)@) <= measure(old(line)@),
        r matches Err(es) ==> es@.len() > 0,
        (final(line)@, res_view(r, |b: BlockParser| b@)) == block_start_model(old(line)@),
{
    proof {
        lemma_line_take_measure(line@);
    }
    let r = match line.take_token() {
        Some(Err(e)) => Err(one_error(e)),
        Some(Ok(TokenOf::Colon)) => {
            proof {
                lemma_line_take_measure(line@);
            }
            match line.take_expect(None) {
                Err(e) => Err(one_error(e)),
                Ok(_) => {
                    let b = BlockParser { pending: None, body: Vec::new(), complete: false };
                    assert(crate::syntax::statements_view(b.body@) == Seq::<StatementNodeModel>::empty());
                    Ok(b)
                },
            }
        },
        Some(Ok(token)) => Err(unexpected_error("':'", Some(token), line.token_span())),
        None => Err(unexpected_error("':'", None, line.token_span())),
    };
    match r {
        Err(mut errors) => {
            line.consume_line(&mut errors);
            Err(errors)
        },
        Ok(b) => Ok(b),
    }
}

/// The value of a list of names.
pub open spec fn names_view(v: Seq<String>) -> Seq<Seq<char>> {
    v.map_values(|s: String| s@)
}

/// The parameters of a function after `(` (see [`params_model`]).
fn parse_params(line: &mut TokenLine, params: Vec<String>) -> (r: Result<(Vec<String>, usize), Vec<ParseError>>)
    requires
        spans_ok(old(line)@),
    ensures
        spans_ok(final(line)@),
        measure(final(line)@) <= measure(old(line)@),
        r matches Err(es) ==> es@.len() > 0,
        (final(line)@, res_view(r, |p: (Vec<String>, usize)| (names_view(p.0@), p.1))) == params_model(
            old(line)@,
            names_view(params@),
        ),
    decreases measure(old(line)@),
{
    let ghost params_in = params@;
    let mut acc = params;
    proof {
        lemma_line_take_measure(line@);
    }
    let name = match line.take_some("identifier or ')'") {
        Err(e) => {
            return Err(one_error(e));
        },
        Ok(TokenOf::CloseParen) => {
            return Ok((acc, line.token_end()));
        },
        Ok(TokenOf::Ident(name)) => name,
        Ok(token) => {
            return Err(unexpected_error("identifier or ')'", Some(token), line.token_span()));
        },
    };
    proof {
        lemma_line_take_measure(line@);
    }
    let next = line.take_some("',' or ')'");
    acc.push(name);
    assert(names_view(acc@) =~= names_view(params_in).push(acc@.last()@));
    match next {
        Err(e) => Err(one_error(e)),
        Ok(TokenOf::Comma) => parse_params(line, acc),
        Ok(TokenOf::CloseParen) => Ok((acc, line.token_end())),
        Ok(token) => Err(unexpected_error("',' or ')'", Some(token), line.token_span())),
    }
}

/// After an expression at the start of a line (see [`expr_statement_model`]).
fn parse_expr_statement(line: &mut TokenLine, expr: ExprNode) -> (r: Result<StatementType, Vec<ParseError>>)
    requires
        spans_ok(old(line)@),
    ensures
        spans_ok(final(line)@),
        measure(final(line)@) <= measure(old(line)@),
        r matches Err(es) ==> es@.len() > 0,
        (final(line)@, res_view(r, |s: StatementType| stype_view(s))) == expr_statement_model(old(line)@, expr@),
{
    reveal(expr_statement_model);
    proof {
        lemma_line_take_measure(line@);
    }
    match line.take_token() {
        Some(Err(e)) => Err(one_error(e)),
        None => {
            let span = expr.span;
            Ok(StatementType::SingleLine(StatementNode { statement: Statement::Expr { expr, closed: false }, span }))
        },
        Some(Ok(TokenOf::SemiColon)) => {
            proof {
                lemma_line_take_measure(line@);
            }
            match line.take_expect(None) {
                Err(e) => Err(one_error(e)),
                Ok(_) => {
                    let span = expr.span;
                    Ok(StatementType::SingleLine(StatementNode { statement: Statement::Expr { expr, closed: true }, span }))
                },
            }
        },
        Some(Ok(TokenOf::Assign)) => {
            let rhs = match parse(line) {
                Err(es) => {
                    return Err(es);
                },
                Ok(rhs) => rhs,
            };
            match parse_close(line) {
                Err(es) => Err(es),
                Ok(_) => {
                    let span = Span::new(expr.span.start, rhs.span.end);
                    Ok(
                        StatementType::SingleLine(
                            StatementNode { statement: Statement::Assign { init: false, lhs: expr, rhs }, span },
                        ),
                    )
                },
            }
        },
        Some(Ok(token)) => Err(unexpected_error("'=', ';', or end of line", Some(token), line.token_span())),
    }
}

/// `let lhs = rhs` after `let` (see [`let_model`]).
fn parse_let(line: &mut TokenLine, start: usize) -> (r: Result<StatementType, Vec<ParseError>>)
    requires
        spans_ok(old(line)@),
    ensures
        spans_ok(final(line)@),
        measure(final(line)@) <= measure(old(line)@),
        r matches Err(es) ==> es@.len() > 0,
        (final(line)@, res_view(r, |s: StatementType| stype_view(s))) == let_model(old(line)@, start),
{
    reveal(let_model);
    let lhs = match parse(line) {
        Err(es) => {
            return Err(es);
        },
        Ok(lhs) => lhs,
    };
    proof {
        lemma_line_take_measure(line@);
    }
    match line.take_expect(Some(&TokenOf::Assign)) {
        Err(e) => {
            return Err(one_error(e));
        },
        Ok(_) => {},
    }
    let rhs = match parse(line) {
        Err(es) => {
            return Err(es);
        },
        Ok(rhs) => rhs,
    };
    match parse_close(line) {
        Err(es) => Err(es),
        Ok(_) => {
            let span = Span::new(start, rhs.span.end);
            Ok(StatementType::SingleLine(StatementNode { statement: Statement::Assign { init: true, lhs, rhs }, span }))
        },
    }
}

/// `while cond:` after `while` (see [`while_model`]).
fn parse_while(line: &mut TokenLine, start: usize) -> (r: Result<StatementType, Vec<ParseError>>)
    requires
        spans_ok(old(line)@),
    ensures
        spans_ok(final(line)@),
        measure(final(line)@) <= measure(old(line)@),
        r matches Err(es) ==> es@.len() > 0,
        (final(line)@, res_view(r, |s: StatementType| stype_view(s))) == while_model(old(line)@, start),
{
    reveal(while_model);
    let cond = match parse(line) {
        Err(es) => {
            return Err(es);
        },
        Ok(cond) => cond,
    };
    let source = Span::new(start, cond.span.end);
    match start_block(line) {
        Err(es) => Err(es),
        Ok(block) => Ok(StatementType::MultiLine(StatementParser { kind: Some(ParseKind::While { source, cond, block }) })),
    }
}

/// `fn name(params):` after `fn` (see [`fn_model`]).
fn parse_fn(line: &mut TokenLine, start: usize) -> (r: Result<StatementType, Vec<ParseError>>)
    requires
        spans_ok(old(line)@),
        start < usize::MAX,
    ensures
        spans_ok(final(line)@),
        measure(final(line)@) <= measure(old(line)@),
        r matches Err(es) ==> es@.len() > 0,
        (final(line)@, res_view(r, |s: StatementType| stype_view(s))) == fn_model(old(line)@, start),
{
    reveal(fn_model);
    proof {
        lemma_line_take_measure(line@);
    }
    let name = match line.take_some("identifier") {
        Err(e) => {
            return Err(one_error(e));
        },
        Ok(TokenOf::Ident(name)) => name,
        Ok(token) => {
            return Err(unexpected_error("identifier", Some(token), line.token_span()));
        },
    };
    proof {
        lemma_line_take_measure(line@);
    }
    match line.take_expect(Some(&TokenOf::OpenParen)) {
        Err(e) => {
            return Err(one_error(e));
        },
        Ok(_) => {},
    }
    let empty: Vec<String> = Vec::new();
    assert(names_view(empty@) =~= Seq::<Seq<char>>::empty());
    match parse_params(line, empty) {
        Err(mut errors) => {
            let found = line.consume_until_close(&mut errors);
            if !found {
                let end = line.token_end_span();
                let ghost before = errors@;
                errors.push(ParseError::UnclosedBrace { open: Span::new(start, start + 1), end });
                assert(errors_view(errors@) =~= errors_view(before).push(errors@.last()@));
            }
            Err(errors)
        },
        Ok((params, end)) => {
            let source = Span::new(start, end);
            match start_block(line) {
                Err(es) => Err(es),
                Ok(block) => Ok(
                    StatementType::MultiLine(
                        StatementParser { kind: Some(ParseKind::Func { source, name, params, block }) },
                    ),
                ),
            }
        },
    }
}

/// The start of a statement (see [`start_model`]); a statement may not start with `if`
/// and a condition that parses, which is not handled yet.
pub fn start_parsing(line: &mut TokenLine) -> (r: Result<StatementType, Vec<ParseError>>)
    requires
        spans_ok(old(line)@),
        !start_hits_if(old(line)@),
    ensures
        spans_ok(final(line)@),
        measure(final(line)@) <= measure(old(line)@),
        r matches Err(es) ==> es@.len() > 0,
        (final(line)@, res_view(r, |s: StatementType| stype_view(s))) == start_model(old(line)@),
{
    proof {
        lemma_line_peek_measure(line@);
    }
    let peeked = line.peek_token();
    let keyword = match &peeked {
        Some(Ok(TokenOf::Let)) => 1u8,
        Some(Ok(TokenOf::While)) => 2u8,
        Some(Ok(TokenOf::Fn)) => 3u8,
        Some(Ok(TokenOf::If)) => 5u8,
        Some(_) => 0u8,
        None => 4u8,
    };
    let r = if keyword == 4 {
        Err(unexpected_error("'let' or expression", None, line.token_span()))
    } else if keyword == 0 {
        match parse(line) {
            Err(es) => Err(es),
            Ok(expr) => parse_expr_statement(line, expr),
        }
    } else if keyword == 5 {
        proof {
            lemma_peeked_next(line@, peeked.unwrap().unwrap()@);
            lemma_line_take_measure(line@);
        }
        line.take_token();
        match parse(line) {
            Err(es) => Err(es),
            Ok(_) => {
                proof {
                    assert(start_hits_if(old(line)@));
                }
                Err(Vec::new())
            },
        }
    } else {
        proof {
            lemma_peeked_next(line@, peeked.unwrap().unwrap()@);
            lemma_line_take_measure(line@);
        }
        line.take_token();
        let start = line.token_start();
        if keyword == 1 {
            parse_let(line, start)
        } else if keyword == 2 {
            parse_while(line, start)
        } else {
            parse_fn(line, start)
        }
    };
    match r {
        Err(mut errors) => {
            line.consume_line(&mut errors);
            Err(errors)
        },
        Ok(s) => Ok(s),
    }
}

/// The value of an optional list of statements.
pub open spec fn body_view(o: Option<Vec<StatementNode>>) -> Option<Seq<StatementNodeModel>> {
    match o {
        Some(v) => Some(crate::syntax::statements_view(v@)),
        None => None,
    }
}

/// The value of an optional statement.
pub open spec fn statement_opt_view(o: Option<StatementNode>) -> Option<StatementNodeModel> {
    match o {
        Some(n) => Some(n@),
        None => None,
    }
}

/// Whether starting a statement on `line` would reach `if` and a condition that parses
/// (see [`start_hits_if`]), trying it on `line`.
fn start_hits(line: &mut TokenLine) -> (r: bool)
    requires
        spans_ok(old(line)@),
    ensures
        r == start_hits_if(old(line)@),
{
    proof {
        lemma_line_peek_measure(line@);
    }
    match line.peek_token() {
        Some(Ok(TokenOf::If)) => {
            proof {
                lemma_line_take_measure(line@);
            }
            line.take_token();
            parse(line).is_ok()
        },
        _ => false,
    }
}

/// [`block_hits_if`], trying it on `line`.
fn block_hits(b: &BlockParser, line: &mut TokenLine) -> (r: bool)
    requires
        spans_ok(old(line)@),
    ensures
        r == block_hits_if(b@, old(line)@),
    decreases b,
{
    if b.complete {
        return false;
    }
    let fresh = b.pending.is_none() && b.body.len() == 0;
    proof {
        crate::syntax::lemma_statements_view_len(b.body@);
    }
    if fresh {
        proof {
            lemma_line_peek_measure(line@);
        }
        match line.peek_token() {
            Some(Ok(TokenOf::Indent)) => {
                proof {
                    lemma_line_take_measure(line@);
                }
                line.take_token();
            },
            _ => {
                return false;
            },
        }
    }
    match &b.pending {
        Some(parser) => stmt_hits(parser, line),
        None => {
            proof {
                lemma_line_peek_measure(line@);
            }
            match line.peek_token() {
                Some(Ok(TokenOf::Dedent)) => false,
                _ => start_hits(line),
            }
        },
    }
}

/// [`statement_hits_if`], trying it on `line`.
fn stmt_hits(p: &StatementParser, line: &mut TokenLine) -> (r: bool)
    requires
        spans_ok(old(line)@),
    ensures
        r == statement_hits_if(p@, old(line)@),
    decreases p,
{
    match &p.kind {
        None => false,
        Some(ParseKind::While { block, .. }) => block_hits(block, line),
        Some(ParseKind::Func { block, .. }) => block_hits(block, line),
    }
}

/// Whether starting a statement on `line` would reach `if` and a condition that parses
/// (see [`start_hits_if`]), which [`start_parsing`] does not handle; `line` is left as it
/// is (the check runs on a copy).
pub fn starts_with_if(line: &TokenLine) -> (r: bool)
    requires
        spans_ok(line@),
    ensures
        r == start_hits_if(line@),
{
    let mut copy = line.duplicate();
    start_hits(&mut copy)
}

impl BlockParser {
    /// Whether the block is complete.
    pub fn is_complete(&self) -> (r: bool)
        ensures
            r == self@.complete,
    {
        self.complete
    }

    /// Parses one line of the block (see [`block_line_model`]); no statement in it may
    /// start with `if`, which is not handled yet.
    pub fn parse_line(&mut self, line: &mut TokenLine) -> (r: Result<Option<Vec<StatementNode>>, Vec<ParseError>>)
        requires
            spans_ok(old(line)@),
            !block_hits_if(old(self)@, old(line)@),
        ensures
            spans_ok(final(line)@),
            measure(final(line)@) <= measure(old(line)@),
            r matches Err(es) ==> es@.len() > 0,
            (final(self)@, final(line)@, res_view(r, |o: Option<Vec<StatementNode>>| body_view(o))) == block_line_model(
                old(self)@,
                old(line)@,
            ),
        decreases *old(self),
    {
        if self.complete {
            return Ok(None);
        }
        let fresh = self.pending.is_none() && self.body.len() == 0;
        proof {
            crate::syntax::lemma_statements_view_len(self.body@);
        }
        if fresh {
            proof {
                lemma_line_peek_measure(line@);
            }
            match line.peek_token() {
                Some(Ok(TokenOf::Indent)) => {
                    proof {
                        lemma_line_take_measure(line@);
                    }
                    line.take_token();
                },
                _ => {
                    let empty: Vec<StatementNode> = Vec::new();
                    assert(crate::syntax::statements_view(empty@) == Seq::<StatementNodeModel>::empty());
                    return Ok(Some(empty));
                },
            }
        }
        let ghost body_in = self.body@;
        match self.pending.take() {
            Some(mut parser) => {
                match parser.parse_line(line) {
                    Err(es) => Err(es),
                    Ok(Some(statement)) => {
                        self.body.push(statement);
                        assert(self.body@.drop_last() =~= body_in);
                        Ok(None)
                    },
                    Ok(None) => {
                        self.pending = Some(parser);
                        Ok(None)
                    },
                }
            },
            None => {
                proof {
                    lemma_line_peek_measure(line@);
                }
                let dedent = match line.peek_token() {
                    Some(Ok(TokenOf::Dedent)) => true,
                    _ => false,
                };
                if dedent {
                    let mut body: Vec<StatementNode> = Vec::new();
                    std::mem::swap(&mut body, &mut self.body);
                    assert(crate::syntax::statements_view(self.body@) == Seq::<StatementNodeModel>::empty());
                    return Ok(Some(body));
                }
                match start_parsing(line) {
                    Err(es) => Err(es),
                    Ok(StatementType::MultiLine(parser)) => {
                        self.pending = Some(Box::new(parser));
                        Ok(None)
                    },
                    Ok(StatementType::SingleLine(statement)) => {
                        self.body.push(statement);
                        assert(self.body@.drop_last() =~= body_in);
                        Ok(None)
                    },
                }
            },
        }
    }
}

impl StatementParser {
    /// Whether the statement is finished (or was never open).
    pub fn is_none(&self) -> (r: bool)
        ensures
            r == (self@.kind is None),
    {
        self.kind.is_none()
    }

    /// Whether parsing `line` would start a statement at `if` and a condition that parses
    /// (see [`statement_hits_if`]), which [`StatementParser::parse_line`] does not handle;
    /// `line` is left as it is (the check runs on a copy).
    pub fn hits_if(&self, line: &TokenLine) -> (r: bool)
        requires
            spans_ok(line@),
        ensures
            r == statement_hits_if(self@, line@),
    {
        let mut copy = line.duplicate();
        stmt_hits(self, &mut copy)
    }

    /// A finished statement parser.
    pub fn none() -> (p: Self)
        ensures
            p@.kind is None,
    {
        StatementParser { kind: None }
    }

    /// Parses one line of the open statement (see [`statement_line_model`]); no
    /// statement in it may start with `if`.
    pub fn parse_line(&mut self, line: &mut TokenLine) -> (r: Result<Option<StatementNode>, Vec<ParseError>>)
        requires
            spans_ok(old(line)@),
            !statement_hits_if(old(self)@, old(line)@),
        ensures
            spans_ok(final(line)@),
            measure(final(line)@) <= measure(old(line)@),
            r matches Err(es) ==> es@.len() > 0,
            (final(self)@, final(line)@, res_view(r, |o: Option<StatementNode>| statement_opt_view(o))) == statement_line_model(
                old(self)@,
                old(line)@,
            ),
        decreases *old(self),
    {
        match self.kind.take() {
            None => Ok(None),
            Some(ParseKind::While { source, cond, mut block }) => match block.parse_line(line) {
                Ok(Some(body)) => Ok(Some(StatementNode { statement: Statement::While { cond, body }, span: source })),
                Ok(None) => {
                    self.kind = Some(ParseKind::While { source, cond, block });
                    Ok(None)
                },
                Err(errors) => {
                    self.kind = Some(ParseKind::While { source, cond, block });
                    Err(errors)
                },
            },
            Some(ParseKind::Func { source, name, params, mut block }) => match block.parse_line(line) {
                Ok(Some(body)) => {
                    let func = FuncNode { params, body, span: source };
                    assert(crate::syntax::func_view(func).params =~= names_view(func.params@));
                    let lhs = ExprNode { expr: Expr::Var(name), span: source };
                    let rhs = ExprNode { expr: Expr::Func(Box::new(func)), span: source };
                    Ok(Some(StatementNode { statement: Statement::Assign { init: true, lhs, rhs }, span: source }))
                },
                Ok(None) => {
                    self.kind = Some(ParseKind::Func { source, name, params, block });
                    Ok(None)
                },
                Err(errors) => {
                    self.kind = Some(ParseKind::Func { source, name, params, block });
                    Err(errors)
                },
            },
        }
    }
}

/// After a name is taken, with nothing left on the line, the expression is the name alone.
proof fn lemma_name_ends(m: LineModel, lhs: ExprNodeModel)
    requires
        m.peeked is None,
        m.stream.tokens.len() == 0,
    ensures
        crate::expr_parser::with_lhs_model(m, lhs) == (m, Ok::<ExprNodeModel, Seq<ParseErrorModel>>(lhs)),
        line_take(m).1 is None,
        close_model(m).1 == Ok::<CloseType, Seq<ParseErrorModel>>(CloseType::EndLine),
{
    assert(line_peek(m) == (m, None::<Result<TokenModel, ParseErrorModel>>));
}

/// The line `x = y` is one statement: the assignment of `y` to `x`, not a declaration,
/// spanning from `x` to `y`.
pub proof fn lemma_assign_statement(m: LineModel, x: Seq<char>, sx: Span, sa: Span, y: Seq<char>, sy: Span)
    requires
        m.peeked is None,
        m.stream.tokens == seq![
            (Ok::<TokenModel, crate::line_lexer::LexError>(TokenOf::Ident(x)), sx),
            (Ok::<TokenModel, crate::line_lexer::LexError>(TokenOf::Assign), sa),
            (Ok::<TokenModel, crate::line_lexer::LexError>(TokenOf::Ident(y)), sy),
        ],
    ensures
        start_model(m).1 == Ok::<StatementTypeModel, Seq<ParseErrorModel>>(
            StatementTypeModel::SingleLine(
                StatementNodeModel {
                    statement: StatementModel::Assign {
                        init: false,
                        lhs: ExprNodeModel { expr: ExprModel::Var(x), span: sx },
                        rhs: ExprNodeModel { expr: ExprModel::Var(y), span: sy },
                    },
                    span: Span { start: sx.start, end: sy.end },
                },
            ),
        ),
{
    reveal(expr_statement_model);
    let lhs = node(ExprModel::Var(x), sx);
    let rhs = node(ExprModel::Var(y), sy);
    let m1 = line_peek(m).0;
    assert(line_peek(m).1 == Some(Ok::<TokenModel, ParseErrorModel>(TokenOf::Ident(x))));
    assert(m1.stream.tokens =~= m.stream.tokens.drop_first());
    lemma_peeked_next(m1, TokenOf::Ident(x));
    let m1b = line_take(m1).0;
    assert(crate::expr_parser::parse_atom_model(m1) == (m1b, Ok::<ExprNodeModel, Seq<ParseErrorModel>>(lhs)));
    lemma_name_stops(m1b, lhs, TokenOf::Assign, sa);
    let m2 = line_peek(m1b).0;
    assert(parse_model(m1) == (m2, Ok::<ExprNodeModel, Seq<ParseErrorModel>>(lhs)));
    lemma_peeked_next(m2, TokenOf::Assign);
    let m3 = line_take(m2).0;
    assert(m3.stream.tokens.len() == 1);
    let m4 = line_take(m3).0;
    assert(line_take(m3).1 == Some(Ok::<TokenModel, ParseErrorModel>(TokenOf::Ident(y))));
    assert(m4.stream.tokens.len() == 0);
    assert(crate::expr_parser::parse_atom_model(m3) == (m4, Ok::<ExprNodeModel, Seq<ParseErrorModel>>(rhs)));
    lemma_name_ends(m4, rhs);
    assert(parse_model(m3) == (m4, Ok::<ExprNodeModel, Seq<ParseErrorModel>>(rhs)));
    let s = StatementTypeModel::SingleLine(
        stmt(StatementModel::Assign { init: false, lhs, rhs }, Span { start: lhs.span.start, end: rhs.span.end }),
    );
    assert(expr_statement_model(m2, lhs).1 == Ok::<StatementTypeModel, Seq<ParseErrorModel>>(s));
}

/// The line `let x = y` is one statement: the declaration of `x` with the value `y`,
/// spanning from `let` to `y`.
pub proof fn lemma_let_statement(m: LineModel, sl: Span, x: Seq<char>, sx: Span, sa: Span, y: Seq<char>, sy: Span)
    requires
        m.peeked is None,
        m.stream.tokens == seq![
            (Ok::<TokenModel, crate::line_lexer::LexError>(TokenOf::Let), sl),
            (Ok::<TokenModel, crate::line_lexer::LexError>(TokenOf::Ident(x)), sx),
            (Ok::<TokenModel, crate::line_lexer::LexError>(TokenOf::Assign), sa),
            (Ok::<TokenModel, crate::line_lexer::LexError>(TokenOf::Ident(y)), sy),
        ],
    ensures
        start_model(m).1 == Ok::<StatementTypeModel, Seq<ParseErrorModel>>(
            StatementTypeModel::SingleLine(
                StatementNodeModel {
                    statement: StatementModel::Assign {
                        init: true,
                        lhs: ExprNodeModel { expr: ExprModel::Var(x), span: sx },
                        rhs: ExprNodeModel { expr: ExprModel::Var(y), span: sy },
                    },
                    span: Span { start: sl.start, end: sy.end },
                },
            ),
        ),
{
    reveal(let_model);
    let lhs = node(ExprModel::Var(x), sx);
    let rhs = node(ExprModel::Var(y), sy);
    let m1 = line_peek(m).0;
    assert(line_peek(m).1 == Some(Ok::<TokenModel, ParseErrorModel>(TokenOf::Let)));
    lemma_peeked_next(m1, TokenOf::Let);
    let m2 = line_take(m1).0;
    assert(m2.span == sl);
    assert(m2.stream.tokens.len() == 3);
    let m2b = line_take(m2).0;
    assert(line_take(m2).1 == Some(Ok::<TokenModel, ParseErrorModel>(TokenOf::Ident(x))));
    assert(m2b.span == sx);
    assert(crate::expr_parser::parse_atom_model(m2) == (m2b, Ok::<ExprNodeModel, Seq<ParseErrorModel>>(lhs)));
    assert(m2b.stream.tokens.len() == 2);
    assert(m2b.stream.tokens[0] == (Ok::<TokenModel, crate::line_lexer::LexError>(TokenOf::Assign), sa));
    lemma_name_stops(m2b, lhs, TokenOf::Assign, sa);
    let m3 = line_peek(m2b).0;
    assert(parse_model(m2) == (m3, Ok::<ExprNodeModel, Seq<ParseErrorModel>>(lhs)));
    lemma_peeked_next(m3, TokenOf::Assign);
    let m4 = line_take(m3).0;
    assert(take_expect_model(m3, Some(TokenOf::Assign)) == (m4, Ok::<(), ParseErrorModel>(())));
    assert(m4.stream.tokens.len() == 1);
    let m5 = line_take(m4).0;
    assert(line_take(m4).1 == Some(Ok::<TokenModel, ParseErrorModel>(TokenOf::Ident(y))));
    assert(m5.stream.tokens.len() == 0);
    assert(crate::expr_parser::parse_atom_model(m4) == (m5, Ok::<ExprNodeModel, Seq<ParseErrorModel>>(rhs)));
    lemma_name_ends(m5, rhs);
    assert(parse_model(m4) == (m5, Ok::<ExprNodeModel, Seq<ParseErrorModel>>(rhs)));
    let s = StatementTypeModel::SingleLine(
        stmt(StatementModel::Assign { init: true, lhs, rhs }, Span { start: sl.start, end: rhs.span.end }),
    );
    assert(let_model(m2, m2.span.start).1 == Ok::<StatementTypeModel, Seq<ParseErrorModel>>(s));
}

/// A line of just a name is an expression statement left open, spanning the name; the
/// name followed by `;` is the same statement, closed.
pub proof fn lemma_expression_statement(m: LineModel, x: Seq<char>, sx: Span, semi: bool, ss: Span)
    requires
        m.peeked is None,
        !semi ==> m.stream.tokens == seq![(Ok::<TokenModel, crate::line_lexer::LexError>(TokenOf::Ident(x)), sx)],
        semi ==> m.stream.tokens == seq![
            (Ok::<TokenModel, crate::line_lexer::LexError>(TokenOf::Ident(x)), sx),
            (Ok::<TokenModel, crate::line_lexer::LexError>(TokenOf::SemiColon), ss),
        ],
    ensures
        start_model(m).1 == Ok::<StatementTypeModel, Seq<ParseErrorModel>>(
            StatementTypeModel::SingleLine(
                StatementNodeModel {
                    statement: StatementModel::Expr { expr: ExprNodeModel { expr: ExprModel::Var(x), span: sx }, closed: semi },
                    span: sx,
                },
            ),
        ),
{
    reveal(expr_statement_model);
    let lhs = node(ExprModel::Var(x), sx);
    let m1 = line_peek(m).0;
    assert(line_peek(m).1 == Some(Ok::<TokenModel, ParseErrorModel>(TokenOf::Ident(x))));
    assert(m1.stream.tokens =~= m.stream.tokens.drop_first());
    lemma_peeked_next(m1, TokenOf::Ident(x));
    let m1b = line_take(m1).0;
    assert(crate::expr_parser::parse_atom_model(m1) == (m1b, Ok::<ExprNodeModel, Seq<ParseErrorModel>>(lhs)));
    let s = StatementTypeModel::SingleLine(stmt(StatementModel::Expr { expr: lhs, closed: semi }, sx));
    if semi {
        lemma_name_stops(m1b, lhs, TokenOf::SemiColon, ss);
        let m2 = line_peek(m1b).0;
        assert(parse_model(m1) == (m2, Ok::<ExprNodeModel, Seq<ParseErrorModel>>(lhs)));
        lemma_peeked_next(m2, TokenOf::SemiColon);
        let m3 = line_take(m2).0;
        assert(m3.stream.tokens.len() == 0);
        lemma_name_ends(m3, lhs);
        assert(take_expect_model(m3, None).1 == Ok::<(), ParseErrorModel>(()));
        assert(expr_statement_model(m2, lhs).1 == Ok::<StatementTypeModel, Seq<ParseErrorModel>>(s));
    } else {
        assert(m1b.stream.tokens.len() == 0);
        lemma_name_ends(m1b, lhs);
        assert(parse_model(m1) == (m1b, Ok::<ExprNodeModel, Seq<ParseErrorModel>>(lhs)));
        assert(expr_statement_model(m1b, lhs).1 == Ok::<StatementTypeModel, Seq<ParseErrorModel>>(s));
    }
}

/// Entries that spell a parameter list after `(`: the names separated by `,`, then `)`.
pub open spec fn params_shape(toks: Seq<crate::shell_stream::LexedModel>, names: Seq<Seq<char>>) -> bool {
    if names.len() == 0 {
        toks.len() >= 1 && toks[0].0 == Ok::<TokenModel, crate::line_lexer::LexError>(TokenOf::CloseParen)
    } else {
        &&& toks.len() >= 2 * names.len()
        &&& forall|i: int| 0 <= i < names.len() ==> (#[trigger] toks[2 * i]).0
            == Ok::<TokenModel, crate::line_lexer::LexError>(TokenOf::Ident(names[i]))
        &&& forall|i: int| 0 <= i < names.len() - 1 ==> (#[trigger] toks[2 * i + 1]).0
            == Ok::<TokenModel, crate::line_lexer::LexError>(TokenOf::Comma)
        &&& toks[2 * names.len() - 1].0 == Ok::<TokenModel, crate::line_lexer::LexError>(TokenOf::CloseParen)
    }
}

/// Where the `)` of a parameter list of `n` names stands among its entries.
pub open spec fn close_index(n: nat) -> int {
    if n == 0 { 0 } else { 2 * n - 1 }
}

/// A parameter list gives its names, in order, after those already read, and where its
/// `)` ends; the entries after the `)` are left to read.
pub proof fn lemma_params(m: LineModel, acc: Seq<Seq<char>>, names: Seq<Seq<char>>)
    requires
        m.peeked is None,
        params_shape(m.stream.tokens, names),
    ensures
        params_model(m, acc).1 == Ok::<(Seq<Seq<char>>, usize), Seq<ParseErrorModel>>(
            (acc + names, m.stream.tokens[close_index(names.len())].1.end),
        ),
        params_model(m, acc).0.peeked is None,
        params_model(m, acc).0.stream.tokens == m.stream.tokens.subrange(close_index(names.len()) + 1, m.stream.tokens.len() as int),
    decreases names.len(),
{
    let toks = m.stream.tokens;
    let m1 = line_take(m).0;
    assert(m1.stream.tokens =~= toks.subrange(1, toks.len() as int));
    if names.len() == 0 {
        assert(take_some_model(m, "identifier or ')'"@) == (m1, Ok::<TokenModel, ParseErrorModel>(TokenOf::CloseParen)));
        assert(acc + names =~= acc);
    } else {
        assert(toks[2 * 0int].0 == Ok::<TokenModel, crate::line_lexer::LexError>(TokenOf::Ident(names[0])));
        assert(take_some_model(m, "identifier or ')'"@) == (m1, Ok::<TokenModel, ParseErrorModel>(TokenOf::Ident(names[0]))));
        let m2 = line_take(m1).0;
        assert(m2.stream.tokens =~= toks.subrange(2, toks.len() as int));
        if names.len() == 1 {
            assert(toks[1].0 == Ok::<TokenModel, crate::line_lexer::LexError>(TokenOf::CloseParen));
            assert(take_some_model(m1, "',' or ')'"@) == (m2, Ok::<TokenModel, ParseErrorModel>(TokenOf::CloseParen)));
            assert(acc.push(names[0]) =~= acc + names);
        } else {
            assert(toks[2 * 0int + 1].0 == Ok::<TokenModel, crate::line_lexer::LexError>(TokenOf::Comma));
            assert(take_some_model(m1, "',' or ')'"@) == (m2, Ok::<TokenModel, ParseErrorModel>(TokenOf::Comma)));
            let rest = names.drop_first();
            let t2 = m2.stream.tokens;
            assert forall|i: int| 0 <= i < rest.len() implies (#[trigger] t2[2 * i]).0
                == Ok::<TokenModel, crate::line_lexer::LexError>(TokenOf::Ident(rest[i])) by {
                assert(t2[2 * i] == toks[2 * (i + 1)]);
            }
            assert forall|i: int| 0 <= i < rest.len() - 1 implies (#[trigger] t2[2 * i + 1]).0
                == Ok::<TokenModel, crate::line_lexer::LexError>(TokenOf::Comma) by {
                assert(t2[2 * i + 1] == toks[2 * (i + 1) + 1]);
            }
            assert(t2[2 * rest.len() - 1] == toks[2 * names.len() - 1]);
            lemma_params(m2, acc.push(names[0]), rest);
            assert(acc.push(names[0]) + rest =~= acc + names);
            assert(t2.subrange(close_index(rest.len()) + 1, t2.len() as int) =~= toks.subrange(
                close_index(names.len()) + 1,
                toks.len() as int,
            ));
        }
    }
}

/// The line `fn f(a, b, ...):` opens a function named `f` with the parameters `a, b, ...`
/// in order and an empty body, its source spanning from `fn` to the `)`.
pub proof fn lemma_fn_statement(m: LineModel, sf: Span, f: Seq<char>, names: Seq<Seq<char>>)
    requires
        m.peeked is None,
        m.stream.tokens.len() == 3 + close_index(names.len()) + 2,
        m.stream.tokens[0] == (Ok::<TokenModel, crate::line_lexer::LexError>(TokenOf::Fn), sf),
        m.stream.tokens[1].0 == Ok::<TokenModel, crate::line_lexer::LexError>(TokenOf::Ident(f)),
        m.stream.tokens[2].0 == Ok::<TokenModel, crate::line_lexer::LexError>(TokenOf::OpenParen),
        params_shape(m.stream.tokens.subrange(3, m.stream.tokens.len() as int), names),
        m.stream.tokens.last().0 == Ok::<TokenModel, crate::line_lexer::LexError>(TokenOf::Colon),
    ensures
        start_model(m).1 == Ok::<StatementTypeModel, Seq<ParseErrorModel>>(
            StatementTypeModel::MultiLine(
                StatementParserModel {
                    kind: Some(
                        ParseKindModel::Func {
                            source: Span { start: sf.start, end: m.stream.tokens[3 + close_index(names.len())].1.end },
                            name: f,
                            params: names,
                            block: BlockModel { pending: None, body: Seq::empty(), complete: false },
                        },
                    ),
                },
            ),
        ),
{
    reveal(fn_model);
    let toks = m.stream.tokens;
    let m1 = line_peek(m).0;
    assert(line_peek(m).1 == Some(Ok::<TokenModel, ParseErrorModel>(TokenOf::Fn)));
    lemma_peeked_next(m1, TokenOf::Fn);
    let m2 = line_take(m1).0;
    assert(m2.span == sf);
    assert(m2.stream.tokens =~= toks.subrange(1, toks.len() as int));
    let m3 = line_take(m2).0;
    assert(take_some_model(m2, "identifier"@) == (m3, Ok::<TokenModel, ParseErrorModel>(TokenOf::Ident(f))));
    assert(m3.stream.tokens =~= toks.subrange(2, toks.len() as int));
    let m4 = line_take(m3).0;
    assert(take_expect_model(m3, Some(TokenOf::OpenParen)) == (m4, Ok::<(), ParseErrorModel>(())));
    assert(m4.stream.tokens =~= toks.subrange(3, toks.len() as int));
    lemma_params(m4, Seq::empty(), names);
    assert(Seq::<Seq<char>>::empty() + names =~= names);
    let m5 = params_model(m4, Seq::empty()).0;
    let k = close_index(names.len());
    assert(m4.stream.tokens[k] == toks[3 + k]);
    assert(m5.stream.tokens =~= seq![toks.last()]);
    let m6 = line_take(m5).0;
    assert(line_take(m5).1 == Some(Ok::<TokenModel, ParseErrorModel>(TokenOf::Colon)));
    assert(m6.stream.tokens.len() == 0);
    assert(line_take(m6).1 is None);
    assert(take_expect_model(m6, None).1 == Ok::<(), ParseErrorModel>(()));
    assert(block_start_model(m5).1 == Ok::<BlockModel, Seq<ParseErrorModel>>(empty_block()));
}

/// The line `while x:` opens a loop on the condition `x` with an empty body, its source
/// spanning from `while` to the condition.
pub proof fn lemma_while_statement(m: LineModel, sw: Span, x: Seq<char>, sx: Span, sc: Span)
    requires
        m.peeked is None,
        m.stream.tokens == seq![
            (Ok::<TokenModel, crate::line_lexer::LexError>(TokenOf::While), sw),
            (Ok::<TokenModel, crate::line_lexer::LexError>(TokenOf::Ident(x)), sx),
            (Ok::<TokenModel, crate::line_lexer::LexError>(TokenOf::Colon), sc),
        ],
    ensures
        start_model(m).1 == Ok::<StatementTypeModel, Seq<ParseErrorModel>>(
            StatementTypeModel::MultiLine(
                StatementParserModel {
                    kind: Some(
                        ParseKindModel::While {
                            source: Span { start: sw.start, end: sx.end },
                            cond: ExprNodeModel { expr: ExprModel::Var(x), span: sx },
                            block: BlockModel { pending: None, body: Seq::empty(), complete: false },
                        },
                    ),
                },
            ),
        ),
{
    reveal(while_model);
    let cond = node(ExprModel::Var(x), sx);
    let m1 = line_peek(m).0;
    assert(line_peek(m).1 == Some(Ok::<TokenModel, ParseErrorModel>(TokenOf::While)));
    lemma_peeked_next(m1, TokenOf::While);
    let m2 = line_take(m1).0;
    assert(m2.span == sw);
    assert(m2.stream.tokens.len() == 2);
    let m2b = line_take(m2).0;
    assert(line_take(m2).1 == Some(Ok::<TokenModel, ParseErrorModel>(TokenOf::Ident(x))));
    assert(crate::expr_parser::parse_atom_model(m2) == (m2b, Ok::<ExprNodeModel, Seq<ParseErrorModel>>(cond)));
    assert(m2b.stream.tokens.len() == 1);
    assert(m2b.stream.tokens[0] == (Ok::<TokenModel, crate::line_lexer::LexError>(TokenOf::Colon), sc));
    lemma_name_stops(m2b, cond, TokenOf::Colon, sc);
    let m3 = line_peek(m2b).0;
    assert(parse_model(m2) == (m3, Ok::<ExprNodeModel, Seq<ParseErrorModel>>(cond)));
    lemma_peeked_next(m3, TokenOf::Colon);
    let m4 = line_take(m3).0;
    assert(m4.stream.tokens.len() == 0);
    assert(line_take(m4).1 is None);
    assert(take_expect_model(m4, None).1 == Ok::<(), ParseErrorModel>(()));
    assert(block_start_model(m3).1 == Ok::<BlockModel, Seq<ParseErrorModel>>(empty_block()));
}

} // verus!
