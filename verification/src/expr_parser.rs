//! Expressions: atoms (values, names, parenthesised expressions and tuples) joined by
//! binary operators by precedence, a ternary `?:`, and the walrus `:=`.
use vstd::prelude::*;

use crate::line_parser::{
    consume_close_model, end_span, errors_view, lemma_line_peek_measure, lemma_line_take_measure, line_peek,
    line_take, measure, spans_ok, take_expect_model, unexpected, LineModel, ParseError, ParseErrorModel,
    TokenLine,
};
use crate::parse_token::{Span, Token, TokenModel, TokenOf};
use crate::syntax::{BinOp, Expr, ExprModel, ExprNode, ExprNodeModel};

verus! {

/// A parse that gives `T`: the state after it, and the value or the errors.
pub type Parsed<T> = (LineModel, Result<T, Seq<ParseErrorModel>>);

/// An expression node by value.
pub open spec fn node(expr: ExprModel, span: Span) -> ExprNodeModel {
    ExprNodeModel { expr, span }
}

/// The span from the start of `a` to the end of `b`.
pub open spec fn join(a: Span, b: Span) -> Span {
    Span { start: a.start, end: b.end }
}

/// A binary expression node.
pub open spec fn binary(op: BinOp, lhs: ExprNodeModel, rhs: ExprNodeModel) -> ExprNodeModel {
    node(ExprModel::Binary(op, Box::new(lhs), Box::new(rhs)), join(lhs.span, rhs.span))
}

/// The value an atom token stands for, if it is one.
pub open spec fn atom_value(t: TokenModel) -> Option<ExprModel> {
    match t {
        TokenOf::NoneValue => Some(ExprModel::NoneValue),
        TokenOf::Bool(b) => Some(ExprModel::Bool(b)),
        TokenOf::Int(s) => Some(ExprModel::Int(s)),
        TokenOf::Float(s) => Some(ExprModel::Float(s)),
        TokenOf::Str(s) => Some(ExprModel::Str(s)),
        TokenOf::Ident(s) => Some(ExprModel::Var(s)),
        _ => None,
    }
}

/// An atom: a value or a name, or an expression or tuple in parentheses.
pub open spec fn parse_atom_model(m: LineModel) -> Parsed<ExprNodeModel>
    decreases measure(m), 0nat, 0nat,
{
    let (m1, t) = line_take(m);
    match t {
        Some(Err(e)) => (m1, Err(seq![e])),
        None => (m1, Err(seq![unexpected("expression"@, None, m1.span)])),
        Some(Ok(tok)) => match atom_value(tok) {
            Some(v) => (m1, Ok(node(v, m1.span))),
            None => if tok == TokenOf::<Seq<char>>::OpenParen {
                if measure(m1) < measure(m) {
                    paren_model(m1, m1.span.start, Seq::empty())
                } else {
                    (m1, Err(Seq::empty()))
                }
            } else {
                (m1, Err(seq![unexpected("expression"@, Some(tok), m1.span)]))
            },
        },
    }
}

/// After one item in parentheses: `)` ends them, `,` goes on; otherwise an error.
pub open spec fn paren_end_model(m: LineModel) -> (LineModel, Result<bool, Seq<ParseErrorModel>>) {
    let (m1, t) = line_take(m);
    match t {
        Some(Err(e)) => (m1, Err(seq![e])),
        Some(Ok(TokenOf::CloseParen)) => (m1, Ok(true)),
        Some(Ok(TokenOf::Comma)) => (m1, Ok(false)),
        Some(Ok(tok)) => (m1, Err(seq![unexpected("',' or ')'"@, Some(tok), m1.span)])),
        None => (m1, Err(seq![unexpected("',' or ')'"@, None, m1.span)])),
    }
}

/// The items in parentheses opened at `start`, after `items`: one item alone is itself,
/// several make a tuple. On an error the line is read up to a `)`; if there is none, an
/// unclosed brace is reported too.
pub open spec fn paren_model(m: LineModel, start: usize, items: Seq<ExprNodeModel>) -> Parsed<ExprNodeModel>
    decreases measure(m), 2nat, 0nat,
{
    let (m1, inner) = parse_model(m);
    let (m2, step) = match inner {
        Err(es) => (m1, Err(es)),
        Ok(e) => {
            let (m2, end) = paren_end_model(m1);
            match end {
                Err(es) => (m2, Err(es)),
                Ok(b) => (m2, Ok((e, b))),
            }
        },
    };
    match step {
        Err(es) => {
            let (m3, es2, found) = consume_close_model(m2, es);
            if found {
                (m3, Err(es2))
            } else {
                (
                    m3,
                    Err(
                        es2.push(
                            ParseErrorModel::UnclosedBrace {
                                open: Span { start, end: (start + 1) as usize },
                                end: end_span(m3.span),
                            },
                        ),
                    ),
                )
            }
        },
        Ok((e, false)) => if measure(m2) < measure(m) {
            paren_model(m2, start, items.push(e))
        } else {
            (m2, Err(Seq::empty()))
        },
        Ok((e, true)) => if items.len() == 0 {
            (m2, Ok(e))
        } else {
            (m2, Ok(node(ExprModel::Tuple(items.push(e)), Span { start, end: m2.span.end })))
        },
    }
}

/// An expression: an atom, then any operators after it.
pub open spec fn parse_model(m: LineModel) -> Parsed<ExprNodeModel>
    decreases measure(m), 1nat, 0nat,
{
    let (m1, a) = parse_atom_model(m);
    match a {
        Err(es) => (m1, Err(es)),
        Ok(lhs) => if measure(m1) < measure(m) {
            with_lhs_model(m1, lhs)
        } else {
            (m1, Err(Seq::empty()))
        },
    }
}

/// Operators after `lhs`, as long as the next token is one.
pub open spec fn with_lhs_model(m: LineModel, lhs: ExprNodeModel) -> Parsed<ExprNodeModel>
    decreases measure(m), 11nat, 0nat,
{
    let (m1, p) = line_peek(m);
    match p {
        Some(Ok(tok)) => {
            let (m2, r) = match tok {
                TokenOf::Pow => pow_model(m1, lhs),
                TokenOf::Mul | TokenOf::Div | TokenOf::Modulo => mul_model(m1, lhs),
                TokenOf::Add | TokenOf::Sub => add_model(m1, lhs),
                TokenOf::Eq | TokenOf::Lt | TokenOf::Gt | TokenOf::NEq | TokenOf::LtEq | TokenOf::GtEq => relation_model(
                    m1,
                    lhs,
                ),
                TokenOf::And => and_model(m1, lhs),
                TokenOf::Or => or_model(m1, lhs),
                TokenOf::Question => ternary_model(m1, lhs),
                TokenOf::Walrus => walrus_model(m1, lhs),
                _ => (m1, Ok(lhs)),
            };
            if operator(tok) {
                match r {
                    Err(es) => (m2, Err(es)),
                    Ok(l2) => if measure(m2) < measure(m) {
                        with_lhs_model(m2, l2)
                    } else {
                        (m2, Err(Seq::empty()))
                    },
                }
            } else {
                (m1, Ok(lhs))
            }
        },
        _ => (m1, Ok(lhs)),
    }
}

/// The tokens that continue an expression.
pub open spec fn operator(t: TokenModel) -> bool {
    match t {
        TokenOf::Pow | TokenOf::Mul | TokenOf::Div | TokenOf::Modulo | TokenOf::Add | TokenOf::Sub | TokenOf::Eq
        | TokenOf::Lt | TokenOf::Gt | TokenOf::NEq | TokenOf::LtEq | TokenOf::GtEq | TokenOf::And | TokenOf::Or
        | TokenOf::Question | TokenOf::Walrus => true,
        _ => false,
    }
}

/// `**`, right to left: after the operator, an atom and then more `**`.
pub open spec fn pow_model(m: LineModel, lhs: ExprNodeModel) -> Parsed<ExprNodeModel>
    decreases measure(m), 3nat, 0nat,
{
    let (m1, p) = line_peek(m);
    match p {
        Some(Ok(TokenOf::Pow)) => {
            let (m2, _) = line_take(m1);
            if measure(m2) < measure(m) {
                let (m3, a) = parse_atom_model(m2);
                match a {
                    Err(es) => (m3, Err(es)),
                    Ok(rhs) => if measure(m3) < measure(m) {
                        let (m4, r) = pow_model(m3, rhs);
                        match r {
                            Err(es) => (m4, Err(es)),
                            Ok(rhs2) => (m4, Ok(binary(BinOp::Pow, lhs, rhs2))),
                        }
                    } else {
                        (m3, Err(Seq::empty()))
                    },
                }
            } else {
                (m2, Err(Seq::empty()))
            }
        },
        _ => (m1, Ok(lhs)),
    }
}

/// A level of binary operators sharing one precedence.
#[derive(Debug, Clone, Copy, PartialEq, Eq, Structural)]
pub enum Level {
    Mul,
    Add,
    Relation,
    And,
    Or,
    Walrus,
}

/// Where a level stands among the parsing functions, for termination.
pub open spec fn rank(level: Level) -> nat {
    match level {
        Level::Mul => 4,
        Level::Add => 5,
        Level::Relation => 6,
        Level::And => 7,
        Level::Or => 8,
        Level::Walrus => 10,
    }
}

/// The operator of a level that a token is, if any.
pub open spec fn level_op(level: Level, t: TokenModel) -> Option<BinOp> {
    match level {
        Level::Mul => match t {
            TokenOf::Mul => Some(BinOp::Mul),
            TokenOf::Div => Some(BinOp::Div),
            TokenOf::Modulo => Some(BinOp::Modulo),
            _ => None,
        },
        Level::Add => match t {
            TokenOf::Add => Some(BinOp::Add),
            TokenOf::Sub => Some(BinOp::Sub),
            _ => None,
        },
        Level::Relation => match t {
            TokenOf::Eq => Some(BinOp::Eq),
            TokenOf::Lt => Some(BinOp::Lt),
            TokenOf::Gt => Some(BinOp::Gt),
            TokenOf::NEq => Some(BinOp::NEq),
            TokenOf::LtEq => Some(BinOp::LtEq),
            TokenOf::GtEq => Some(BinOp::GtEq),
            _ => None,
        },
        Level::And => match t {
            TokenOf::And => Some(BinOp::And),
            _ => None,
        },
        Level::Or => match t {
            TokenOf::Or => Some(BinOp::Or),
            _ => None,
        },
        Level::Walrus => match t {
            TokenOf::Walrus => Some(BinOp::Walrus),
            _ => None,
        },
    }
}

/// The level below a level: what is parsed on the right of its operators, and instead of
/// it when its operators are not next.
pub open spec fn lower(level: Level, m: LineModel, lhs: ExprNodeModel) -> Parsed<ExprNodeModel>
    decreases measure(m), rank(level), 0nat,
{
    match level {
        Level::Mul => pow_model(m, lhs),
        Level::Add => mul_model(m, lhs),
        Level::Relation => add_model(m, lhs),
        Level::And => relation_model(m, lhs),
        Level::Or => and_model(m, lhs),
        Level::Walrus => ternary_model(m, lhs),
    }
}

/// The levels that give back `lhs` when looking at the next token fails.
pub open spec fn stops_on_error(level: Level) -> bool {
    level == Level::Mul || level == Level::Add || level == Level::Relation
}

/// One binary level: if the next token is one of its operators, that operator with an
/// atom and the next level down on its right; otherwise the next level down. Levels
/// from multiplication to comparison give back `lhs` when looking fails.
pub open spec fn level_model(level: Level, m: LineModel, lhs: ExprNodeModel) -> Parsed<ExprNodeModel>
    decreases measure(m), rank(level), 1nat,
{
    let (m1, p) = line_peek(m);
    let op = match p {
        Some(Ok(t)) => level_op(level, t),
        _ => None,
    };
    match op {
        Some(op) => {
            let (m2, _) = line_take(m1);
            if measure(m2) < measure(m) {
                let (m3, a) = parse_atom_model(m2);
                match a {
                    Err(es) => (m3, Err(es)),
                    Ok(rhs) => if measure(m3) < measure(m) {
                        let (m4, r) = lower(level, m3, rhs);
                        match r {
                            Err(es) => (m4, Err(es)),
                            Ok(rhs2) => (m4, Ok(binary(op, lhs, rhs2))),
                        }
                    } else {
                        (m3, Err(Seq::empty()))
                    },
                }
            } else {
                (m2, Err(Seq::empty()))
            }
        },
        None => if (p matches Some(Err(_))) && stops_on_error(level) {
            (m1, Ok(lhs))
        } else if measure(m1) <= measure(m) {
            lower(level, m1, lhs)
        } else {
            (m1, Err(Seq::empty()))
        },
    }
}

/// `*`, `/`, `%`.
pub open spec fn mul_model(m: LineModel, lhs: ExprNodeModel) -> Parsed<ExprNodeModel>
    decreases measure(m), 4nat, 2nat,
{
    level_model(Level::Mul, m, lhs)
}

/// `+`, `-`.
pub open spec fn add_model(m: LineModel, lhs: ExprNodeModel) -> Parsed<ExprNodeModel>
    decreases measure(m), 5nat, 2nat,
{
    level_model(Level::Add, m, lhs)
}

/// Comparisons.
pub open spec fn relation_model(m: LineModel, lhs: ExprNodeModel) -> Parsed<ExprNodeModel>
    decreases measure(m), 6nat, 2nat,
{
    level_model(Level::Relation, m, lhs)
}

/// `and`.
pub open spec fn and_model(m: LineModel, lhs: ExprNodeModel) -> Parsed<ExprNodeModel>
    decreases measure(m), 7nat, 2nat,
{
    level_model(Level::And, m, lhs)
}

/// `or`.
pub open spec fn or_model(m: LineModel, lhs: ExprNodeModel) -> Parsed<ExprNodeModel>
    decreases measure(m), 8nat, 2nat,
{
    level_model(Level::Or, m, lhs)
}

/// `cond ? pass : fail`, both branches whole expressions; otherwise the `or` level.
pub open spec fn ternary_model(m: LineModel, cond: ExprNodeModel) -> Parsed<ExprNodeModel>
    decreases measure(m), 9nat, 2nat,
{
    let (m1, p) = line_peek(m);
    match p {
        Some(Ok(TokenOf::Question)) => {
            let (m2, _) = line_take(m1);
            if measure(m2) < measure(m) {
                let (m3, pass) = parse_model(m2);
                match pass {
                    Err(es) => (m3, Err(es)),
                    Ok(pass) => {
                        let (m4, c) = take_expect_model(m3, Some(TokenOf::Colon));
                        match c {
                            Err(e) => (m4, Err(seq![e])),
                            Ok(_) => if measure(m4) < measure(m) {
                                let (m5, fail) = parse_model(m4);
                                match fail {
                                    Err(es) => (m5, Err(es)),
                                    Ok(fail) => (
                                        m5,
                                        Ok(
                                            node(
                                                ExprModel::Ternary {
                                                    cond: Box::new(cond),
                                                    pass: Box::new(pass),
                                                    fail: Box::new(fail),
                                                },
                                                join(cond.span, fail.span),
                                            ),
                                        ),
                                    ),
                                }
                            } else {
                                (m4, Err(Seq::empty()))
                            },
                        }
                    },
                }
            } else {
                (m2, Err(Seq::empty()))
            }
        },
        _ => if measure(m1) <= measure(m) {
            or_model(m1, cond)
        } else {
            (m1, Err(Seq::empty()))
        },
    }
}

/// `:=`.
pub open spec fn walrus_model(m: LineModel, lhs: ExprNodeModel) -> Parsed<ExprNodeModel>
    decreases measure(m), 10nat, 2nat,
{
    level_model(Level::Walrus, m, lhs)
}

// ----- executable parsing -----

/// The value of a parse result.
pub open spec fn expr_result(r: Result<ExprNode, Vec<ParseError>>) -> Result<ExprNodeModel, Seq<ParseErrorModel>> {
    match r {
        Ok(e) => Ok(e@),
        Err(es) => Err(errors_view(es@)),
    }
}

/// `level` has an operator next in `m`: parsing it takes at least that token.
pub open spec fn level_next(level: Level, m: LineModel) -> bool {
    line_peek(m).1 matches Some(Ok(t)) && level_op(level, t) is Some
}

/// `t` is next in `m`.
pub open spec fn token_next(t: TokenModel, m: LineModel) -> bool {
    line_peek(m).1 == Some(Ok::<TokenModel, ParseErrorModel>(t))
}

/// A token looked at is next, unless it ends the line.
pub proof fn lemma_peeked_next(m: LineModel, t: TokenModel)
    requires
        m.peeked == Some(t),
        t != TokenOf::<Seq<char>>::Newline,
    ensures
        line_peek(m) == (m, Some(Ok::<TokenModel, ParseErrorModel>(t))),
        line_take(m) == (LineModel { peeked: None, span: m.stream.span, ..m }, Some(Ok::<TokenModel, ParseErrorModel>(t))),
{
}

fn one_error(e: ParseError) -> (r: Vec<ParseError>)
    ensures
        r@.len() == 1,
        errors_view(r@) == seq![e@],
{
    let r = vec![e];
    assert(errors_view(r@) =~= seq![e@]);
    r
}

fn unexpected_error(expect: &str, found: Option<Token>, span: Span) -> (r: Vec<ParseError>)
    ensures
        r@.len() == 1,
        errors_view(r@) == seq![unexpected(expect@, match found {
            Some(t) => Some(t@),
            None => None,
        }, span)],
{
    one_error(ParseError::UnexpectedInput { expect: expect.to_owned(), found, span })
}

/// The operator of `level` that `t` is, if any.
fn level_op_of(level: Level, t: &Token) -> (r: Option<BinOp>)
    ensures
        r == level_op(level, t@),
{
    match level {
        Level::Mul => match t {
            TokenOf::Mul => Some(BinOp::Mul),
            TokenOf::Div => Some(BinOp::Div),
            TokenOf::Modulo => Some(BinOp::Modulo),
            _ => None,
        },
        Level::Add => match t {
            TokenOf::Add => Some(BinOp::Add),
            TokenOf::Sub => Some(BinOp::Sub),
            _ => None,
        },
        Level::Relation => match t {
            TokenOf::Eq => Some(BinOp::Eq),
            TokenOf::Lt => Some(BinOp::Lt),
            TokenOf::Gt => Some(BinOp::Gt),
            TokenOf::NEq => Some(BinOp::NEq),
            TokenOf::LtEq => Some(BinOp::LtEq),
            TokenOf::GtEq => Some(BinOp::GtEq),
            _ => None,
        },
        Level::And => match t {
            TokenOf::And => Some(BinOp::And),
            _ => None,
        },
        Level::Or => match t {
            TokenOf::Or => Some(BinOp::Or),
            _ => None,
        },
        Level::Walrus => match t {
            TokenOf::Walrus => Some(BinOp::Walrus),
            _ => None,
        },
    }
}

/// An expression (see [`parse_model`]).
pub fn parse(line: &mut TokenLine) -> (r: Result<ExprNode, Vec<ParseError>>)
    requires
        spans_ok(old(line)@),
    ensures
        spans_ok(final(line)@),
        measure(final(line)@) <= measure(old(line)@),
        r matches Err(es) ==> es@.len() > 0,
        r is Ok ==> measure(final(line)@) < measure(old(line)@),
        (final(line)@, expr_result(r)) == parse_model(old(line)@),
    decreases measure(old(line)@), 1nat, 0nat,
{
    let lhs = match parse_atom(line) {
        Ok(lhs) => lhs,
        Err(es) => {
            return Err(es);
        },
    };
    parse_with_lhs(lhs, line)
}

/// An atom (see [`parse_atom_model`]).
pub fn parse_atom(line: &mut TokenLine) -> (r: Result<ExprNode, Vec<ParseError>>)
    requires
        spans_ok(old(line)@),
    ensures
        spans_ok(final(line)@),
        measure(final(line)@) <= measure(old(line)@),
        r matches Err(es) ==> es@.len() > 0,
        r is Ok ==> measure(final(line)@) < measure(old(line)@),
        (final(line)@, expr_result(r)) == parse_atom_model(old(line)@),
    decreases measure(old(line)@), 0nat, 0nat,
{
    proof {
        lemma_line_take_measure(line@);
    }
    match line.take_token() {
        Some(Err(e)) => Err(one_error(e)),
        None => Err(unexpected_error("expression", None, line.token_span())),
        Some(Ok(token)) => match token {
            TokenOf::NoneValue => Ok(ExprNode { expr: Expr::NoneValue, span: line.token_span() }),
            TokenOf::Bool(b) => Ok(ExprNode { expr: Expr::Bool(b), span: line.token_span() }),
            TokenOf::Int(v) => Ok(ExprNode { expr: Expr::Int(v), span: line.token_span() }),
            TokenOf::Float(v) => Ok(ExprNode { expr: Expr::Float(v), span: line.token_span() }),
            TokenOf::Str(v) => Ok(ExprNode { expr: Expr::Str(v), span: line.token_span() }),
            TokenOf::Ident(v) => Ok(ExprNode { expr: Expr::Var(v), span: line.token_span() }),
            TokenOf::OpenParen => {
                let start = line.token_start();
                let items: Vec<ExprNode> = Vec::new();
                assert(crate::syntax::exprs_view(items@) == Seq::<ExprNodeModel>::empty());
                parse_paren(line, start, items)
            },
            token => Err(unexpected_error("expression", Some(token), line.token_span())),
        },
    }
}

/// The items in parentheses opened at `start` (see [`paren_model`]).
fn parse_paren(line: &mut TokenLine, start: usize, items: Vec<ExprNode>) -> (r: Result<ExprNode, Vec<ParseError>>)
    requires
        spans_ok(old(line)@),
        start < usize::MAX,
    ensures
        spans_ok(final(line)@),
        measure(final(line)@) <= measure(old(line)@),
        r matches Err(es) ==> es@.len() > 0,
        (final(line)@, expr_result(r)) == paren_model(old(line)@, start, crate::syntax::exprs_view(items@)),
    decreases measure(old(line)@), 2nat, 0nat,
{
    let ghost items_in = items@;
    proof {
        crate::syntax::lemma_exprs_view_len(items_in);
    }
    let mut acc = items;
    let ghost m0 = line@;
    let step: Result<(ExprNode, bool), Vec<ParseError>> = match parse(line) {
        Err(es) => Err(es),
        Ok(e) => {
            proof {
                lemma_line_take_measure(line@);
            }
            match line.take_token() {
                Some(Err(x)) => Err(one_error(x)),
                Some(Ok(TokenOf::CloseParen)) => Ok((e, true)),
                Some(Ok(TokenOf::Comma)) => Ok((e, false)),
                Some(Ok(token)) => Err(unexpected_error("',' or ')'", Some(token), line.token_span())),
                None => Err(unexpected_error("',' or ')'", None, line.token_span())),
            }
        },
    };
    match step {
        Err(mut errors) => {
            let found = line.consume_until_close(&mut errors);
            if !found {
                let end = line.token_end_span();
                let ghost before = errors@;
                errors.push(ParseError::UnclosedBrace { open: Span::new(start, start + 1), end });
                assert(errors_view(errors@) =~= errors_view(before).push(errors@.last()@));
            }
            Err(errors)
        },
        Ok((e, false)) => {
            acc.push(e);
            assert(acc@.drop_last() =~= items_in);
            let ghost m2 = line@;
            assert(crate::syntax::exprs_view(acc@) == crate::syntax::exprs_view(items_in).push(e@));
            assert(measure(m2) < measure(m0));
            let r = parse_paren(line, start, acc);
            r
        },
        Ok((e, true)) => {
            if acc.len() == 0 {
                Ok(e)
            } else {
                acc.push(e);
                assert(acc@.drop_last() =~= items_in);
                assert(crate::syntax::exprs_view(acc@) == crate::syntax::exprs_view(items_in).push(e@));
                let span = Span::new(start, line.token_end());
                let r = ExprNode { expr: Expr::Tuple(acc), span };
                assert(r@.expr == ExprModel::Tuple(crate::syntax::exprs_view(items_in).push(e@)));
                Ok(r)
            }
        },
    }
}

/// Operators after `lhs` (see [`with_lhs_model`]).
pub fn parse_with_lhs(lhs: ExprNode, line: &mut TokenLine) -> (r: Result<ExprNode, Vec<ParseError>>)
    requires
        spans_ok(old(line)@),
    ensures
        spans_ok(final(line)@),
        measure(final(line)@) <= measure(old(line)@),
        r matches Err(es) ==> es@.len() > 0,
        (final(line)@, expr_result(r)) == with_lhs_model(old(line)@, lhs@),
    decreases measure(old(line)@), 11nat, 0nat,
{
    proof {
        lemma_line_peek_measure(line@);
    }
    let token = match line.peek_token() {
        Some(Ok(token)) => token,
        _ => {
            return Ok(lhs);
        },
    };
    proof {
        lemma_peeked_next(line@, token@);
    }
    let r = match token {
        TokenOf::Pow => parse_pow(lhs, line),
        TokenOf::Mul | TokenOf::Div | TokenOf::Modulo => parse_mul(lhs, line),
        TokenOf::Add | TokenOf::Sub => parse_add(lhs, line),
        TokenOf::Eq | TokenOf::Lt | TokenOf::Gt | TokenOf::NEq | TokenOf::LtEq | TokenOf::GtEq => parse_relation(
            lhs,
            line,
        ),
        TokenOf::And => parse_and(lhs, line),
        TokenOf::Or => parse_or(lhs, line),
        TokenOf::Question => parse_ternary(lhs, line),
        TokenOf::Walrus => parse_walrus(lhs, line),
        _ => {
            return Ok(lhs);
        },
    };
    match r {
        Err(es) => Err(es),
        Ok(lhs) => parse_with_lhs(lhs, line),
    }
}

/// `**` (see [`pow_model`]).
pub fn parse_pow(lhs: ExprNode, line: &mut TokenLine) -> (r: Result<ExprNode, Vec<ParseError>>)
    requires
        spans_ok(old(line)@),
    ensures
        spans_ok(final(line)@),
        measure(final(line)@) <= measure(old(line)@),
        r matches Err(es) ==> es@.len() > 0,
        token_next(TokenOf::Pow, old(line)@) ==> measure(final(line)@) < measure(old(line)@),
        (final(line)@, expr_result(r)) == pow_model(old(line)@, lhs@),
    decreases measure(old(line)@), 3nat, 0nat,
{
    proof {
        lemma_line_peek_measure(line@);
    }
    match line.peek_token() {
        Some(Ok(TokenOf::Pow)) => {},
        _ => {
            return Ok(lhs);
        },
    }
    proof {
        lemma_line_take_measure(line@);
    }
    line.take_token();
    let rhs = match parse_atom(line) {
        Ok(rhs) => rhs,
        Err(es) => {
            return Err(es);
        },
    };
    let rhs = match parse_pow(rhs, line) {
        Ok(rhs) => rhs,
        Err(es) => {
            return Err(es);
        },
    };
    let span = Span::new(lhs.span.start, rhs.span.end);
    Ok(ExprNode { expr: Expr::Binary(BinOp::Pow, Box::new(lhs), Box::new(rhs)), span })
}

/// The level below `level` (see [`lower`]).
fn parse_lower(level: Level, lhs: ExprNode, line: &mut TokenLine) -> (r: Result<ExprNode, Vec<ParseError>>)
    requires
        spans_ok(old(line)@),
    ensures
        spans_ok(final(line)@),
        measure(final(line)@) <= measure(old(line)@),
        r matches Err(es) ==> es@.len() > 0,
        (final(line)@, expr_result(r)) == lower(level, old(line)@, lhs@),
    decreases measure(old(line)@), rank(level), 0nat,
{
    match level {
        Level::Mul => parse_pow(lhs, line),
        Level::Add => parse_mul(lhs, line),
        Level::Relation => parse_add(lhs, line),
        Level::And => parse_relation(lhs, line),
        Level::Or => parse_and(lhs, line),
        Level::Walrus => parse_ternary(lhs, line),
    }
}

/// One binary level (see [`level_model`]).
fn parse_level(level: Level, lhs: ExprNode, line: &mut TokenLine) -> (r: Result<ExprNode, Vec<ParseError>>)
    requires
        spans_ok(old(line)@),
    ensures
        spans_ok(final(line)@),
        measure(final(line)@) <= measure(old(line)@),
        r matches Err(es) ==> es@.len() > 0,
        level_next(level, old(line)@) ==> measure(final(line)@) < measure(old(line)@),
        (final(line)@, expr_result(r)) == level_model(level, old(line)@, lhs@),
    decreases measure(old(line)@), rank(level), 1nat,
{
    proof {
        lemma_line_peek_measure(line@);
    }
    let peeked = line.peek_token();
    let op = match &peeked {
        Some(Ok(token)) => level_op_of(level, token),
        _ => None,
    };
    match op {
        Some(op) => {
            proof {
                lemma_line_take_measure(line@);
            }
            line.take_token();
            let rhs = match parse_atom(line) {
                Ok(rhs) => rhs,
                Err(es) => {
                    return Err(es);
                },
            };
            let rhs = match parse_lower(level, rhs, line) {
                Ok(rhs) => rhs,
                Err(es) => {
                    return Err(es);
                },
            };
            let span = Span::new(lhs.span.start, rhs.span.end);
            Ok(ExprNode { expr: Expr::Binary(op, Box::new(lhs), Box::new(rhs)), span })
        },
        None => {
            let stops = match level {
                Level::Mul | Level::Add | Level::Relation => true,
                _ => false,
            };
            if stops && peeked.is_some() && peeked.unwrap().is_err() {
                Ok(lhs)
            } else {
                parse_lower(level, lhs, line)
            }
        },
    }
}

/// `*`, `/`, `%` (see [`mul_model`]).
pub fn parse_mul(lhs: ExprNode, line: &mut TokenLine) -> (r: Result<ExprNode, Vec<ParseError>>)
    requires
        spans_ok(old(line)@),
    ensures
        spans_ok(final(line)@),
        measure(final(line)@) <= measure(old(line)@),
        r matches Err(es) ==> es@.len() > 0,
        level_next(Level::Mul, old(line)@) ==> measure(final(line)@) < measure(old(line)@),
        (final(line)@, expr_result(r)) == mul_model(old(line)@, lhs@),
    decreases measure(old(line)@), 4nat, 2nat,
{
    parse_level(Level::Mul, lhs, line)
}

/// `+`, `-` (see [`add_model`]).
pub fn parse_add(lhs: ExprNode, line: &mut TokenLine) -> (r: Result<ExprNode, Vec<ParseError>>)
    requires
        spans_ok(old(line)@),
    ensures
        spans_ok(final(line)@),
        measure(final(line)@) <= measure(old(line)@),
        r matches Err(es) ==> es@.len() > 0,
        level_next(Level::Add, old(line)@) ==> measure(final(line)@) < measure(old(line)@),
        (final(line)@, expr_result(r)) == add_model(old(line)@, lhs@),
    decreases measure(old(line)@), 5nat, 2nat,
{
    parse_level(Level::Add, lhs, line)
}

/// Comparisons (see [`relation_model`]).
pub fn parse_relation(lhs: ExprNode, line: &mut TokenLine) -> (r: Result<ExprNode, Vec<ParseError>>)
    requires
        spans_ok(old(line)@),
    ensures
        spans_ok(final(line)@),
        measure(final(line)@) <= measure(old(line)@),
        r matches Err(es) ==> es@.len() > 0,
        level_next(Level::Relation, old(line)@) ==> measure(final(line)@) < measure(old(line)@),
        (final(line)@, expr_result(r)) == relation_model(old(line)@, lhs@),
    decreases measure(old(line)@), 6nat, 2nat,
{
    parse_level(Level::Relation, lhs, line)
}

/// `and` (see [`and_model`]).
pub fn parse_and(lhs: ExprNode, line: &mut TokenLine) -> (r: Result<ExprNode, Vec<ParseError>>)
    requires
        spans_ok(old(line)@),
    ensures
        spans_ok(final(line)@),
        measure(final(line)@) <= measure(old(line)@),
        r matches Err(es) ==> es@.len() > 0,
        level_next(Level::And, old(line)@) ==> measure(final(line)@) < measure(old(line)@),
        (final(line)@, expr_result(r)) == and_model(old(line)@, lhs@),
    decreases measure(old(line)@), 7nat, 2nat,
{
    parse_level(Level::And, lhs, line)
}

/// `or` (see [`or_model`]).
pub fn parse_or(lhs: ExprNode, line: &mut TokenLine) -> (r: Result<ExprNode, Vec<ParseError>>)
    requires
        spans_ok(old(line)@),
    ensures
        spans_ok(final(line)@),
        measure(final(line)@) <= measure(old(line)@),
        r matches Err(es) ==> es@.len() > 0,
        level_next(Level::Or, old(line)@) ==> measure(final(line)@) < measure(old(line)@),
        (final(line)@, expr_result(r)) == or_model(old(line)@, lhs@),
    decreases measure(old(line)@), 8nat, 2nat,
{
    parse_level(Level::Or, lhs, line)
}

/// `:=` (see [`walrus_model`]).
pub fn parse_walrus(lhs: ExprNode, line: &mut TokenLine) -> (r: Result<ExprNode, Vec<ParseError>>)
    requires
        spans_ok(old(line)@),
    ensures
        spans_ok(final(line)@),
        measure(final(line)@) <= measure(old(line)@),
        r matches Err(es) ==> es@.len() > 0,
        level_next(Level::Walrus, old(line)@) ==> measure(final(line)@) < measure(old(line)@),
        (final(line)@, expr_result(r)) == walrus_model(old(line)@, lhs@),
    decreases measure(old(line)@), 10nat, 2nat,
{
    parse_level(Level::Walrus, lhs, line)
}

/// `cond ? pass : fail` (see [`ternary_model`]).
pub fn parse_ternary(cond: ExprNode, line: &mut TokenLine) -> (r: Result<ExprNode, Vec<ParseError>>)
    requires
        spans_ok(old(line)@),
    ensures
        spans_ok(final(line)@),
        measure(final(line)@) <= measure(old(line)@),
        r matches Err(es) ==> es@.len() > 0,
        token_next(TokenOf::Question, old(line)@) ==> measure(final(line)@) < measure(old(line)@),
        (final(line)@, expr_result(r)) == ternary_model(old(line)@, cond@),
    decreases measure(old(line)@), 9nat, 2nat,
{
    proof {
        lemma_line_peek_measure(line@);
    }
    match line.peek_token() {
        Some(Ok(TokenOf::Question)) => {},
        _ => {
            return parse_or(cond, line);
        },
    }
    proof {
        lemma_line_take_measure(line@);
    }
    line.take_token();
    let pass = match parse(line) {
        Ok(pass) => pass,
        Err(es) => {
            return Err(es);
        },
    };
    proof {
        lemma_line_take_measure(line@);
    }
    match line.take_expect(Some(&TokenOf::Colon)) {
        Ok(_) => {},
        Err(e) => {
            return Err(one_error(e));
        },
    }
    let fail = match parse(line) {
        Ok(fail) => fail,
        Err(es) => {
            return Err(es);
        },
    };
    let span = Span::new(cond.span.start, fail.span.end);
    Ok(ExprNode { expr: Expr::Ternary { cond: Box::new(cond), pass: Box::new(pass), fail: Box::new(fail) }, span })
}


/// After an atom is taken, with `t` next on the line and not an operator, the expression
/// is the atom alone and `t` is left looked at.
pub proof fn lemma_name_stops(m: LineModel, lhs: ExprNodeModel, t: TokenModel, st: Span)
    requires
        m.peeked is None,
        m.stream.tokens.len() >= 1,
        m.stream.tokens[0] == (Ok::<TokenModel, crate::line_lexer::LexError>(t), st),
        !operator(t),
        t != TokenOf::<Seq<char>>::Newline,
    ensures
        with_lhs_model(m, lhs) == (line_peek(m).0, Ok::<ExprNodeModel, Seq<ParseErrorModel>>(lhs)),
        line_peek(m).0.peeked == Some(t),
        line_peek(m).0.stream.tokens == m.stream.tokens.drop_first(),
        line_peek(m).0.stream.span == st,
{
    assert(line_peek(m).1 == Some(Ok::<TokenModel, ParseErrorModel>(t)));
}

/// Entries that spell names in parentheses after `(`: the names separated by `,`, then `)`.
pub open spec fn paren_shape(toks: Seq<crate::shell_stream::LexedModel>, names: Seq<Seq<char>>) -> bool {
    &&& names.len() > 0
    &&& toks.len() >= 2 * names.len()
    &&& forall|i: int| 0 <= i < names.len() ==> (#[trigger] toks[2 * i]).0
        == Ok::<TokenModel, crate::line_lexer::LexError>(TokenOf::Ident(names[i]))
    &&& forall|i: int| 0 <= i < names.len() - 1 ==> (#[trigger] toks[2 * i + 1]).0
        == Ok::<TokenModel, crate::line_lexer::LexError>(TokenOf::Comma)
    &&& toks[2 * names.len() - 1].0 == Ok::<TokenModel, crate::line_lexer::LexError>(TokenOf::CloseParen)
}

/// The variables of the names, each spanning its entry.
pub open spec fn name_nodes(toks: Seq<crate::shell_stream::LexedModel>, names: Seq<Seq<char>>) -> Seq<ExprNodeModel> {
    Seq::new(names.len(), |i: int| ExprNodeModel { expr: ExprModel::Var(names[i]), span: toks[2 * i].1 })
}

/// Names in parentheses, after the items already read: alone (and with none before) the
/// name itself, otherwise a tuple of all the items and names in order, spanning from
/// `start` to the `)`.
proof fn lemma_paren_names(m: LineModel, start: usize, items: Seq<ExprNodeModel>, names: Seq<Seq<char>>)
    requires
        m.peeked is None,
        paren_shape(m.stream.tokens, names),
    ensures
        paren_model(m, start, items).0.peeked is None,
        paren_model(m, start, items).0.stream.tokens == m.stream.tokens.subrange(2 * names.len() as int, m.stream.tokens.len() as int),
        items.len() == 0 && names.len() == 1 ==> paren_model(m, start, items).1 == Ok::<ExprNodeModel, Seq<ParseErrorModel>>(
            name_nodes(m.stream.tokens, names)[0],
        ),
        !(items.len() == 0 && names.len() == 1) ==> paren_model(m, start, items).1 == Ok::<ExprNodeModel, Seq<ParseErrorModel>>(
            ExprNodeModel {
                expr: ExprModel::Tuple(items + name_nodes(m.stream.tokens, names)),
                span: Span { start, end: m.stream.tokens[2 * names.len() - 1].1.end },
            },
        ),
    decreases names.len(),
{
    let toks = m.stream.tokens;
    let e = node(ExprModel::Var(names[0]), toks[0].1);
    let m1 = line_take(m).0;
    assert(toks[2 * 0int].0 == Ok::<TokenModel, crate::line_lexer::LexError>(TokenOf::Ident(names[0])));
    assert(line_take(m).1 == Some(Ok::<TokenModel, ParseErrorModel>(TokenOf::Ident(names[0]))));
    assert(parse_atom_model(m) == (m1, Ok::<ExprNodeModel, Seq<ParseErrorModel>>(e)));
    assert(m1.stream.tokens =~= toks.subrange(1, toks.len() as int));
    let t = if names.len() == 1 { TokenOf::<Seq<char>>::CloseParen } else { TokenOf::<Seq<char>>::Comma };
    if names.len() > 1 {
        assert(toks[2 * 0int + 1].0 == Ok::<TokenModel, crate::line_lexer::LexError>(TokenOf::Comma));
    }
    lemma_name_stops(m1, e, t, toks[1].1);
    let m2 = line_peek(m1).0;
    assert(parse_model(m) == (m2, Ok::<ExprNodeModel, Seq<ParseErrorModel>>(e)));
    lemma_peeked_next(m2, t);
    let m3 = line_take(m2).0;
    assert(m3.stream.tokens =~= toks.subrange(2, toks.len() as int));
    assert(m3.span == toks[1].1);
    if names.len() == 1 {
        assert(paren_end_model(m2) == (m3, Ok::<bool, Seq<ParseErrorModel>>(true)));
        assert(name_nodes(toks, names)[0] == e);
        assert(items.push(e) =~= items + name_nodes(toks, names));
    } else {
        assert(paren_end_model(m2) == (m3, Ok::<bool, Seq<ParseErrorModel>>(false)));
        let rest = names.drop_first();
        let t2 = m3.stream.tokens;
        assert forall|i: int| 0 <= i < rest.len() implies (#[trigger] t2[2 * i]).0
            == Ok::<TokenModel, crate::line_lexer::LexError>(TokenOf::Ident(rest[i])) by {
            assert(t2[2 * i] == toks[2 * (i + 1)]);
        }
        assert forall|i: int| 0 <= i < rest.len() - 1 implies (#[trigger] t2[2 * i + 1]).0
            == Ok::<TokenModel, crate::line_lexer::LexError>(TokenOf::Comma) by {
            assert(t2[2 * i + 1] == toks[2 * (i + 1) + 1]);
        }
        assert(t2[2 * rest.len() - 1] == toks[2 * names.len() - 1]);
        lemma_paren_names(m3, start, items.push(e), rest);
        assert(items.push(e) + name_nodes(t2, rest) =~= items + name_nodes(toks, names)) by {
            assert forall|i: int| 0 <= i < rest.len() implies #[trigger] name_nodes(t2, rest)[i] == name_nodes(toks, names)[i + 1] by {
                assert(t2[2 * i] == toks[2 * (i + 1)]);
            }
        }
        assert(t2.subrange(2 * rest.len() as int, t2.len() as int) =~= toks.subrange(2 * names.len() as int, toks.len() as int));
    }
}

/// A line of names in parentheses, separated by commas: one name alone is that name (the
/// parentheses only group), two or more make a tuple of them in order, spanning from `(`
/// to `)`.
pub proof fn lemma_parenthesized_names(m: LineModel, so: Span, names: Seq<Seq<char>>)
    requires
        m.peeked is None,
        names.len() > 0,
        m.stream.tokens.len() == 1 + 2 * names.len(),
        m.stream.tokens[0] == (Ok::<TokenModel, crate::line_lexer::LexError>(TokenOf::OpenParen), so),
        paren_shape(m.stream.tokens.drop_first(), names),
    ensures
        names.len() == 1 ==> parse_model(m).1 == Ok::<ExprNodeModel, Seq<ParseErrorModel>>(
            ExprNodeModel { expr: ExprModel::Var(names[0]), span: m.stream.tokens[1].1 },
        ),
        names.len() > 1 ==> parse_model(m).1 == Ok::<ExprNodeModel, Seq<ParseErrorModel>>(
            ExprNodeModel {
                expr: ExprModel::Tuple(
                    Seq::new(names.len(), |i: int| ExprNodeModel { expr: ExprModel::Var(names[i]), span: m.stream.tokens[1 + 2 * i].1 }),
                ),
                span: Span { start: so.start, end: m.stream.tokens.last().1.end },
            },
        ),
{
    let toks = m.stream.tokens;
    let m1 = line_take(m).0;
    assert(line_take(m).1 == Some(Ok::<TokenModel, ParseErrorModel>(TokenOf::OpenParen)));
    assert(m1.span == so);
    assert(m1.stream.tokens =~= toks.drop_first());
    lemma_paren_names(m1, so.start, Seq::empty(), names);
    let (m2, r) = paren_model(m1, so.start, Seq::empty());
    assert(parse_atom_model(m) == (m2, r));
    assert(m2.stream.tokens.len() == 0);
    assert(line_peek(m2) == (m2, None::<Result<TokenModel, ParseErrorModel>>));
    assert(parse_model(m) == (m2, r));
    let nn = name_nodes(toks.drop_first(), names);
    if names.len() == 1 {
        assert(nn[0] == ExprNodeModel { expr: ExprModel::Var(names[0]), span: toks[1].1 });
    } else {
        assert(Seq::<ExprNodeModel>::empty() + nn =~= Seq::new(
            names.len(),
            |i: int| ExprNodeModel { expr: ExprModel::Var(names[i]), span: toks[1 + 2 * i].1 },
        ));
        assert(toks.drop_first()[2 * names.len() - 1] == toks.last());
    }
}

/// A comparison token between two names: `x == y` is an equality of the two, `x != y` an
/// inequality, and `<`, `>`, `<=`, `>=` compare them the same way round; the node spans
/// both names.
pub proof fn lemma_comparison_operators(
    m: LineModel,
    x: Seq<char>,
    t: TokenModel,
    y: Seq<char>,
    sx: Span,
    st: Span,
    sy: Span,
)
    requires
        m.peeked is None,
        m.stream.tokens == seq![
            (Ok::<TokenModel, crate::line_lexer::LexError>(TokenOf::Ident(x)), sx),
            (Ok::<TokenModel, crate::line_lexer::LexError>(t), st),
            (Ok::<TokenModel, crate::line_lexer::LexError>(TokenOf::Ident(y)), sy),
        ],
    ensures
        t == TokenOf::<Seq<char>>::Eq ==> parse_model(m).1 == Ok::<ExprNodeModel, Seq<ParseErrorModel>>(names_joined(BinOp::Eq, x, sx, y, sy)),
        t == TokenOf::<Seq<char>>::NEq ==> parse_model(m).1 == Ok::<ExprNodeModel, Seq<ParseErrorModel>>(names_joined(BinOp::NEq, x, sx, y, sy)),
        t == TokenOf::<Seq<char>>::Lt ==> parse_model(m).1 == Ok::<ExprNodeModel, Seq<ParseErrorModel>>(names_joined(BinOp::Lt, x, sx, y, sy)),
        t == TokenOf::<Seq<char>>::Gt ==> parse_model(m).1 == Ok::<ExprNodeModel, Seq<ParseErrorModel>>(names_joined(BinOp::Gt, x, sx, y, sy)),
        t == TokenOf::<Seq<char>>::LtEq ==> parse_model(m).1 == Ok::<ExprNodeModel, Seq<ParseErrorModel>>(names_joined(BinOp::LtEq, x, sx, y, sy)),
        t == TokenOf::<Seq<char>>::GtEq ==> parse_model(m).1 == Ok::<ExprNodeModel, Seq<ParseErrorModel>>(names_joined(BinOp::GtEq, x, sx, y, sy)),
{
    if level_op(Level::Relation, t) is Some {
        lemma_names_at_level(Level::Relation, m, x, t, y, sx, st, sy);
    }
}

/// The node for `op` between the names `x` and `y`, spanning both names.
pub open spec fn names_joined(op: BinOp, x: Seq<char>, sx: Span, y: Seq<char>, sy: Span) -> ExprNodeModel {
    ExprNodeModel {
        expr: ExprModel::Binary(
            op,
            Box::new(ExprNodeModel { expr: ExprModel::Var(x), span: sx }),
            Box::new(ExprNodeModel { expr: ExprModel::Var(y), span: sy }),
        ),
        span: Span { start: sx.start, end: sy.end },
    }
}

/// With nothing left on the line, every level gives back what it was handed.
proof fn lemma_levels_at_end(level: Level, m: LineModel, e: ExprNodeModel)
    requires
        m.peeked is None,
        m.stream.tokens.len() == 0,
    ensures
        lower(level, m, e) == (m, Ok::<ExprNodeModel, Seq<ParseErrorModel>>(e)),
        level_model(level, m, e) == (m, Ok::<ExprNodeModel, Seq<ParseErrorModel>>(e)),
    decreases rank(level),
{
    assert(line_peek(m) == (m, None::<Result<TokenModel, ParseErrorModel>>));
    assert(pow_model(m, e) == (m, Ok::<ExprNodeModel, Seq<ParseErrorModel>>(e)));
    match level {
        Level::Mul => {},
        Level::Add => {
            lemma_levels_at_end(Level::Mul, m, e);
        },
        Level::Relation => {
            lemma_levels_at_end(Level::Add, m, e);
        },
        Level::And => {
            lemma_levels_at_end(Level::Relation, m, e);
        },
        Level::Or => {
            lemma_levels_at_end(Level::And, m, e);
        },
        Level::Walrus => {
            lemma_levels_at_end(Level::Or, m, e);
            assert(ternary_model(m, e) == (m, Ok::<ExprNodeModel, Seq<ParseErrorModel>>(e)));
        },
    }
}

/// A line of a name, an operator token of `level` and a name parses to that operator
/// between the two names.
proof fn lemma_names_at_level(
    level: Level,
    m: LineModel,
    x: Seq<char>,
    t: TokenModel,
    y: Seq<char>,
    sx: Span,
    st: Span,
    sy: Span,
)
    requires
        m.peeked is None,
        m.stream.tokens == seq![
            (Ok::<TokenModel, crate::line_lexer::LexError>(TokenOf::Ident(x)), sx),
            (Ok::<TokenModel, crate::line_lexer::LexError>(t), st),
            (Ok::<TokenModel, crate::line_lexer::LexError>(TokenOf::Ident(y)), sy),
        ],
        level_op(level, t) is Some,
    ensures
        parse_model(m).1 == Ok::<ExprNodeModel, Seq<ParseErrorModel>>(names_joined(level_op(level, t)->0, x, sx, y, sy)),
{
    let lhs = node(ExprModel::Var(x), sx);
    let rhs = node(ExprModel::Var(y), sy);
    let m1 = line_take(m).0;
    assert(m.stream.tokens.drop_first() =~= seq![
        (Ok::<TokenModel, crate::line_lexer::LexError>(t), st),
        (Ok::<TokenModel, crate::line_lexer::LexError>(TokenOf::Ident(y)), sy),
    ]);
    assert(line_take(m).1 == Some(Ok::<TokenModel, ParseErrorModel>(TokenOf::Ident(x))));
    assert(parse_atom_model(m) == (m1, Ok::<ExprNodeModel, Seq<ParseErrorModel>>(lhs)));
    let m2 = line_peek(m1).0;
    assert(m1.stream.tokens.drop_first() =~= seq![(Ok::<TokenModel, crate::line_lexer::LexError>(TokenOf::Ident(y)), sy)]);
    assert(line_peek(m1).1 == Some(Ok::<TokenModel, ParseErrorModel>(t)));
    lemma_peeked_next(m2, t);
    let op = level_op(level, t)->0;
    let m3 = line_take(m2).0;
    let m4 = line_take(m3).0;
    assert(m3.stream.tokens.drop_first() =~= Seq::<crate::shell_stream::LexedModel>::empty());
    assert(line_take(m3).1 == Some(Ok::<TokenModel, ParseErrorModel>(TokenOf::Ident(y))));
    assert(parse_atom_model(m3) == (m4, Ok::<ExprNodeModel, Seq<ParseErrorModel>>(rhs)));
    lemma_levels_at_end(level, m4, rhs);
    assert(measure(m3) < measure(m2));
    assert(measure(m4) < measure(m2));
    let b = binary(op, lhs, rhs);
    assert(level_model(level, m2, lhs) == (m4, Ok::<ExprNodeModel, Seq<ParseErrorModel>>(b)));
    assert(line_peek(m4) == (m4, None::<Result<TokenModel, ParseErrorModel>>));
    assert(with_lhs_model(m4, b) == (m4, Ok::<ExprNodeModel, Seq<ParseErrorModel>>(b)));
    assert(with_lhs_model(m1, lhs) == (m4, Ok::<ExprNodeModel, Seq<ParseErrorModel>>(b)));
    assert(b == names_joined(op, x, sx, y, sy));
}

/// An arithmetic or logical operator token between two names: `x * y`, `x / y`, `x % y`,
/// `x + y`, `x - y`, `x and y`, `x or y` and `x := y` are that operator on the two names,
/// the same way round, and so is `x ** y` for the power; the node spans both names.
pub proof fn lemma_arithmetic_operators(
    m: LineModel,
    x: Seq<char>,
    t: TokenModel,
    y: Seq<char>,
    sx: Span,
    st: Span,
    sy: Span,
)
    requires
        m.peeked is None,
        m.stream.tokens == seq![
            (Ok::<TokenModel, crate::line_lexer::LexError>(TokenOf::Ident(x)), sx),
            (Ok::<TokenModel, crate::line_lexer::LexError>(t), st),
            (Ok::<TokenModel, crate::line_lexer::LexError>(TokenOf::Ident(y)), sy),
        ],
    ensures
        t == TokenOf::<Seq<char>>::Pow ==> parse_model(m).1 == Ok::<ExprNodeModel, Seq<ParseErrorModel>>(names_joined(BinOp::Pow, x, sx, y, sy)),
        t == TokenOf::<Seq<char>>::Mul ==> parse_model(m).1 == Ok::<ExprNodeModel, Seq<ParseErrorModel>>(names_joined(BinOp::Mul, x, sx, y, sy)),
        t == TokenOf::<Seq<char>>::Div ==> parse_model(m).1 == Ok::<ExprNodeModel, Seq<ParseErrorModel>>(names_joined(BinOp::Div, x, sx, y, sy)),
        t == TokenOf::<Seq<char>>::Modulo ==> parse_model(m).1 == Ok::<ExprNodeModel, Seq<ParseErrorModel>>(names_joined(BinOp::Modulo, x, sx, y, sy)),
        t == TokenOf::<Seq<char>>::Add ==> parse_model(m).1 == Ok::<ExprNodeModel, Seq<ParseErrorModel>>(names_joined(BinOp::Add, x, sx, y, sy)),
        t == TokenOf::<Seq<char>>::Sub ==> parse_model(m).1 == Ok::<ExprNodeModel, Seq<ParseErrorModel>>(names_joined(BinOp::Sub, x, sx, y, sy)),
        t == TokenOf::<Seq<char>>::And ==> parse_model(m).1 == Ok::<ExprNodeModel, Seq<ParseErrorModel>>(names_joined(BinOp::And, x, sx, y, sy)),
        t == TokenOf::<Seq<char>>::Or ==> parse_model(m).1 == Ok::<ExprNodeModel, Seq<ParseErrorModel>>(names_joined(BinOp::Or, x, sx, y, sy)),
        t == TokenOf::<Seq<char>>::Walrus ==> parse_model(m).1 == Ok::<ExprNodeModel, Seq<ParseErrorModel>>(names_joined(BinOp::Walrus, x, sx, y, sy)),
{
    if t == TokenOf::<Seq<char>>::Mul || t == TokenOf::<Seq<char>>::Div || t == TokenOf::<Seq<char>>::Modulo {
        lemma_names_at_level(Level::Mul, m, x, t, y, sx, st, sy);
    } else if t == TokenOf::<Seq<char>>::Add || t == TokenOf::<Seq<char>>::Sub {
        lemma_names_at_level(Level::Add, m, x, t, y, sx, st, sy);
    } else if t == TokenOf::<Seq<char>>::And {
        lemma_names_at_level(Level::And, m, x, t, y, sx, st, sy);
    } else if t == TokenOf::<Seq<char>>::Or {
        lemma_names_at_level(Level::Or, m, x, t, y, sx, st, sy);
    } else if t == TokenOf::<Seq<char>>::Walrus {
        lemma_names_at_level(Level::Walrus, m, x, t, y, sx, st, sy);
    } else if t == TokenOf::<Seq<char>>::Pow {
        let lhs = node(ExprModel::Var(x), sx);
        let rhs = node(ExprModel::Var(y), sy);
        let m1 = line_take(m).0;
        assert(m.stream.tokens.drop_first() =~= seq![
            (Ok::<TokenModel, crate::line_lexer::LexError>(t), st),
            (Ok::<TokenModel, crate::line_lexer::LexError>(TokenOf::Ident(y)), sy),
        ]);
        assert(line_take(m).1 == Some(Ok::<TokenModel, ParseErrorModel>(TokenOf::Ident(x))));
        assert(parse_atom_model(m) == (m1, Ok::<ExprNodeModel, Seq<ParseErrorModel>>(lhs)));
        let m2 = line_peek(m1).0;
        assert(m1.stream.tokens.drop_first() =~= seq![(Ok::<TokenModel, crate::line_lexer::LexError>(TokenOf::Ident(y)), sy)]);
        assert(line_peek(m1).1 == Some(Ok::<TokenModel, ParseErrorModel>(t)));
        lemma_peeked_next(m2, t);
        let m3 = line_take(m2).0;
        let m4 = line_take(m3).0;
        assert(m3.stream.tokens.drop_first() =~= Seq::<crate::shell_stream::LexedModel>::empty());
        assert(line_take(m3).1 == Some(Ok::<TokenModel, ParseErrorModel>(TokenOf::Ident(y))));
        assert(parse_atom_model(m3) == (m4, Ok::<ExprNodeModel, Seq<ParseErrorModel>>(rhs)));
        assert(line_peek(m4) == (m4, None::<Result<TokenModel, ParseErrorModel>>));
        assert(pow_model(m4, rhs) == (m4, Ok::<ExprNodeModel, Seq<ParseErrorModel>>(rhs)));
        assert(measure(m3) < measure(m2));
        assert(measure(m4) < measure(m2));
        let b = binary(BinOp::Pow, lhs, rhs);
        assert(pow_model(m2, lhs) == (m4, Ok::<ExprNodeModel, Seq<ParseErrorModel>>(b)));
        assert(with_lhs_model(m4, b) == (m4, Ok::<ExprNodeModel, Seq<ParseErrorModel>>(b)));
        assert(with_lhs_model(m1, lhs) == (m4, Ok::<ExprNodeModel, Seq<ParseErrorModel>>(b)));
        assert(b == names_joined(BinOp::Pow, x, sx, y, sy));
    }
}

/// A line of one value or name token is that value or name, spanning the token: `none`
/// is none, a boolean that boolean, an integer, float or string literal that literal
/// with its text, and a name a variable of that name.
pub proof fn lemma_single_atom(m: LineModel, t: TokenModel, st: Span)
    requires
        m.peeked is None,
        m.stream.tokens == seq![(Ok::<TokenModel, crate::line_lexer::LexError>(t), st)],
    ensures
        t == TokenOf::<Seq<char>>::NoneValue ==> parse_model(m).1 == Ok::<ExprNodeModel, Seq<ParseErrorModel>>(
            ExprNodeModel { expr: ExprModel::NoneValue, span: st },
        ),
        forall|b: bool| t == TokenOf::<Seq<char>>::Bool(b) ==> parse_model(m).1 == Ok::<ExprNodeModel, Seq<ParseErrorModel>>(
            ExprNodeModel { expr: ExprModel::Bool(b), span: st },
        ),
        forall|v: Seq<char>| t == TokenOf::<Seq<char>>::Int(v) ==> parse_model(m).1 == Ok::<ExprNodeModel, Seq<ParseErrorModel>>(
            ExprNodeModel { expr: ExprModel::Int(v), span: st },
        ),
        forall|v: Seq<char>| t == TokenOf::<Seq<char>>::Float(v) ==> parse_model(m).1 == Ok::<ExprNodeModel, Seq<ParseErrorModel>>(
            ExprNodeModel { expr: ExprModel::Float(v), span: st },
        ),
        forall|v: Seq<char>| t == TokenOf::<Seq<char>>::Str(v) ==> parse_model(m).1 == Ok::<ExprNodeModel, Seq<ParseErrorModel>>(
            ExprNodeModel { expr: ExprModel::Str(v), span: st },
        ),
        forall|v: Seq<char>| t == TokenOf::<Seq<char>>::Ident(v) ==> parse_model(m).1 == Ok::<ExprNodeModel, Seq<ParseErrorModel>>(
            ExprNodeModel { expr: ExprModel::Var(v), span: st },
        ),
{
    if atom_value(t) is Some {
        let m1 = line_take(m).0;
        assert(m.stream.tokens.drop_first() =~= Seq::<crate::shell_stream::LexedModel>::empty());
        assert(line_take(m).1 == Some(Ok::<TokenModel, ParseErrorModel>(t)));
        assert(m1.span == st);
        assert(line_peek(m1) == (m1, None::<Result<TokenModel, ParseErrorModel>>));
        let n = node(atom_value(t)->0, st);
        assert(parse_atom_model(m) == (m1, Ok::<ExprNodeModel, Seq<ParseErrorModel>>(n)));
        assert(with_lhs_model(m1, n) == (m1, Ok::<ExprNodeModel, Seq<ParseErrorModel>>(n)));
        assert(parse_model(m) == (m1, Ok::<ExprNodeModel, Seq<ParseErrorModel>>(n)));
    }
}

} // verus!
