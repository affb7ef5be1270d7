//! The syntax tree that the line parser builds: expressions and statements, each with
//! the span of source it was read from.
use vstd::prelude::*;

use crate::parse_token::Span;

verus! {

/// A binary operator.
#[derive(Debug, Clone, Copy, PartialEq, Eq, Structural)]
pub enum BinOp {
    Pow,
    Mul,
    Div,
    Modulo,
    Add,
    Sub,
    Eq,
    Lt,
    Gt,
    NEq,
    LtEq,
    GtEq,
    And,
    Or,
    Walrus,
}

/// An expression.
#[derive(Debug)]
pub enum Expr {
    NoneValue,
    Bool(bool),
    Int(String),
    Float(String),
    Str(String),
    Var(String),
    Tuple(Vec<ExprNode>),
    Binary(BinOp, Box<ExprNode>, Box<ExprNode>),
    Ternary { cond: Box<ExprNode>, pass: Box<ExprNode>, fail: Box<ExprNode> },
    Func(Box<FuncNode>),
}

/// An expression with its span.
#[derive(Debug)]
pub struct ExprNode {
    pub expr: Expr,
    pub span: Span,
}

/// A function value: parameter names and a body, with the span of its header.
#[derive(Debug)]
pub struct FuncNode {
    pub params: Vec<String>,
    pub body: Vec<StatementNode>,
    pub span: Span,
}

/// A statement.
#[derive(Debug)]
pub enum Statement {
    /// `let lhs = rhs` (with `init`) or `lhs = rhs`.
    Assign { init: bool, lhs: ExprNode, rhs: ExprNode },
    While { cond: ExprNode, body: Vec<StatementNode> },
    /// An expression on its own; `closed` where a `;` ends it.
    Expr { expr: ExprNode, closed: bool },
}

/// A statement with its span.
#[derive(Debug)]
pub struct StatementNode {
    pub statement: Statement,
    pub span: Span,
}

/// The value of an expression.
pub enum ExprModel {
    NoneValue,
    Bool(bool),
    Int(Seq<char>),
    Float(Seq<char>),
    Str(Seq<char>),
    Var(Seq<char>),
    Tuple(Seq<ExprNodeModel>),
    Binary(BinOp, Box<ExprNodeModel>, Box<ExprNodeModel>),
    Ternary { cond: Box<ExprNodeModel>, pass: Box<ExprNodeModel>, fail: Box<ExprNodeModel> },
    Func(Box<FuncModel>),
}

/// The value of an expression node.
pub struct ExprNodeModel {
    pub expr: ExprModel,
    pub span: Span,
}

/// The value of a function.
pub struct FuncModel {
    pub params: Seq<Seq<char>>,
    pub body: Seq<StatementNodeModel>,
    pub span: Span,
}

/// The value of a statement.
pub enum StatementModel {
    Assign { init: bool, lhs: ExprNodeModel, rhs: ExprNodeModel },
    While { cond: ExprNodeModel, body: Seq<StatementNodeModel> },
    Expr { expr: ExprNodeModel, closed: bool },
}

/// The value of a statement node.
pub struct StatementNodeModel {
    pub statement: StatementModel,
    pub span: Span,
}

/// The value of an expression node.
pub open spec fn expr_view(e: ExprNode) -> ExprNodeModel
    decreases e,
{
    ExprNodeModel {
        expr: match e.expr {
            Expr::NoneValue => ExprModel::NoneValue,
            Expr::Bool(b) => ExprModel::Bool(b),
            Expr::Int(s) => ExprModel::Int(s@),
            Expr::Float(s) => ExprModel::Float(s@),
            Expr::Str(s) => ExprModel::Str(s@),
            Expr::Var(s) => ExprModel::Var(s@),
            Expr::Tuple(items) => ExprModel::Tuple(exprs_view(items@)),
            Expr::Binary(op, l, r) => ExprModel::Binary(op, Box::new(expr_view(*l)), Box::new(expr_view(*r))),
            Expr::Ternary { cond, pass, fail } => ExprModel::Ternary {
                cond: Box::new(expr_view(*cond)),
                pass: Box::new(expr_view(*pass)),
                fail: Box::new(expr_view(*fail)),
            },
            Expr::Func(f) => ExprModel::Func(Box::new(func_view(*f))),
        },
        span: e.span,
    }
}

/// The values of a list of expression nodes.
pub open spec fn exprs_view(items: Seq<ExprNode>) -> Seq<ExprNodeModel>
    decreases items,
{
    if items.len() == 0 {
        Seq::empty()
    } else {
        exprs_view(items.drop_last()).push(expr_view(items.last()))
    }
}

/// The value of a function node.
pub open spec fn func_view(f: FuncNode) -> FuncModel
    decreases f,
{
    FuncModel {
        params: f.params@.map_values(|p: String| p@),
        body: statements_view(f.body@),
        span: f.span,
    }
}

/// The value of a statement node.
pub open spec fn statement_view(s: StatementNode) -> StatementNodeModel
    decreases s,
{
    StatementNodeModel {
        statement: match s.statement {
            Statement::Assign { init, lhs, rhs } => StatementModel::Assign {
                init,
                lhs: expr_view(lhs),
                rhs: expr_view(rhs),
            },
            Statement::While { cond, body } => StatementModel::While {
                cond: expr_view(cond),
                body: statements_view(body@),
            },
            Statement::Expr { expr, closed } => StatementModel::Expr { expr: expr_view(expr), closed },
        },
        span: s.span,
    }
}

/// The values of a list of statement nodes.
pub open spec fn statements_view(items: Seq<StatementNode>) -> Seq<StatementNodeModel>
    decreases items,
{
    if items.len() == 0 {
        Seq::empty()
    } else {
        statements_view(items.drop_last()).push(statement_view(items.last()))
    }
}

impl View for ExprNode {
    type V = ExprNodeModel;

    open spec fn view(&self) -> ExprNodeModel {
        expr_view(*self)
    }
}

impl View for StatementNode {
    type V = StatementNodeModel;

    open spec fn view(&self) -> StatementNodeModel {
        statement_view(*self)
    }
}

/// Viewing a list of expressions keeps its length.
pub proof fn lemma_exprs_view_len(items: Seq<ExprNode>)
    ensures
        exprs_view(items).len() == items.len(),
    decreases items.len(),
{
    if items.len() > 0 {
        lemma_exprs_view_len(items.drop_last());
    }
}

/// Viewing a list of statements keeps its length.
pub proof fn lemma_statements_view_len(items: Seq<StatementNode>)
    ensures
        statements_view(items).len() == items.len(),
    decreases items.len(),
{
    if items.len() > 0 {
        lemma_statements_view_len(items.drop_last());
    }
}

} // verus!
