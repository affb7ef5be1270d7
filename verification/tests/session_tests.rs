use boba_script::line_lexer::LexError;
use boba_script::line_parser::ParseError;
use boba_script::parse_token::Span;
use boba_script::session::{Outcome, Session};
use boba_script::syntax::{Expr, Statement, StatementNode};

fn statement(o: &Outcome) -> &StatementNode {
    match o {
        Outcome::Statement(s) => s,
        Outcome::Errors(es) => panic!("errors: {:?}", es),
        Outcome::Unsupported => panic!("unsupported"),
    }
}

fn body_of(s: &StatementNode) -> &Vec<StatementNode> {
    match &s.statement {
        Statement::While { body, .. } => body,
        other => panic!("not a loop: {:?}", other),
    }
}

#[test]
fn single_line_statement_comes_out_at_once() {
    let mut session = Session::new();
    let out = session.feed("let a = 3");
    assert_eq!(out.len(), 1);
    let s = statement(&out[0]);
    assert!(matches!(&s.statement, Statement::Assign { init: true, .. }));
    assert_eq!(s.span, Span::new(1, 10));
    assert!(!session.is_pending());
    assert_eq!(session.source(), "\nlet a = 3");
}

#[test]
fn while_stays_open_until_a_dedent() {
    let mut session = Session::new();
    assert!(session.feed("while c:").is_empty());
    assert!(session.is_pending());
    assert!(session.feed("    x = 1").is_empty());
    assert!(session.is_pending());
    let out = session.feed("y");
    assert_eq!(out.len(), 2);
    assert_eq!(body_of(statement(&out[0])).len(), 1);
    match &statement(&out[1]).statement {
        Statement::Expr { expr, closed: false } => assert!(matches!(&expr.expr, Expr::Var(v) if v == "y")),
        other => panic!("unexpected {:?}", other),
    }
    assert!(!session.is_pending());
}

#[test]
fn blank_line_finishes_the_open_statement() {
    let mut session = Session::new();
    assert!(session.feed("while c:").is_empty());
    assert!(session.feed("    x = 1").is_empty());
    assert!(session.feed("    y = 2").is_empty());
    let out = session.feed("");
    assert_eq!(out.len(), 1);
    assert_eq!(body_of(statement(&out[0])).len(), 2);
    assert!(!session.is_pending());
    // nothing open, nothing given
    assert!(session.feed("").is_empty());
}

#[test]
fn one_blank_line_closes_nested_blocks() {
    let mut session = Session::new();
    assert!(session.feed("while a:").is_empty());
    assert!(session.feed("    while b:").is_empty());
    assert!(session.feed("        x").is_empty());
    let out = session.feed("");
    assert_eq!(out.len(), 1);
    let outer = body_of(statement(&out[0]));
    assert_eq!(outer.len(), 1);
    assert_eq!(body_of(&outer[0]).len(), 1);
    assert!(!session.is_pending());
}

#[test]
fn statement_starting_with_if_is_reported() {
    let mut session = Session::new();
    let out = session.feed("if x:");
    assert_eq!(out.len(), 1);
    assert!(matches!(out[0], Outcome::Unsupported));
    assert!(!session.is_pending());
}

#[test]
fn if_inside_an_open_block_is_reported_and_drops_it() {
    let mut session = Session::new();
    assert!(session.feed("while c:").is_empty());
    let out = session.feed("    if x:");
    assert_eq!(out.len(), 1);
    assert!(matches!(out[0], Outcome::Unsupported));
    assert!(!session.is_pending());
}

#[test]
fn parse_errors_are_given_out() {
    let mut session = Session::new();
    let out = session.feed("let = 1");
    assert_eq!(out.len(), 1);
    match &out[0] {
        Outcome::Errors(es) => {
            assert!(!es.is_empty());
            assert!(matches!(&es[0], ParseError::UnexpectedInput { .. }));
        },
        _ => panic!("errors expected"),
    }
    assert!(!session.is_pending());
}

#[test]
fn unreadable_entry_is_reported_with_its_span() {
    let mut session = Session::new();
    let out = session.feed("$ x");
    assert_eq!(out.len(), 1);
    match &out[0] {
        Outcome::Errors(es) => {
            assert_eq!(es.len(), 1);
            match &es[0] {
                ParseError::TokenError { error, span } => {
                    assert_eq!(*error, LexError::InvalidSymbol);
                    assert_eq!(*span, Span::new(1, 2));
                },
                other => panic!("unexpected {:?}", other),
            }
        },
        _ => panic!("errors expected"),
    }
}

#[test]
fn error_in_a_block_leaves_it_open() {
    let mut session = Session::new();
    assert!(session.feed("while c:").is_empty());
    assert!(session.feed("    x = 1").is_empty());
    let out = session.feed("    let = 1");
    assert_eq!(out.len(), 1);
    assert!(matches!(out[0], Outcome::Errors(_)));
    assert!(session.is_pending());
    assert!(session.feed("    y = 2").is_empty());
    let out = session.feed("");
    assert_eq!(out.len(), 1);
    assert_eq!(body_of(statement(&out[0])).len(), 2);
}

#[test]
fn block_with_nothing_indented_ends_empty() {
    // the line after the header is not indented, so the block is empty and the line
    // starts a statement of its own
    let mut session = Session::new();
    assert!(session.feed("while c:").is_empty());
    let out = session.feed("x = 2");
    assert_eq!(out.len(), 2);
    assert!(body_of(statement(&out[0])).is_empty());
    assert!(matches!(&statement(&out[1]).statement, Statement::Assign { init: false, .. }));
}

fn var_names(e: &boba_script::syntax::ExprNode) -> Vec<String> {
    match &e.expr {
        Expr::Tuple(items) => items
            .iter()
            .map(|i| match &i.expr {
                Expr::Var(v) => v.clone(),
                other => panic!("not a variable: {:?}", other),
            })
            .collect(),
        other => panic!("not a tuple: {:?}", other),
    }
}

#[test]
fn readme_let_destructures_a_tuple() {
    let mut session = Session::new();
    let out = session.feed("let (a, b, c) = (10, 42, 750)");
    assert_eq!(out.len(), 1);
    match &statement(&out[0]).statement {
        Statement::Assign { init: true, lhs, rhs } => {
            assert_eq!(var_names(lhs), vec!["a", "b", "c"]);
            match &rhs.expr {
                Expr::Tuple(items) => {
                    let values: Vec<&str> = items
                        .iter()
                        .map(|i| match &i.expr {
                            Expr::Int(v) => v.as_str(),
                            other => panic!("not an int: {:?}", other),
                        })
                        .collect();
                    assert_eq!(values, vec!["10", "42", "750"]);
                },
                other => panic!("not a tuple: {:?}", other),
            }
        },
        other => panic!("unexpected {:?}", other),
    }
}

#[test]
fn readme_swap_assigns_tuples() {
    let mut session = Session::new();
    assert_eq!(session.feed("let a = 10").len(), 1);
    assert_eq!(session.feed("let b = 42").len(), 1);
    let out = session.feed("(a, b) = (b, a) # this line swaps the values");
    assert_eq!(out.len(), 1);
    match &statement(&out[0]).statement {
        Statement::Assign { init: false, lhs, rhs } => {
            assert_eq!(var_names(lhs), vec!["a", "b"]);
            assert_eq!(var_names(rhs), vec!["b", "a"]);
        },
        other => panic!("unexpected {:?}", other),
    }
}

#[test]
fn readme_while_loop_and_function() {
    let mut session = Session::new();
    assert!(session.feed("while my_var > 0:").is_empty());
    assert!(session.feed("  my_var = my_var - 1").is_empty());
    let out = session.feed("fn my_func(value):");
    assert_eq!(out.len(), 1);
    match &statement(&out[0]).statement {
        Statement::While { cond, body } => {
            assert!(matches!(&cond.expr, Expr::Binary(boba_script::syntax::BinOp::Gt, _, _)));
            assert_eq!(body.len(), 1);
        },
        other => panic!("unexpected {:?}", other),
    }
    assert!(session.is_pending());
    assert!(session.feed("  value").is_empty());
    let out = session.feed("");
    assert_eq!(out.len(), 1);
    match &statement(&out[0]).statement {
        Statement::Assign { init: true, lhs, rhs } => {
            assert!(matches!(&lhs.expr, Expr::Var(v) if v == "my_func"));
            match &rhs.expr {
                Expr::Func(f) => {
                    assert_eq!(f.params, vec!["value".to_string()]);
                    assert_eq!(f.body.len(), 1);
                },
                other => panic!("unexpected {:?}", other),
            }
        },
        other => panic!("unexpected {:?}", other),
    }
}

#[test]
fn if_with_a_bad_condition_is_an_error() {
    let mut session = Session::new();
    let out = session.feed("if ) x");
    assert_eq!(out.len(), 1);
    match &out[0] {
        Outcome::Errors(es) => assert!(!es.is_empty()),
        _ => panic!("errors expected"),
    }
    // inside a block the same holds, and the block stays open
    assert!(session.feed("while c:").is_empty());
    assert!(session.feed("    x = 1").is_empty());
    let out = session.feed("    if )");
    assert_eq!(out.len(), 1);
    assert!(matches!(out[0], Outcome::Errors(_)));
    assert!(session.is_pending());
}
