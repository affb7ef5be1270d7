use boba_script::expr_parser::{parse, parse_atom};
use boba_script::line_lexer::{LexError, Lexer};
use boba_script::line_parser::{display_token, same_token, ConsumeEnd, ConsumeFlag, LineParser, ParseError, TokenLine};
use boba_script::parse_token::{Span, Token, TokenOf};
use boba_script::shell_stream::ShellStream;
use boba_script::stmt_parser::{parse_close, start_block, start_parsing, starts_with_if, BlockParser, CloseType, StatementType};
use boba_script::syntax::{BinOp, Expr, ExprNode, Statement};

fn ident(s: &str) -> Token {
    TokenOf::Ident(s.to_string())
}

fn int_tok(s: &str) -> Token {
    TokenOf::Int(s.to_string())
}

/// A stream of tokens, token `i` spanning `10 * i .. 10 * i + 1`.
fn stream_of(tokens: Vec<Token>) -> ShellStream {
    let mut s = ShellStream::new();
    for (i, t) in tokens.into_iter().enumerate() {
        s.push_token(Ok(t), Span::new(10 * i, 10 * i + 1));
    }
    s
}

fn line_of(tokens: Vec<Token>) -> TokenLine {
    LineParser::new(stream_of(tokens)).line()
}

fn var_name(e: &ExprNode) -> &str {
    match &e.expr {
        Expr::Var(v) => v.as_str(),
        other => panic!("not a variable: {:?}", other),
    }
}

fn binary(e: &ExprNode) -> (BinOp, &ExprNode, &ExprNode) {
    match &e.expr {
        Expr::Binary(op, l, r) => (*op, l, r),
        other => panic!("not binary: {:?}", other),
    }
}

#[test]
fn multiplication_binds_tighter_than_addition() {
    let mut line = line_of(vec![ident("a"), TokenOf::Add, ident("b"), TokenOf::Mul, ident("c")]);
    let e = parse(&mut line).unwrap();
    let (op, l, r) = binary(&e);
    assert_eq!(op, BinOp::Add);
    assert_eq!(var_name(l), "a");
    let (op2, l2, r2) = binary(r);
    assert_eq!(op2, BinOp::Mul);
    assert_eq!(var_name(l2), "b");
    assert_eq!(var_name(r2), "c");
    assert_eq!(e.span, Span::new(0, 41));
}

#[test]
fn power_is_right_associative() {
    let mut line = line_of(vec![ident("a"), TokenOf::Pow, ident("b"), TokenOf::Pow, ident("c")]);
    let e = parse(&mut line).unwrap();
    let (op, l, r) = binary(&e);
    assert_eq!(op, BinOp::Pow);
    assert_eq!(var_name(l), "a");
    let (op2, _, _) = binary(r);
    assert_eq!(op2, BinOp::Pow);
}

#[test]
fn subtraction_is_left_associative() {
    let mut line = line_of(vec![int_tok("1"), TokenOf::Sub, int_tok("2"), TokenOf::Sub, int_tok("3")]);
    let e = parse(&mut line).unwrap();
    let (op, l, r) = binary(&e);
    assert_eq!(op, BinOp::Sub);
    assert!(matches!(&r.expr, Expr::Int(v) if v == "3"));
    let (op2, _, _) = binary(l);
    assert_eq!(op2, BinOp::Sub);
}

#[test]
fn comparison_and_logic() {
    let mut line = line_of(vec![ident("a"), TokenOf::Lt, ident("b"), TokenOf::And, ident("c"), TokenOf::Or, ident("d")]);
    let e = parse(&mut line).unwrap();
    let (op, l, _) = binary(&e);
    assert_eq!(op, BinOp::Or);
    let (op2, l2, _) = binary(l);
    assert_eq!(op2, BinOp::And);
    assert_eq!(binary(l2).0, BinOp::Lt);
}

#[test]
fn ternary_and_walrus() {
    let mut line = line_of(vec![ident("c"), TokenOf::Question, int_tok("1"), TokenOf::Colon, int_tok("2")]);
    let e = parse(&mut line).unwrap();
    match &e.expr {
        Expr::Ternary { cond, pass, fail } => {
            assert_eq!(var_name(cond), "c");
            assert!(matches!(&pass.expr, Expr::Int(v) if v == "1"));
            assert!(matches!(&fail.expr, Expr::Int(v) if v == "2"));
        },
        other => panic!("not a ternary: {:?}", other),
    }
    let mut line = line_of(vec![ident("x"), TokenOf::Walrus, int_tok("5")]);
    let e = parse(&mut line).unwrap();
    assert_eq!(binary(&e).0, BinOp::Walrus);
}

#[test]
fn parentheses_and_tuples() {
    let mut line = line_of(vec![TokenOf::OpenParen, ident("a"), TokenOf::CloseParen]);
    let e = parse(&mut line).unwrap();
    assert_eq!(var_name(&e), "a");
    let mut line = line_of(vec![TokenOf::OpenParen, ident("a"), TokenOf::Comma, ident("b"), TokenOf::CloseParen]);
    let e = parse(&mut line).unwrap();
    match &e.expr {
        Expr::Tuple(items) => {
            assert_eq!(items.len(), 2);
            assert_eq!(var_name(&items[1]), "b");
        },
        other => panic!("not a tuple: {:?}", other),
    }
    assert_eq!(e.span, Span::new(0, 41));
}

#[test]
fn unclosed_parenthesis_is_reported() {
    let mut line = line_of(vec![TokenOf::OpenParen, ident("a"), ident("b")]);
    let errors = parse(&mut line).unwrap_err();
    assert_eq!(errors.len(), 2);
    match &errors[0] {
        ParseError::UnexpectedInput { expect, found, span } => {
            assert_eq!(expect, "',' or ')'");
            assert!(matches!(found, Some(TokenOf::Ident(b)) if b == "b"));
            assert_eq!(*span, Span::new(20, 21));
        },
        other => panic!("unexpected error {:?}", other),
    }
    match &errors[1] {
        ParseError::UnclosedBrace { open, end } => {
            assert_eq!(*open, Span::new(0, 1));
            assert_eq!(*end, Span::new(21, 21));
        },
        other => panic!("unexpected error {:?}", other),
    }
}

#[test]
fn atom_errors() {
    let mut line = line_of(vec![TokenOf::Add]);
    let errors = parse_atom(&mut line).unwrap_err();
    assert!(matches!(&errors[0], ParseError::UnexpectedInput { expect, found: Some(TokenOf::Add), .. } if expect == "expression"));
    let mut line = line_of(vec![]);
    let errors = parse_atom(&mut line).unwrap_err();
    assert!(matches!(&errors[0], ParseError::UnexpectedInput { found: None, .. }));
    // a line break ends the line: it is not taken
    let mut line = line_of(vec![TokenOf::Newline, ident("a")]);
    assert!(parse_atom(&mut line).is_err());
    assert!(line.take_token().is_none());
    // lexer errors are parse errors at their span
    let mut s = ShellStream::new();
    s.push_token(Err(LexError::UnclosedString), Span::new(3, 7));
    let mut line = LineParser::new(s).line();
    let errors = parse_atom(&mut line).unwrap_err();
    assert!(matches!(&errors[0], ParseError::TokenError { error: LexError::UnclosedString, span } if *span == Span::new(3, 7)));
}

#[test]
fn let_and_assignment_statements() {
    let mut line = line_of(vec![TokenOf::Let, ident("x"), TokenOf::Assign, int_tok("1")]);
    match start_parsing(&mut line).unwrap() {
        StatementType::SingleLine(node) => {
            match &node.statement {
                Statement::Assign { init, lhs, .. } => {
                    assert!(*init);
                    assert_eq!(var_name(lhs), "x");
                },
                other => panic!("unexpected {:?}", other),
            }
            assert_eq!(node.span, Span::new(0, 31));
        },
        StatementType::MultiLine(_) => panic!("single line expected"),
    }
    let mut line = line_of(vec![ident("x"), TokenOf::Assign, int_tok("2"), TokenOf::SemiColon]);
    match start_parsing(&mut line).unwrap() {
        StatementType::SingleLine(node) => {
            assert!(matches!(&node.statement, Statement::Assign { init: false, .. }));
        },
        StatementType::MultiLine(_) => panic!("single line expected"),
    }
    let mut line = line_of(vec![ident("x"), TokenOf::SemiColon]);
    match start_parsing(&mut line).unwrap() {
        StatementType::SingleLine(node) => {
            assert!(matches!(&node.statement, Statement::Expr { closed: true, .. }));
        },
        StatementType::MultiLine(_) => panic!("single line expected"),
    }
    let mut line = line_of(vec![ident("x"), ident("y"), ident("z")]);
    let errors = match start_parsing(&mut line) {
        Err(errors) => errors,
        Ok(_) => panic!("error expected"),
    };
    assert!(matches!(&errors[0], ParseError::UnexpectedInput { expect, .. } if expect == "'=', ';', or end of line"));
    // the rest of the line was read
    assert!(line.take_token().is_none());
}

#[test]
fn close_and_block_start() {
    let mut line = line_of(vec![TokenOf::SemiColon]);
    assert_eq!(parse_close(&mut line).unwrap(), CloseType::SemiColon);
    let mut line = line_of(vec![]);
    assert_eq!(parse_close(&mut line).unwrap(), CloseType::EndLine);
    let mut line = line_of(vec![TokenOf::SemiColon, ident("x")]);
    let errors = parse_close(&mut line).unwrap_err();
    assert!(matches!(&errors[0], ParseError::UnexpectedInput { expect, .. } if expect == "end of line"));
    let mut line = line_of(vec![TokenOf::Colon]);
    assert!(!start_block(&mut line).unwrap().is_complete());
    let mut line = line_of(vec![ident("x")]);
    assert!(matches!(start_block(&mut line), Err(_)));
}

fn take_line_break(line: TokenLine) -> TokenLine {
    let mut parser = line.into_parser();
    assert!(matches!(parser.take_token(), Some(Ok(TokenOf::Newline))));
    parser.line()
}

#[test]
fn while_block_over_lines() {
    // while c:
    //     x = 1
    // y
    let tokens = vec![
        TokenOf::While, ident("c"), TokenOf::Colon, TokenOf::Newline,
        TokenOf::Indent, ident("x"), TokenOf::Assign, int_tok("1"), TokenOf::Newline,
        TokenOf::Dedent, ident("y"),
    ];
    let mut line = line_of(tokens);
    let mut parser = match start_parsing(&mut line).unwrap() {
        StatementType::MultiLine(p) => p,
        StatementType::SingleLine(_) => panic!("block expected"),
    };
    assert!(!parser.is_none());
    let mut line = take_line_break(line);
    assert!(parser.parse_line(&mut line).unwrap().is_none());
    let mut line = take_line_break(line);
    let statement = parser.parse_line(&mut line).unwrap().unwrap();
    match &statement.statement {
        Statement::While { cond, body } => {
            assert_eq!(var_name(cond), "c");
            assert_eq!(body.len(), 1);
            assert!(matches!(&body[0].statement, Statement::Assign { init: false, .. }));
        },
        other => panic!("unexpected {:?}", other),
    }
    assert!(parser.is_none());
}

#[test]
fn fn_statement_assigns_a_function() {
    // fn f(a, b):
    //     a
    let tokens = vec![
        TokenOf::Fn, ident("f"), TokenOf::OpenParen, ident("a"), TokenOf::Comma, ident("b"), TokenOf::CloseParen,
        TokenOf::Colon, TokenOf::Newline, TokenOf::Indent, ident("a"), TokenOf::Newline, TokenOf::Dedent,
    ];
    let mut line = line_of(tokens);
    let mut parser = match start_parsing(&mut line).unwrap() {
        StatementType::MultiLine(p) => p,
        StatementType::SingleLine(_) => panic!("block expected"),
    };
    let mut line = take_line_break(line);
    assert!(parser.parse_line(&mut line).unwrap().is_none());
    let mut line = take_line_break(line);
    let statement = parser.parse_line(&mut line).unwrap().unwrap();
    assert_eq!(statement.span, Span::new(0, 61));
    match &statement.statement {
        Statement::Assign { init: true, lhs, rhs } => {
            assert_eq!(var_name(lhs), "f");
            match &rhs.expr {
                Expr::Func(f) => {
                    assert_eq!(f.params, vec!["a".to_string(), "b".to_string()]);
                    assert_eq!(f.body.len(), 1);
                },
                other => panic!("unexpected {:?}", other),
            }
        },
        other => panic!("unexpected {:?}", other),
    }
}

#[test]
fn fn_parameters_must_close() {
    let tokens = vec![TokenOf::Fn, ident("f"), TokenOf::OpenParen, ident("a"), ident("b")];
    let mut line = line_of(tokens);
    let errors = match start_parsing(&mut line) {
        Err(errors) => errors,
        Ok(_) => panic!("error expected"),
    };
    assert_eq!(errors.len(), 2);
    assert!(matches!(&errors[1], ParseError::UnclosedBrace { open, .. } if *open == Span::new(0, 1)));
}

#[test]
fn empty_block_ends_at_once() {
    let mut line = line_of(vec![TokenOf::Colon]);
    let mut block: BlockParser = start_block(&mut line).unwrap();
    let mut line = line_of(vec![ident("x")]);
    assert_eq!(block.parse_line(&mut line).unwrap().unwrap().len(), 0);
}

#[test]
fn token_text_and_equality() {
    assert_eq!(display_token(&TokenOf::Walrus), ":=");
    assert_eq!(display_token(&TokenOf::Str("hi".to_string())), "'hi'");
    assert_eq!(display_token(&TokenOf::Bool(false)), "false");
    assert!(same_token(&ident("a"), &ident("a")));
    assert!(!same_token(&ident("a"), &ident("b")));
    assert!(!same_token(&TokenOf::Add, &TokenOf::Sub));
}

#[test]
fn lexed_line_parses() {
    let mut tokens = Lexer::new().lex("let y = 2 * (x + 1)");
    let mut stream = ShellStream::new();
    while let Some(result) = tokens.next_token() {
        stream.push_token(result, tokens.token_span());
    }
    let mut line = LineParser::new(stream).line();
    match start_parsing(&mut line).unwrap() {
        StatementType::SingleLine(node) => match &node.statement {
            Statement::Assign { init: true, rhs, .. } => {
                let (op, _, r) = binary(rhs);
                assert_eq!(op, BinOp::Mul);
                assert_eq!(binary(r).0, BinOp::Add);
            },
            other => panic!("unexpected {:?}", other),
        },
        StatementType::MultiLine(_) => panic!("single line expected"),
    }
}

#[test]
fn consume_until_stops_at_the_chosen_token() {
    let mut s = ShellStream::new();
    s.push_token(Ok(ident("a")), Span::new(0, 1));
    s.push_token(Err(LexError::InvalidSymbol), Span::new(2, 3));
    s.push_token(Ok(TokenOf::CloseParen), Span::new(4, 5));
    s.push_token(Ok(ident("c")), Span::new(6, 7));
    let mut line = LineParser::new(s).line();
    let mut store = Vec::new();
    let end = line.consume_until(&mut store, |t: &Token| match t {
        TokenOf::CloseParen => ConsumeFlag::Inclusive,
        _ => ConsumeFlag::Ignore,
    });
    assert!(matches!(end, ConsumeEnd::Inclusive(TokenOf::CloseParen)));
    assert_eq!(store.len(), 1);
    assert!(matches!(store[0], ParseError::TokenError { error: LexError::InvalidSymbol, span } if span == Span::new(2, 3)));
    assert_eq!(line.token_span(), Span::new(4, 5));
    assert!(matches!(line.take_token(), Some(Ok(TokenOf::Ident(c))) if c == "c"));

    // a token left to be read again
    let mut line = line_of(vec![ident("a"), TokenOf::Comma, ident("b")]);
    let mut store = Vec::new();
    let end = line.consume_until(&mut store, |t: &Token| match t {
        TokenOf::Comma => ConsumeFlag::Exclusive,
        _ => ConsumeFlag::Ignore,
    });
    assert!(matches!(end, ConsumeEnd::Exclusive(TokenOf::Comma)));
    assert!(store.is_empty());
    assert!(matches!(line.take_token(), Some(Ok(TokenOf::Comma))));

    // nothing chosen: the whole line is read
    let mut line = line_of(vec![ident("a"), ident("b")]);
    let end = line.consume_until(&mut store, |_: &Token| ConsumeFlag::Ignore);
    assert!(matches!(end, ConsumeEnd::Nothing));
    assert!(line.take_token().is_none());
}

#[test]
fn if_condition_errors_are_reported() {
    let mut line = line_of(vec![TokenOf::If, TokenOf::CloseParen, ident("x")]);
    assert!(!starts_with_if(&line));
    let errors = match start_parsing(&mut line) {
        Err(errors) => errors,
        Ok(_) => panic!("error expected"),
    };
    assert!(!errors.is_empty());
    assert!(line.take_token().is_none());
    let line = line_of(vec![TokenOf::If, ident("x"), TokenOf::Colon]);
    assert!(starts_with_if(&line));
}
