use boba_script::line_parser::LineParser;
use boba_script::parse_token::{Span, TokenOf};
use boba_script::shell_stream::ShellStream;
use boba_script::stmt_parser::{start_parsing, StatementType};

#[test]
fn load_offsets_spans_into_the_whole_text() {
    let mut s = ShellStream::new();
    assert!(s.is_empty());
    s.load("x = 1");
    assert_eq!(s.source(), "\nx = 1");
    assert!(matches!(s.next_token(), Some(Ok(TokenOf::Ident(x))) if x == "x"));
    assert_eq!(s.token_span(), Span::new(1, 2));
    assert!(matches!(s.next_token(), Some(Ok(TokenOf::Assign))));
    assert_eq!(s.token_span(), Span::new(3, 4));
    assert!(matches!(s.next_token(), Some(Ok(TokenOf::Int(v))) if v == "1"));
    assert_eq!((s.token_start(), s.token_end()), (5, 6));
    assert!(s.next_token().is_none());
    s.load("y");
    assert_eq!(s.source(), "\nx = 1\ny");
    assert!(matches!(s.next_token(), Some(Ok(TokenOf::Ident(y))) if y == "y"));
    assert_eq!(s.token_span(), Span::new(7, 8));
}

#[test]
fn blank_line_closes_open_blocks() {
    let mut s = ShellStream::new();
    s.load("while x:");
    while s.next_token().is_some() {}
    s.load("    y");
    assert!(matches!(s.next_token(), Some(Ok(TokenOf::Indent))));
    while s.next_token().is_some() {}
    let end = s.token_end();
    s.load("");
    assert!(!s.is_empty());
    assert!(matches!(s.next_token(), Some(Ok(TokenOf::Dedent))));
    assert_eq!(s.token_span(), Span::new(end, end));
    assert!(s.next_token().is_none());
    // with no open blocks an empty line adds nothing
    s.load("");
    assert!(s.is_empty());
    assert!(s.spans_fit());
}

#[test]
fn loaded_line_parses() {
    let mut s = ShellStream::new();
    s.load("let a = 3 ** 2");
    assert!(s.spans_fit());
    let mut line = LineParser::new(s).line();
    match start_parsing(&mut line) {
        Ok(StatementType::SingleLine(node)) => assert_eq!(node.span, Span::new(1, 15)),
        _ => panic!("a statement expected"),
    }
}
