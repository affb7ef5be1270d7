use boba_script::lexer::{IndentStyle, LexerError, LexerState};
use boba_script::span::Span;
use boba_script::token::Token;

fn lex_all(text: &str) -> Vec<Result<Token, LexerError>> {
    let mut lexer = LexerState::new().lex(text);
    let mut out = Vec::new();
    while let Some(r) = lexer.next_token() {
        out.push(r);
        assert!(out.len() < 1000);
    }
    out
}

fn ident(s: &str) -> Result<Token, LexerError> {
    Ok(Token::Ident(s.to_string()))
}

#[test]
fn simple_assignment() {
    assert_eq!(
        lex_all("x = 5\n"),
        vec![ident("x"), Ok(Token::Assign), Ok(Token::Int("5".to_string())), Ok(Token::Newline)]
    );
}

#[test]
fn indentation_opens_and_closes_blocks() {
    let tokens = lex_all("while a:\n  b\nc");
    assert_eq!(
        tokens,
        vec![
            Ok(Token::While),
            ident("a"),
            Ok(Token::Colon),
            Ok(Token::Newline),
            Ok(Token::Indent),
            ident("b"),
            Ok(Token::Newline),
            Ok(Token::Dedent),
            ident("c"),
        ]
    );
}

#[test]
fn mixed_indentation_is_an_error() {
    let tokens = lex_all(" \tx");
    assert_eq!(tokens[0], Err(LexerError::MixedIndent));
    let mut lexer = LexerState::with_style(IndentStyle::Tabs).lex("  x");
    assert_eq!(lexer.next_token(), Some(Err(LexerError::MixedIndent)));
}

#[test]
fn keywords_and_values() {
    assert_eq!(
        lex_all("none true false if while fn _a1"),
        vec![
            Ok(Token::NoneValue),
            Ok(Token::Bool(true)),
            Ok(Token::Bool(false)),
            Ok(Token::If),
            Ok(Token::While),
            Ok(Token::Fn),
            ident("_a1"),
        ]
    );
}

#[test]
fn numbers() {
    assert_eq!(
        lex_all("12 3.25 4f 5.f 6."),
        vec![
            Ok(Token::Int("12".to_string())),
            Ok(Token::Float("3.25".to_string())),
            Ok(Token::Float("4".to_string())),
            Ok(Token::Float("5.".to_string())),
            Ok(Token::Float("6.".to_string())),
        ]
    );
}

#[test]
fn operators() {
    assert_eq!(
        lex_all("** * == = != ! <= < >= > && || :: : + - / % . , ? ( ) [ ]"),
        vec![
            Ok(Token::Pow),
            Ok(Token::Mul),
            Ok(Token::Eq),
            Ok(Token::Assign),
            Ok(Token::NEq),
            Ok(Token::Not),
            Ok(Token::LtEq),
            Ok(Token::Lt),
            Ok(Token::GtEq),
            Ok(Token::Gt),
            Ok(Token::And),
            Ok(Token::Or),
            Ok(Token::DoubleColon),
            Ok(Token::Colon),
            Ok(Token::Add),
            Ok(Token::Sub),
            Ok(Token::Div),
            Ok(Token::Mod),
            Ok(Token::Dot),
            Ok(Token::Comma),
            Ok(Token::Question),
            Ok(Token::OpenParen),
            Ok(Token::CloseParen),
            Ok(Token::OpenSquare),
            Ok(Token::CloseSquare),
        ]
    );
    assert_eq!(lex_all("&"), vec![Err(LexerError::InvalidSymbol)]);
    assert_eq!(lex_all("|x"), vec![Err(LexerError::InvalidSymbol), ident("x")]);
    assert_eq!(lex_all("$"), vec![Err(LexerError::InvalidSymbol)]);
}

#[test]
fn strings() {
    assert_eq!(lex_all("'hi there'"), vec![Ok(Token::Str("hi there".to_string()))]);
    assert_eq!(lex_all("\"a'b\""), vec![Ok(Token::Str("a'b".to_string()))]);
    assert_eq!(lex_all("'open"), vec![Err(LexerError::UnclosedString)]);
    assert_eq!(
        lex_all("'open\nx"),
        vec![Err(LexerError::UnclosedString), Ok(Token::Newline), ident("x")]
    );
}

#[test]
fn comments_and_spans() {
    let mut lexer = LexerState::new().lex("# hi\nab # c");
    assert_eq!(lexer.next_token(), Some(Ok(Token::Comment("# hi".to_string()))));
    assert_eq!(lexer.token_span(), Span::new(0, 4));
    assert_eq!(lexer.next_token(), Some(Ok(Token::Newline)));
    assert_eq!(lexer.token_span(), Span::new(4, 5));
    assert_eq!(lexer.next_token(), Some(Ok(Token::Ident("ab".to_string()))));
    assert_eq!(lexer.token_start(), 5);
    assert_eq!(lexer.token_end(), 7);
    assert_eq!(lexer.next_token(), Some(Ok(Token::Comment("# c".to_string()))));
    assert_eq!(lexer.token_start_span(), Span::new(8, 8));
    assert_eq!(lexer.token_end_span(), Span::new(11, 11));
    assert_eq!(lexer.next_token(), None);
    assert_eq!(lexer.next_token(), None);
}

#[test]
fn multibyte_spans() {
    let mut lexer = LexerState::new().lex("'é' x");
    assert_eq!(lexer.next_token(), Some(Ok(Token::Str("é".to_string()))));
    assert_eq!(lexer.token_span(), Span::new(0, 4));
    assert_eq!(lexer.next_token(), Some(Ok(Token::Ident("x".to_string()))));
    assert_eq!(lexer.token_span(), Span::new(5, 6));
}

#[test]
fn crlf_is_one_line_break() {
    assert_eq!(lex_all("a\r\nb"), vec![ident("a"), Ok(Token::Newline), ident("b")]);
}

#[test]
fn state_carries_across_texts() {
    let mut lexer = LexerState::new().lex("  a");
    assert_eq!(lexer.next_token(), Some(Ok(Token::Indent)));
    assert_eq!(lexer.next_token(), Some(Ok(Token::Ident("a".to_string()))));
    assert_eq!(lexer.next_token(), None);
    let mut state = lexer.into_state();
    assert_eq!(state.indent_depth(), 1);
    assert_eq!(state.indent_style(), Some(IndentStyle::Spaces));
    state.close_blocks();
    let mut lexer = state.lex("");
    assert_eq!(lexer.next_token(), Some(Ok(Token::Dedent)));
    assert_eq!(lexer.next_token(), None);
    assert_eq!(lexer.into_state().indent_depth(), 0);
}

#[test]
fn span_ranges() {
    let s = Span::new(2, 5);
    assert_eq!(s.range(), 2..5);
    assert_eq!(s.range_ref(), &2..&5);
    let r: std::ops::Range<usize> = s.into();
    assert_eq!(r, 2..5);
    assert_eq!(Span::from(2..5), s);
    assert_eq!(Span::from(&2..&5), s);
}

#[test]
fn closing_blocks_gives_one_dedent_per_level() {
    let mut lexer = LexerState::new().lex("a\n  b\n    c");
    let mut indents = 0;
    while let Some(r) = lexer.next_token() {
        if r == Ok(Token::Indent) {
            indents += 1;
        }
    }
    let mut state = lexer.into_state();
    assert_eq!(indents, 2);
    assert_eq!(state.indent_depth(), 2);
    assert_eq!(state.indent_style(), Some(IndentStyle::Spaces));
    state.close_blocks();
    let mut lexer = state.lex("");
    assert_eq!(lexer.next_token(), Some(Ok(Token::Dedent)));
    assert_eq!(lexer.next_token(), Some(Ok(Token::Dedent)));
    assert_eq!(lexer.next_token(), None);
    let state = lexer.into_state();
    assert_eq!(state.indent_depth(), 0);
    assert_eq!(state.indent_style(), Some(IndentStyle::Spaces));
}

#[test]
fn names_are_the_text_their_spans_cover() {
    let source = "abc  # note\n  dé";
    let mut lexer = LexerState::new().lex(source);
    while let Some(r) = lexer.next_token() {
        assert!(lexer.token_start() <= lexer.token_end() && lexer.token_end() <= source.len());
        match r {
            Ok(Token::Ident(s)) | Ok(Token::Comment(s)) => assert_eq!(s, &source[lexer.token_span().range()]),
            _ => {},
        }
    }
}

#[test]
fn filter_drops_comments_and_repeated_line_breaks() {
    let mut f = LexerState::new().lex("\n# c\na\n\n# d\nb").filtered();
    let mut out = Vec::new();
    while let Some(r) = f.next_token() {
        out.push(r);
    }
    assert_eq!(out, vec![Ok(Token::Ident("a".to_string())), Ok(Token::Newline), Ok(Token::Ident("b".to_string()))]);
}
