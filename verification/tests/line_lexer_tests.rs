use boba_script::line_lexer::{IndentType, LexError, Lexer};
use boba_script::parse_token::{Span, Token, TokenOf};
use boba_script::text_line::{TextLine, TextLines};

fn lex_line(lexer: Lexer, text: &str) -> (Vec<Result<Token, LexError>>, Lexer) {
    let mut tokens = lexer.lex(text);
    let mut out = Vec::new();
    while let Some(r) = tokens.next_token() {
        out.push(r);
        assert!(out.len() < 1000);
    }
    (out, tokens.into_lexer())
}

fn ident(s: &str) -> Result<Token, LexError> {
    Ok(TokenOf::Ident(s.to_string()))
}

#[test]
fn one_line_of_tokens() {
    let (tokens, _) = lex_line(Lexer::new(), "let x := 3.5f -> y => {z}; # comment");
    assert_eq!(
        tokens,
        vec![
            Ok(TokenOf::Let),
            ident("x"),
            Ok(TokenOf::Walrus),
            Ok(TokenOf::Float("3.5".to_string())),
            Ok(TokenOf::Arrow),
            ident("y"),
            Ok(TokenOf::FatArrow),
            Ok(TokenOf::OpenCurly),
            ident("z"),
            Ok(TokenOf::CloseCurly),
            Ok(TokenOf::SemiColon),
        ]
    );
}

#[test]
fn keywords() {
    let (tokens, _) =
        lex_line(Lexer::new(), "none true false not and or let fn if else while static const other");
    assert_eq!(
        tokens,
        vec![
            Ok(TokenOf::NoneValue),
            Ok(TokenOf::Bool(true)),
            Ok(TokenOf::Bool(false)),
            Ok(TokenOf::Not),
            Ok(TokenOf::And),
            Ok(TokenOf::Or),
            Ok(TokenOf::Let),
            Ok(TokenOf::Fn),
            Ok(TokenOf::If),
            Ok(TokenOf::Else),
            Ok(TokenOf::While),
            Ok(TokenOf::Static),
            Ok(TokenOf::Const),
            ident("other"),
        ]
    );
    assert_eq!(Token::parse_ident("while"), TokenOf::While);
    assert_eq!(Token::parse_ident("whiles"), TokenOf::Ident("whiles".to_string()));
}

#[test]
fn indentation_across_lines() {
    let (first, lexer) = lex_line(Lexer::new(), "while x:");
    assert_eq!(first, vec![Ok(TokenOf::While), ident("x"), Ok(TokenOf::Colon)]);
    let (second, lexer) = lex_line(lexer, "    y");
    assert_eq!(second, vec![Ok(TokenOf::Indent), ident("y")]);
    let (blank, lexer) = lex_line(lexer, "   ");
    assert!(blank.is_empty());
    let (third, mut lexer) = lex_line(lexer, "z");
    assert_eq!(third, vec![Ok(TokenOf::Dedent), ident("z")]);
    assert_eq!(lexer.close_blocks(), 0);
}

#[test]
fn wrong_indent_character() {
    let (first, lexer) = lex_line(Lexer::new(), "\tx");
    assert_eq!(first, vec![Ok(TokenOf::Indent), ident("x")]);
    let (second, mut lexer) = lex_line(lexer, "\t y");
    assert_eq!(
        second,
        vec![Err(LexError::InvalidIndent(IndentType::Space)), ident("y")]
    );
    assert_eq!(lexer.close_blocks(), 1);
    let (third, _) = lex_line(lexer, " \t# only a comment");
    assert!(third.is_empty());
}

#[test]
fn strings_and_numbers() {
    let (tokens, _) = lex_line(Lexer::new(), "'a b' \"c\" 12 7. 8f");
    assert_eq!(
        tokens,
        vec![
            Ok(TokenOf::Str("a b".to_string())),
            Ok(TokenOf::Str("c".to_string())),
            Ok(TokenOf::Int("12".to_string())),
            Ok(TokenOf::Float("7.".to_string())),
            Ok(TokenOf::Float("8".to_string())),
        ]
    );
    let (tokens, _) = lex_line(Lexer::new(), "'open x");
    assert_eq!(tokens, vec![Err(LexError::UnclosedString)]);
    let (tokens, _) = lex_line(Lexer::new(), "a $ b");
    assert_eq!(tokens, vec![ident("a"), Err(LexError::InvalidSymbol), ident("b")]);
    assert_eq!(LexError::default(), LexError::InvalidSymbol);
}

#[test]
fn token_spans() {
    let mut tokens = Lexer::new().lex("ab  <= c");
    assert_eq!(tokens.next_token(), Some(ident("ab")));
    assert_eq!(tokens.token_span(), Span::new(0, 2));
    assert_eq!(tokens.next_token(), Some(Ok(TokenOf::LtEq)));
    assert_eq!(tokens.token_start(), 4);
    assert_eq!(tokens.token_end(), 6);
    assert_eq!(Span::new(4, 6).range(), 4..6);
    let r: std::ops::Range<usize> = Span::new(4, 6).into();
    assert_eq!(r, 4..6);
    assert_eq!(Span::from(4..6), Span::new(4, 6));
    assert_eq!(Span::from(&4..&6), Span::new(4, 6));
}

#[test]
fn text_lines() {
    assert_eq!(TextLine::new("abc\ndef").text(), "abc");
    assert_eq!(TextLine::new("abc").text(), "abc");
    let mut lines = TextLines::new("a\nbc\n\nd");
    assert_eq!(lines.next().map(|l| l.text()), Some("a\n"));
    assert_eq!(lines.next().map(|l| l.text()), Some("bc\n"));
    assert_eq!(lines.next().map(|l| l.text()), Some("\n"));
    assert_eq!(lines.next().map(|l| l.text()), Some("d"));
    assert_eq!(lines.next(), None);
}

#[test]
fn strings_take_escapes_and_stop_at_line_breaks() {
    // a backslash takes the next symbol into the string, so an escaped quote does not close it
    let (tokens, _) = lex_line(Lexer::new(), "'a\\'b' x");
    assert_eq!(tokens, vec![Ok(TokenOf::Str("a\\'b".to_string())), ident("x")]);
    // a line break inside a string leaves it unclosed, and the rest of the line is dropped
    let (tokens, _) = lex_line(Lexer::new(), "'ab\ncd'");
    assert_eq!(tokens, vec![Err(LexError::UnclosedString)]);
    // a backslash at the end leaves the string unclosed
    let (tokens, _) = lex_line(Lexer::new(), "'ab\\");
    assert_eq!(tokens, vec![Err(LexError::UnclosedString)]);
}
