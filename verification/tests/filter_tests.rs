use boba_script::lexer::LexerState;
use boba_script::spanned::SpannedLexer;
use boba_script::token::Token;

#[test]
fn filter_drops_comments_and_repeated_newlines() {
    let mut f = LexerState::new().lex("\n# c\na\n\n\nb # d\n").filtered();
    let mut out = Vec::new();
    while let Some(r) = f.next_token() {
        out.push(r.unwrap());
    }
    assert_eq!(
        out,
        vec![
            Token::Ident("a".to_string()),
            Token::Newline,
            Token::Ident("b".to_string()),
            Token::Newline,
        ]
    );
}

#[test]
fn spanned_lexer_appends_newline() {
    let mut s = SpannedLexer::new(LexerState::new().lex("ab"));
    assert_eq!(s.next_token(), Some(Ok((0, Token::Ident("ab".to_string()), 2))));
    assert_eq!(s.next_token(), Some(Ok((2, Token::Newline, 2))));
    assert_eq!(s.next_token(), None);
}
