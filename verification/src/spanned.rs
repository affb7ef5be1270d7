//! Tokens paired with their byte spans, with a closing line break at the end.
use vstd::prelude::*;

use crate::filter::{filter_step, LexFilter};
use crate::lexer::{Lexer, LexerError, LexerModel};
use crate::token::{Token, TokenModel};

verus! {

/// A filtered lexer whose tokens come with their start and end byte offsets, and which
/// ends the text with one extra `Newline` (an empty span at the end).
pub struct SpannedLexer {
    lexer: LexFilter,
    end: bool,
}

/// The value of a [`SpannedLexer`].
pub struct SpannedLexerModel {
    pub lexer: LexerModel,
    pub newline: bool,
    pub end: bool,
}

impl View for SpannedLexer {
    type V = SpannedLexerModel;

    closed spec fn view(&self) -> SpannedLexerModel {
        SpannedLexerModel { lexer: self.lexer@.lexer, newline: self.lexer@.newline, end: self.end }
    }
}

/// The value of a spanned result.
pub open spec fn spanned_view(r: Option<Result<(usize, Token, usize), LexerError>>) -> Option<
    Result<(int, TokenModel, int), LexerError>,
> {
    match r {
        Some(Ok((a, t, b))) => Some(Ok((a as int, t@, b as int))),
        Some(Err(e)) => Some(Err(e)),
        None => None,
    }
}

/// One call of [`SpannedLexer::next_token`]: the filtered token with the span of the
/// lexer afterwards; once the filter is exhausted, one `Newline` and then nothing.
pub open spec fn spanned_step(m: SpannedLexerModel) -> (SpannedLexerModel, Option<
    Result<(int, TokenModel, int), LexerError>,
>) {
    let (l, nl, r) = filter_step(m.lexer, m.newline);
    let m2 = SpannedLexerModel { lexer: l, newline: nl, ..m };
    match r {
        Some(Err(e)) => (m2, Some(Err(e))),
        Some(Ok(t)) => (m2, Some(Ok((l.start, t, l.end)))),
        None => if m.end {
            (m2, None)
        } else {
            (SpannedLexerModel { end: true, ..m2 }, Some(Ok((l.start, TokenModel::Newline, l.end))))
        },
    }
}

impl SpannedLexer {
    pub open spec fn wf(&self) -> bool {
        crate::lexer::model_wf(self@.lexer)
    }

    /// Spans the filtered tokens of `lexer`.
    pub fn new(lexer: Lexer) -> (s: Self)
        requires
            lexer.wf(),
        ensures
            s.wf(),
            s@.lexer == lexer@,
            s@.newline,
            !s@.end,
    {
        SpannedLexer { lexer: lexer.filtered(), end: false }
    }

    /// The next token with its span.
    pub fn next_token(&mut self) -> (r: Option<Result<(usize, Token, usize), LexerError>>)
        requires
            old(self).wf(),
        ensures
            final(self).wf(),
            final(self)@ == spanned_step(old(self)@).0,
            spanned_view(r) == spanned_step(old(self)@).1,
    {
        match self.lexer.next_token() {
            Some(result) => match result {
                Err(error) => Some(Err(error)),
                Ok(token) => {
                    let span = self.lexer.token_span();
                    Some(Ok((span.start, token, span.end)))
                },
            },
            None => {
                if self.end {
                    None
                } else {
                    self.end = true;
                    let span = self.lexer.token_span();
                    Some(Ok((span.start, Token::Newline, span.end)))
                }
            },
        }
    }
}

} // verus!
