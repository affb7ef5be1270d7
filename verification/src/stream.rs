//! What the parser needs of a source of tokens, and of the spans it hands out.
use vstd::prelude::*;

use crate::line_lexer::LexError;
use crate::parse_token::{Span, Token};
use crate::shell_stream::{lexed_view, ShellId, ShellSource, ShellStream, StreamModel};

verus! {

/// A place in a source text that covers a byte span.
pub trait SourceSpan: Sized {
    /// The byte span covered.
    spec fn covered(&self) -> Span;

    /// Where the span starts.
    fn start(&self) -> (r: usize)
        ensures
            r == self.covered().start,
    ;

    /// Where the span ends.
    fn end(&self) -> (r: usize)
        ensures
            r == self.covered().end,
    ;

    /// A place in the same source covering `span`.
    fn build(&self, span: Span) -> (r: Self)
        ensures
            r.covered() == span,
    ;
}

/// Spans derived from a [`SourceSpan`].
pub trait SourceExt: SourceSpan {
    /// The whole span.
    fn span(&self) -> (r: Span)
        ensures
            r == self.covered(),
    {
        Span::new(self.start(), self.end())
    }

    /// The empty span at the start.
    fn start_span(&self) -> (r: Span)
        ensures
            r == (Span { start: self.covered().start, end: self.covered().start }),
    {
        let s = self.start();
        Span::new(s, s)
    }

    /// The empty span at the end.
    fn end_span(&self) -> (r: Span)
        ensures
            r == (Span { start: self.covered().end, end: self.covered().end }),
    {
        let e = self.end();
        Span::new(e, e)
    }

    /// The place of the empty span at the start.
    fn start_source(&self) -> (r: Self)
        ensures
            r.covered() == (Span { start: self.covered().start, end: self.covered().start }),
    {
        self.build(self.start_span())
    }

    /// The place of the empty span at the end.
    fn end_source(&self) -> (r: Self)
        ensures
            r.covered() == (Span { start: self.covered().end, end: self.covered().end }),
    {
        self.build(self.end_span())
    }
}

impl SourceSpan for ShellSource {
    open spec fn covered(&self) -> Span {
        self.span
    }

    fn start(&self) -> usize {
        self.span.start
    }

    fn end(&self) -> usize {
        self.span.end
    }

    fn build(&self, span: Span) -> Self {
        ShellSource { id: ShellId, span }
    }
}

impl SourceExt for ShellSource {}

/// A source of tokens that knows the span of the token it gave last.
pub trait TokenStream {
    /// The error a token can be instead.
    type Error;

    /// The places the stream's spans are in.
    type Source: SourceSpan;

    /// The span of the token given last.
    spec fn last_span(&self) -> Span;

    /// The next token, or `None` at the end.
    fn next_token(&mut self) -> Option<Result<Token, Self::Error>>;

    /// Where the token given last starts.
    fn token_start(&self) -> (r: usize)
        ensures
            r == self.last_span().start,
    ;

    /// Where the token given last ends.
    fn token_end(&self) -> (r: usize)
        ensures
            r == self.last_span().end,
    ;

    /// The place of `span`.
    fn build_source(&self, span: Span) -> (r: Self::Source)
        ensures
            r.covered() == span,
    ;
}

/// Spans and places of the token a [`TokenStream`] gave last.
pub trait StreamExt: TokenStream {
    /// Its span.
    fn token_span(&self) -> (r: Span)
        ensures
            r == self.last_span(),
    {
        Span::new(self.token_start(), self.token_end())
    }

    /// The empty span at its start.
    fn token_start_span(&self) -> (r: Span)
        ensures
            r == (Span { start: self.last_span().start, end: self.last_span().start }),
    {
        let s = self.token_start();
        Span::new(s, s)
    }

    /// The empty span at its end.
    fn token_end_span(&self) -> (r: Span)
        ensures
            r == (Span { start: self.last_span().end, end: self.last_span().end }),
    {
        let e = self.token_end();
        Span::new(e, e)
    }

    /// Its place.
    fn token_source(&self) -> (r: Self::Source)
        ensures
            r.covered() == self.last_span(),
    {
        self.build_source(self.token_span())
    }

    /// The place of the empty span at its start.
    fn token_start_source(&self) -> (r: Self::Source)
        ensures
            r.covered() == (Span { start: self.last_span().start, end: self.last_span().start }),
    {
        self.build_source(self.token_start_span())
    }

    /// The place of the empty span at its end.
    fn token_end_source(&self) -> (r: Self::Source)
        ensures
            r.covered() == (Span { start: self.last_span().end, end: self.last_span().end }),
    {
        self.build_source(self.token_end_span())
    }
}

impl TokenStream for ShellStream {
    type Error = LexError;

    type Source = ShellSource;

    open spec fn last_span(&self) -> Span {
        self@.span
    }

    fn next_token(&mut self) -> (r: Option<Result<Token, LexError>>)
        ensures
            final(self).wf() == old(self).wf(),
            old(self)@.tokens.len() == 0 ==> r is None && final(self)@ == old(self)@,
            old(self)@.tokens.len() > 0 ==> r is Some && lexed_view((r.unwrap(), final(self)@.span)) == old(self)@.tokens[0]
                && final(self)@ == (StreamModel {
                    tokens: old(self)@.tokens.drop_first(),
                    span: old(self)@.tokens[0].1,
                    ..old(self)@
                }),
    {
        ShellStream::next_token(self)
    }

    fn token_start(&self) -> usize {
        ShellStream::token_start(self)
    }

    fn token_end(&self) -> usize {
        ShellStream::token_end(self)
    }

    fn build_source(&self, span: Span) -> ShellSource {
        ShellStream::build_source(self, span)
    }
}

impl StreamExt for ShellStream {}

} // verus!
