//! A queue of lexed tokens with their spans, read one at a time by the line parser.
use std::collections::VecDeque;
use vstd::prelude::*;

use crate::line_lexer::{
    lemma_line_step_less, line_closes, line_opens, line_step, line_tokens, line_work, LexError, LexTokensModel, Lexer,
    LineLexerModel, TabStyle,
};
use crate::symbols::{concat, grapheme_clusters, lemma_offset_mono, offset};
use vstd::utf8::encode_utf8;
use crate::parse_token::{Span, Token, TokenModel, TokenOf};

verus! {

/// Identifies the interactive shell as a source of text.
#[derive(Debug, Clone, Copy, PartialEq, Eq, Structural)]
pub struct ShellId;

/// A span of the shell's text.
#[derive(Debug, Clone, Copy)]
pub struct ShellSource {
    pub id: ShellId,
    pub span: Span,
}

/// A token or a lexing error, with its span.
pub type Lexed = (Result<Token, LexError>, Span);

/// The value of a [`Lexed`] entry.
pub type LexedModel = (Result<TokenModel, LexError>, Span);

/// The value of one lexed entry.
pub open spec fn lexed_view(e: Lexed) -> LexedModel {
    (
        match e.0 {
            Ok(t) => Ok(t@),
            Err(x) => Err(x),
        },
        e.1,
    )
}

/// Tokens waiting to be read, the text they were lexed from, the lexer state, and the
/// span of the token read last.
pub struct ShellStream {
    tokens: VecDeque<Lexed>,
    source: String,
    lexer: Lexer,
    span: Span,
}

/// The value of a [`ShellStream`].
pub struct StreamModel {
    pub tokens: Seq<LexedModel>,
    pub source: Seq<char>,
    pub lexer: LineLexerModel,
    pub span: Span,
}

impl View for ShellStream {
    type V = StreamModel;

    closed spec fn view(&self) -> StreamModel {
        StreamModel {
            tokens: self.tokens@.map_values(|e: Lexed| lexed_view(e)),
            source: self.source@,
            lexer: self.lexer@,
            span: self.span,
        }
    }
}

/// Moves a span by `off` bytes.
pub open spec fn shift(sp: Span, off: int) -> Span {
    Span { start: (sp.start + off) as usize, end: (sp.end + off) as usize }
}

/// Lexed entries by value, their spans moved by `off` bytes.
pub open spec fn shifted(toks: Seq<(Result<TokenModel, LexError>, Span)>, off: int) -> Seq<LexedModel> {
    Seq::new(toks.len(), |i: int| (toks[i].0, shift(toks[i].1, off)))
}

/// `n` dedents, each with the empty span at `end`.
pub open spec fn dedents(n: nat, end: usize) -> Seq<LexedModel> {
    Seq::new(n, |i: int| (Ok(TokenOf::Dedent), Span { start: end, end }))
}

/// Loading a line of text: its tokens go at the end of the queue, their spans counted in
/// the whole text (after the text so far and a line break); a line with no tokens closes
/// every open block instead, with a dedent for each at the end of the last span read.
/// The text is added after a line break.
pub open spec fn load_model(s: StreamModel, text: Seq<char>) -> StreamModel {
    let m0 = LexTokensModel { lexer: s.lexer, syms: grapheme_clusters(text), pos: 0, start: 0, end: 0 };
    let (toks, m1) = line_tokens(m0);
    let off = encode_utf8(s.source).len() + 1int;
    let source = s.source + seq!['\n'] + text;
    if toks.len() > 0 {
        StreamModel { tokens: s.tokens + shifted(toks, off), source, lexer: m1.lexer, span: s.span }
    } else {
        StreamModel {
            tokens: s.tokens + dedents(m1.lexer.levels.len(), s.span.end),
            source,
            lexer: LineLexerModel { levels: Seq::empty(), level: 0, ..m1.lexer },
            span: s.span,
        }
    }
}

impl ShellStream {
    /// The lexer state is consistent.
    pub closed spec fn wf(&self) -> bool {
        self.lexer.wf()
    }

    /// No tokens, no text, a fresh lexer.
    pub fn new() -> (s: Self)
        ensures
            s.wf(),
            s@.tokens == Seq::<LexedModel>::empty(),
            s@.source == Seq::<char>::empty(),
            s@.span == (Span { start: 0, end: 0 }),
            s@.lexer == (LineLexerModel { levels: Seq::empty(), style: TabStyle::Unknown, level: 0, indent: true }),
    {
        let s = ShellStream { tokens: VecDeque::new(), source: String::new(), lexer: Lexer::new(), span: Span::new(0, 0) };
        assert(s@.tokens =~= Seq::<LexedModel>::empty());
        s
    }

    /// The text loaded so far.
    pub fn source(&self) -> (r: &str)
        ensures
            r@ == self@.source,
    {
        self.source.as_str()
    }

    /// Whether no token is waiting.
    pub fn is_empty(&self) -> (r: bool)
        ensures
            r == (self@.tokens.len() == 0),
    {
        self.tokens.len() == 0
    }

    /// A copy of the stream.
    pub fn duplicate(&self) -> (s: Self)
        ensures
            s@ == self@,
    {
        let mut tokens: VecDeque<Lexed> = VecDeque::new();
        let mut i: usize = 0;
        while i < self.tokens.len()
            invariant
                i <= self.tokens@.len(),
                tokens@.len() == i,
                forall|j: int| 0 <= j < i ==> lexed_view(#[trigger] tokens@[j]) == lexed_view(self.tokens@[j]),
            decreases self.tokens@.len() - i,
        {
            let e = &self.tokens[i];
            let result = match &e.0 {
                Ok(t) => Ok(crate::line_parser::copy_token(t)),
                Err(x) => Err(*x),
            };
            tokens.push_back((result, e.1));
            i = i + 1;
        }
        let s = ShellStream { tokens, source: self.source.clone(), lexer: self.lexer.duplicate(), span: self.span };
        assert(s@.tokens =~= self@.tokens);
        s
    }

    /// Exchanges the lexer state with `lexer`.
    pub fn swap_lexer(&mut self, lexer: &mut Lexer)
        ensures
            final(self)@ == (StreamModel { lexer: old(lexer)@, ..old(self)@ }),
            final(lexer)@ == old(self)@.lexer,
            final(self).wf() == old(lexer).wf(),
            final(lexer).wf() == old(self).wf(),
    {
        std::mem::swap(&mut self.lexer, lexer);
    }

    /// How many entries are waiting.
    pub fn len(&self) -> (n: usize)
        ensures
            n == self@.tokens.len(),
    {
        self.tokens.len()
    }

    /// Adds a token or error at the end of the queue.
    pub fn push_token(&mut self, result: Result<Token, LexError>, span: Span)
        ensures
            final(self).wf() == old(self).wf(),
            final(self)@ == (StreamModel { tokens: old(self)@.tokens.push(lexed_view((result, span))), ..old(self)@ }),
    {
        self.tokens.push_back((result, span));
        assert(self@.tokens =~= old(self)@.tokens.push(lexed_view((result, span))));
    }

    /// Reads the next token: the span becomes its span.
    pub fn next_token(&mut self) -> (r: Option<Result<Token, LexError>>)
        ensures
            final(self).wf() == old(self).wf(),
            old(self)@.tokens.len() == 0 ==> r is None && final(self)@ == old(self)@,
            old(self)@.tokens.len() > 0 ==> r is Some && lexed_view((r.unwrap(), final(self)@.span)) == old(self)@.tokens[0]
                && final(self)@ == (StreamModel {
                    tokens: old(self)@.tokens.drop_first(),
                    span: old(self)@.tokens[0].1,
                    ..old(self)@
                }),
    {
        match self.tokens.pop_front() {
            None => None,
            Some((result, span)) => {
                self.span = span;
                assert(self@.tokens =~= old(self)@.tokens.drop_first());
                Some(result)
            },
        }
    }

    /// Where the token read last starts.
    pub fn token_start(&self) -> (n: usize)
        ensures
            n == self@.span.start,
    {
        self.span.start
    }

    /// Where the token read last ends.
    pub fn token_end(&self) -> (n: usize)
        ensures
            n == self@.span.end,
    {
        self.span.end
    }

    /// The span of the token read last.
    pub fn token_span(&self) -> (s: Span)
        ensures
            s == self@.span,
    {
        self.span
    }

    /// A source in the shell's text.
    pub fn build_source(&self, span: Span) -> (s: ShellSource)
        ensures
            s.span == span,
    {
        ShellSource { id: ShellId, span }
    }

    /// Lexes a line of text into the queue (see [`load_model`]).
    pub fn load(&mut self, text: &str)
        requires
            old(self).wf(),
            encode_utf8(old(self)@.source).len() + 1 + encode_utf8(text@).len() <= usize::MAX,
        ensures
            final(self).wf(),
            final(self)@ == load_model(old(self)@, text@),
    {
        let mut lexer = Lexer::new();
        std::mem::swap(&mut lexer, &mut self.lexer);
        let mut tokens = lexer.lex(text);
        let ghost m0 = tokens@;
        let ghost all = line_tokens(m0);
        let span_offset = self.source.as_str().len() + 1;
        let ghost off = span_offset as int;
        proof {
            lemma_offset_mono(m0.syms, 0, m0.syms.len() as int);
        }
        let mut loaded = false;
        let ghost mut done: Seq<(Result<TokenModel, LexError>, Span)> = Seq::empty();
        loop
            invariant_except_break
                done + line_tokens(tokens@).0 == all.0,
                line_tokens(tokens@).1 == all.1,
            invariant
                tokens.wf(),
                old(self).wf(),
                self.source@ == old(self)@.source,
                self.span == old(self)@.span,
                span_offset == encode_utf8(old(self)@.source).len() + 1,
                span_offset + encode_utf8(text@).len() <= usize::MAX,
                tokens@.syms == m0.syms,
                offset(m0.syms, m0.syms.len() as int) == encode_utf8(text@).len(),
                all == line_tokens(m0),
                loaded == (done.len() > 0),
                self@.tokens == old(self)@.tokens + shifted(done, off),
                off == span_offset,
            ensures
                done == all.0,
                tokens@ == all.1,
            decreases line_work(tokens@), line_closes(tokens@), line_opens(tokens@),
        {
            let ghost before = tokens@;
            proof {
                lemma_line_step_less(before);
            }
            match tokens.next_token() {
                None => {
                    proof {
                        assert(done =~= all.0);
                    }
                    break;
                },
                Some(result) => {
                    let raw = tokens.token_span();
                    let mut span = raw;
                    proof {
                        lemma_offset_mono(m0.syms, tokens@.pos, m0.syms.len() as int);
                        assert(line_tokens(before).0 == seq![(crate::line_lexer::line_result_view(Some(result)).unwrap(), span)] + line_tokens(tokens@).0);
                    }
                    span.start = span.start + span_offset;
                    span.end = span.end + span_offset;
                    let ghost entry = (crate::line_lexer::line_result_view(Some(result)).unwrap(), raw);
                    let ghost before_tokens = self@.tokens;
                    self.push_token(result, span);
                    proof {
                        assert(done.push(entry) + line_tokens(tokens@).0 =~= all.0);
                        assert(shifted(done.push(entry), off) =~= shifted(done, off).push(lexed_view((result, span))));
                        done = done.push(entry);
                    }
                    loaded = true;
                },
            }
        }
        self.lexer = tokens.into_lexer();
        if !loaded {
            let n = self.lexer.close_blocks();
            let end = self.span.end;
            let ghost closed = self@;
            let mut i: usize = 0;
            while i < n
                invariant
                    i <= n,
                    self.span.end == end,
                    self@ == (StreamModel { tokens: self@.tokens, ..closed }),
                    self.lexer.wf(),
                    self@.tokens == old(self)@.tokens + dedents(i as nat, end),
                decreases n - i,
            {
                self.push_token(Ok(TokenOf::Dedent), Span::new(end, end));
                assert(dedents((i + 1) as nat, end) =~= dedents(i as nat, end).push((Ok(TokenOf::Dedent), Span { start: end, end })));
                i = i + 1;
            }
        }
        let ghost mid = self@;
        self.source.append("\n");
        self.source.append(text);
        proof {
            reveal_strlit("\n");
            assert(self@.source =~= old(self)@.source + seq!['\n'] + text@);
            assert(self@ == (StreamModel { source: old(self)@.source + seq!['\n'] + text@, ..mid }));
        }
    }

    /// Whether every span waiting (and the span read last) starts before the largest
    /// offset, as the line parser needs.
    pub fn spans_fit(&self) -> (r: bool)
        ensures
            r == (self@.span.start < usize::MAX && forall|i: int|
                0 <= i < self@.tokens.len() ==> (#[trigger] self@.tokens[i]).1.start < usize::MAX),
    {
        if self.span.start == usize::MAX {
            return false;
        }
        let mut i: usize = 0;
        while i < self.tokens.len()
            invariant
                i <= self.tokens@.len(),
                forall|j: int| 0 <= j < i ==> (#[trigger] self@.tokens[j]).1.start < usize::MAX,
            decreases self.tokens@.len() - i,
        {
            if self.tokens[i].1.start == usize::MAX {
                assert(self@.tokens[i as int].1.start == usize::MAX);
                return false;
            }
            i = i + 1;
        }
        true
    }

    /// The entry `i` places from the front of the queue, if there is one.
    pub fn entry(&self, i: usize) -> (r: Option<&Lexed>)
        ensures
            i < self@.tokens.len() ==> r is Some && lexed_view(*r.unwrap()) == self@.tokens[i as int],
            i >= self@.tokens.len() ==> r is None,
    {
        if i < self.tokens.len() {
            Some(&self.tokens[i])
        } else {
            None
        }
    }
}

} // verus!
