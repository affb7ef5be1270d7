//! A lexer filter that drops comments and collapses runs of line breaks.
use vstd::prelude::*;

use crate::lexer::{
    lemma_outputs_add, lemma_run_depth, lemma_step_progress, lemma_step_wf, model_wf, outputs, result_view, run, step, Lexer,
    LexerError, LexerModel,
};
use crate::span::Span;
use crate::token::{Token, TokenModel};

verus! {

/// Wraps a [`Lexer`], skipping comments and any line break that directly follows
/// another one (or the start of the text).
pub struct LexFilter {
    lexer: Lexer,
    newline: bool,
}

/// The value of a [`LexFilter`]: the wrapped lexer and whether the last token handed out
/// was a line break (true at the start).
pub struct LexFilterModel {
    pub lexer: LexerModel,
    pub newline: bool,
}

impl View for LexFilter {
    type V = LexFilterModel;

    closed spec fn view(&self) -> LexFilterModel {
        LexFilterModel { lexer: self.lexer@, newline: self.newline }
    }
}

/// The measure that bounds how many more symbols a lexer can read.
pub open spec fn remaining(m: LexerModel) -> nat {
    if m.pos <= m.syms.len() {
        (m.syms.len() - m.pos) as nat
    } else {
        0
    }
}

/// One call of [`LexFilter::next_token`]: lexer calls repeat while they give comments,
/// or line breaks right after a line break.
pub open spec fn filter_step(m: LexerModel, newline: bool) -> (LexerModel, bool, Option<
    Result<TokenModel, LexerError>,
>)
    decreases remaining(m),
{
    if !model_wf(m) {
        (m, newline, None)
    } else {
        let (m2, r) = step(m);
        proof {
            lemma_step_progress(m);
            lemma_step_wf(m);
        }
        match r {
            None => (m2, newline, None),
            Some(Ok(TokenModel::Comment(_))) => filter_step(m2, newline),
            Some(Ok(TokenModel::Newline)) => if newline {
                filter_step(m2, newline)
            } else {
                (m2, true, Some(Ok(TokenModel::Newline)))
            },
            r => (m2, false, r),
        }
    }
}

/// One unfolding of [`filter_step`].
proof fn lemma_filter_unfold(m: LexerModel, newline: bool)
    requires
        model_wf(m),
    ensures
        ({
            let (m2, r) = step(m);
            let f = filter_step(m, newline);
            match r {
                None => f.0 == m2 && f.1 == newline && f.2 is None,
                Some(Ok(TokenModel::Comment(_))) => f == filter_step(m2, newline),
                Some(Ok(TokenModel::Newline)) => if newline {
                    f == filter_step(m2, newline)
                } else {
                    f.0 == m2 && f.1 && f.2 == r
                },
                _ => f.0 == m2 && !f.1 && f.2 == r,
            }
        }),
{
}

/// The filter never hands out a comment; it hands out a line break only when the
/// token before it was not one, and remembers whether the token it hands out is one.
pub proof fn lemma_filter_output(m: LexerModel, newline: bool)
    requires
        model_wf(m),
    ensures
        !(filter_step(m, newline).2 matches Some(Ok(TokenModel::Comment(_)))),
        filter_step(m, newline).2 == Some(Ok::<TokenModel, LexerError>(TokenModel::Newline))
            ==> !newline && filter_step(m, newline).1,
        (filter_step(m, newline).2 matches Some(r) && r != Ok::<TokenModel, LexerError>(
            TokenModel::Newline,
        )) ==> !filter_step(m, newline).1,
        filter_step(m, newline).2 is None ==> filter_step(m, newline).1 == newline,
    decreases remaining(m),
{
    lemma_step_progress(m);
    lemma_step_wf(m);
    lemma_filter_unfold(m, newline);
    let (m2, r) = step(m);
    match r {
        Some(Ok(TokenModel::Comment(_))) => lemma_filter_output(m2, newline),
        Some(Ok(TokenModel::Newline)) => if newline {
            lemma_filter_output(m2, newline);
        },
        _ => {},
    }
}

/// What the filter keeps of raw lexer results, starting with `newline`: comments and
/// ends (`None`) are dropped, and a line break is kept only when the result kept before it
/// was not one (and something was kept); with whether the last result kept is a line
/// break.
pub open spec fn select(rs: Seq<Option<Result<TokenModel, LexerError>>>, newline: bool) -> (
    Seq<Result<TokenModel, LexerError>>,
    bool,
)
    decreases rs.len(),
{
    if rs.len() == 0 {
        (Seq::empty(), newline)
    } else {
        let rest = rs.subrange(1, rs.len() as int);
        match rs[0] {
            None => select(rest, newline),
            Some(Ok(TokenModel::Comment(_))) => select(rest, newline),
            Some(Ok(TokenModel::Newline)) => if newline {
                select(rest, newline)
            } else {
                (seq![Ok(TokenModel::Newline)] + select(rest, true).0, select(rest, true).1)
            },
            Some(r) => (seq![r] + select(rest, false).0, select(rest, false).1),
        }
    }
}

/// Selecting from two runs of results one after the other.
proof fn lemma_select_append(a: Seq<Option<Result<TokenModel, LexerError>>>, b: Seq<Option<Result<TokenModel, LexerError>>>, newline: bool)
    ensures
        select(a + b, newline) == (
            select(a, newline).0 + select(b, select(a, newline).1).0,
            select(b, select(a, newline).1).1,
        ),
    decreases a.len(),
{
    if a.len() == 0 {
        assert(a + b =~= b);
        assert(Seq::<Result<TokenModel, LexerError>>::empty() + select(b, newline).0 =~= select(b, newline).0);
    } else {
        let rest = a.subrange(1, a.len() as int);
        assert((a + b)[0] == a[0]);
        assert((a + b).subrange(1, (a + b).len() as int) =~= rest + b);
        lemma_select_append(rest, b, newline);
        lemma_select_append(rest, b, true);
        lemma_select_append(rest, b, false);
        match a[0] {
            Some(Ok(TokenModel::Newline)) => if !newline {
                assert(seq![Ok::<TokenModel, LexerError>(TokenModel::Newline)] + (select(rest, true).0 + select(
                    b,
                    select(rest, true).1,
                ).0) =~= seq![Ok::<TokenModel, LexerError>(TokenModel::Newline)] + select(rest, true).0 + select(
                    b,
                    select(rest, true).1,
                ).0);
            },
            Some(Ok(TokenModel::Comment(_))) => {},
            Some(r) => {
                assert(seq![r] + (select(rest, false).0 + select(b, select(rest, false).1).0) =~= seq![r] + select(
                    rest,
                    false,
                ).0 + select(b, select(rest, false).1).0);
            },
            None => {},
        }
    }
}

/// What a filter result adds to the results handed out.
pub open spec fn given(r: Option<Result<TokenModel, LexerError>>) -> Seq<Result<TokenModel, LexerError>> {
    match r {
        Some(x) => seq![x],
        None => Seq::empty(),
    }
}

/// One call of the filter is some lexer calls (at least one), and hands out what
/// [`select`] keeps of their results.
pub proof fn lemma_filter_step_select(m: LexerModel, newline: bool) -> (k: nat)
    requires
        model_wf(m),
    ensures
        k >= 1,
        run(m, k) == filter_step(m, newline).0,
        select(outputs(m, k), newline) == (given(filter_step(m, newline).2), filter_step(m, newline).1),
    decreases remaining(m),
{
    lemma_step_progress(m);
    lemma_step_wf(m);
    lemma_filter_unfold(m, newline);
    let (m2, r) = step(m);
    assert(run(m2, 0) == m2);
    assert(run(m, 1) == m2);
    assert(outputs(m, 1) == seq![r] + outputs(m2, 0));
    assert(outputs(m, 1).subrange(1, 1) =~= Seq::<Option<Result<TokenModel, LexerError>>>::empty());
    let again = match r {
        Some(Ok(TokenModel::Comment(_))) => true,
        Some(Ok(TokenModel::Newline)) => newline,
        _ => false,
    };
    if again {
        let k2 = lemma_filter_step_select(m2, newline);
        lemma_outputs_add(m, 1, k2);
        let rs = outputs(m, 1 + k2);
        assert(rs == seq![r] + outputs(m2, k2));
        assert(rs[0] == r);
        assert(rs.subrange(1, rs.len() as int) =~= outputs(m2, k2));
        assert(select(rs, newline) == select(outputs(m2, k2), newline));
        assert(run(m, 1 + k2) == run(m2, k2));
        1 + k2
    } else {
        let rs = outputs(m, 1);
        let e = Seq::<Option<Result<TokenModel, LexerError>>>::empty();
        assert(outputs(m2, 0) == e);
        assert(rs =~= seq![r]);
        assert(rs[0] == r);
        assert(rs.subrange(1, rs.len() as int) =~= e);
        assert(select(e, true) == (Seq::<Result<TokenModel, LexerError>>::empty(), true));
        assert(select(e, false) == (Seq::<Result<TokenModel, LexerError>>::empty(), false));
        assert(select(e, newline) == (Seq::<Result<TokenModel, LexerError>>::empty(), newline));
        assert(Seq::<Result<TokenModel, LexerError>>::empty() + Seq::empty() =~= Seq::<Result<TokenModel, LexerError>>::empty());
        assert(seq![Ok::<TokenModel, LexerError>(TokenModel::Newline)] + Seq::empty() =~= seq![Ok::<TokenModel, LexerError>(TokenModel::Newline)]);
        match r {
            Some(x) => {
                assert(seq![x] + Seq::empty() =~= seq![x]);
            },
            None => {},
        }
        1
    }
}

/// `n` calls of the filter: the lexer and the flag after them, and what they handed out.
pub open spec fn filter_run(m: LexerModel, newline: bool, n: nat) -> (LexerModel, bool, Seq<Result<TokenModel, LexerError>>)
    decreases n,
{
    if n == 0 {
        (m, newline, Seq::empty())
    } else {
        let (m1, n1, r) = filter_step(m, newline);
        let (m2, n2, rs) = filter_run(m1, n1, (n - 1) as nat);
        (m2, n2, given(r) + rs)
    }
}

/// Over any number of calls, the filter hands out exactly what [`select`] keeps of the
/// results of the lexer calls it made: the lexer's results in order, without comments,
/// and with a line break only after a result that is not one (never first).
pub proof fn lemma_filter_run_select(m: LexerModel, newline: bool, n: nat) -> (k: nat)
    requires
        model_wf(m),
    ensures
        run(m, k) == filter_run(m, newline, n).0,
        select(outputs(m, k), newline) == (filter_run(m, newline, n).2, filter_run(m, newline, n).1),
    decreases n,
{
    if n == 0 {
        assert(outputs(m, 0) == Seq::<Option<Result<TokenModel, LexerError>>>::empty());
        0
    } else {
        let k1 = lemma_filter_step_select(m, newline);
        let (m1, n1, r) = filter_step(m, newline);
        lemma_run_depth(m, k1);
        let k2 = lemma_filter_run_select(m1, n1, (n - 1) as nat);
        lemma_outputs_add(m, k1, k2);
        lemma_select_append(outputs(m, k1), outputs(m1, k2), newline);
        k1 + k2
    }
}

impl LexFilter {
    pub open spec fn wf(&self) -> bool {
        model_wf(self@.lexer)
    }

    /// Filters `lexer`; a line break at the very start is dropped.
    pub fn new(lexer: Lexer) -> (f: Self)
        requires
            lexer.wf(),
        ensures
            f.wf(),
            f@.lexer == lexer@,
            f@.newline,
    {
        LexFilter { lexer, newline: true }
    }

    /// Byte offset where the last token starts.
    pub fn token_start(&self) -> (n: usize)
        ensures
            n == self@.lexer.start,
    {
        self.lexer.token_start()
    }

    /// Byte offset where the last token ends.
    pub fn token_end(&self) -> (n: usize)
        ensures
            n == self@.lexer.end,
    {
        self.lexer.token_end()
    }

    /// Byte span of the last token.
    pub fn token_span(&self) -> (s: Span)
        ensures
            s.start == self@.lexer.start,
            s.end == self@.lexer.end,
    {
        self.lexer.token_span()
    }

    /// Empty span at the start of the last token.
    pub fn token_start_span(&self) -> (s: Span)
        ensures
            s.start == self@.lexer.start,
            s.end == self@.lexer.start,
    {
        self.lexer.token_start_span()
    }

    /// Empty span at the end of the last token.
    pub fn token_end_span(&self) -> (s: Span)
        ensures
            s.start == self@.lexer.end,
            s.end == self@.lexer.end,
    {
        self.lexer.token_end_span()
    }

    /// The next token that is neither a comment nor a repeated line break.
    pub fn next_token(&mut self) -> (r: Option<Result<Token, LexerError>>)
        requires
            old(self).wf(),
        ensures
            final(self).wf(),
            final(self)@.lexer == filter_step(old(self)@.lexer, old(self)@.newline).0,
            final(self)@.newline == filter_step(old(self)@.lexer, old(self)@.newline).1,
            result_view(r) == filter_step(old(self)@.lexer, old(self)@.newline).2,
            exists|k: nat|
                #![trigger run(old(self)@.lexer, k)]
                k >= 1 && run(old(self)@.lexer, k) == final(self)@.lexer && select(outputs(old(self)@.lexer, k), old(self)@.newline)
                    == (given(result_view(r)), final(self)@.newline),
    {
        let ghost k0 = lemma_filter_step_select(self@.lexer, self@.newline);
        loop
            invariant
                self.wf(),
                filter_step(self@.lexer, self@.newline).0 == filter_step(old(self)@.lexer, old(self)@.newline).0,
                filter_step(self@.lexer, self@.newline).1 == filter_step(old(self)@.lexer, old(self)@.newline).1,
                filter_step(self@.lexer, self@.newline).2 == filter_step(old(self)@.lexer, old(self)@.newline).2,
                k0 >= 1,
                run(old(self)@.lexer, k0) == filter_step(old(self)@.lexer, old(self)@.newline).0,
                select(outputs(old(self)@.lexer, k0), old(self)@.newline) == (
                    given(filter_step(old(self)@.lexer, old(self)@.newline).2),
                    filter_step(old(self)@.lexer, old(self)@.newline).1,
                ),
            decreases remaining(self@.lexer),
        {
            let ghost before = self@.lexer;
            proof {
                lemma_step_progress(before);
                lemma_step_wf(before);
                lemma_filter_unfold(before, self@.newline);
            }
            let r = self.lexer.next_token();
            match r {
                None => {
                    return None;
                },
                Some(Ok(Token::Comment(_))) => {},
                Some(Ok(Token::Newline)) => {
                    if !self.newline {
                            self.newline = true;
                        return Some(Ok(Token::Newline));
                    }
                },
                other => {
                    self.newline = false;
                    return other;
                },
            }
        }
    }
}

impl Lexer {
    /// Wraps this lexer in a [`LexFilter`].
    pub fn filtered(self) -> (f: LexFilter)
        requires
            self.wf(),
        ensures
            f.wf(),
            f@.lexer == self@,
            f@.newline,
    {
        LexFilter::new(self)
    }
}

} // verus!
