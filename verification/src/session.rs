//! An interactive session: text comes in a line at a time; each line is lexed onto the
//! token queue and parsed, and a statement that spans lines stays open between them.
use vstd::prelude::*;

use crate::line_lexer::{Lexer, LineLexerModel, TabStyle};
use crate::line_parser::{
    end_span, errors_view, lemma_line_peek_measure, lemma_line_take_measure, line_peek, line_take, measure,
    parser_consume_model, spans_ok, LineModel, LineParser, ParseError, ParseErrorModel, TokenLine,
};
use crate::parse_token::{Token, TokenModel, TokenOf};
use crate::shell_stream::{load_model, ShellStream, StreamModel};
use crate::stmt_parser::{
    start_hits_if, start_model, start_parsing, starts_with_if, statement_hits_if, statement_line_model, StatementParser,
    StatementParserModel, StatementType, StatementTypeModel,
};
use crate::syntax::{StatementNode, StatementNodeModel};
use vstd::utf8::encode_utf8;

verus! {

/// What a line gave: a finished statement, errors, or a statement starting with `if`,
/// which the parser does not handle yet.
pub enum Outcome {
    Statement(StatementNode),
    Errors(Vec<ParseError>),
    Unsupported,
}

/// The value of an [`Outcome`].
pub enum OutcomeModel {
    Statement(StatementNodeModel),
    Errors(Seq<ParseErrorModel>),
    Unsupported,
}

impl View for Outcome {
    type V = OutcomeModel;

    open spec fn view(&self) -> OutcomeModel {
        match self {
            Outcome::Statement(s) => OutcomeModel::Statement(s@),
            Outcome::Errors(es) => OutcomeModel::Errors(errors_view(es@)),
            Outcome::Unsupported => OutcomeModel::Unsupported,
        }
    }
}

/// The values of a list of outcomes.
pub open spec fn outcomes_view(s: Seq<Outcome>) -> Seq<OutcomeModel> {
    s.map_values(|o: Outcome| o@)
}

/// The tokens read so far and the statement still open, if any.
pub struct Session {
    stream: ShellStream,
    pending: Option<StatementParser>,
}

/// The value of a [`Session`].
pub struct SessionModel {
    pub stream: StreamModel,
    pub pending: Option<StatementParserModel>,
}

impl View for Session {
    type V = SessionModel;

    closed spec fn view(&self) -> SessionModel {
        SessionModel {
            stream: self.stream@,
            pending: match self.pending {
                Some(p) => Some(p@),
                None => None,
            },
        }
    }
}

/// The state of a lexer that has read nothing.
pub open spec fn fresh_lexer() -> LineLexerModel {
    LineLexerModel { levels: Seq::empty(), style: TabStyle::Unknown, level: 0, indent: true }
}

/// Every span of the stream starts before the largest offset.
pub open spec fn stream_fits(st: StreamModel) -> bool {
    &&& st.span.start < usize::MAX
    &&& forall|i: int| 0 <= i < st.tokens.len() ==> (#[trigger] st.tokens[i]).1.start < usize::MAX
}

/// The open statement takes the line, again while it stays open and the line goes on, at
/// most `fuel` times more: a statement that would start with `if` drops it; an error
/// leaves it open; a finished statement is given out.
pub open spec fn pending_model(p: StatementParserModel, m: LineModel, fuel: nat, out: Seq<OutcomeModel>) -> (
    Option<StatementParserModel>,
    LineModel,
    Seq<OutcomeModel>,
    bool,
)
    decreases fuel,
{
    if statement_hits_if(p, m) {
        (None, m, out.push(OutcomeModel::Unsupported), true)
    } else {
        let (p2, m2, r) = statement_line_model(p, m);
        match r {
            Err(es) => (Some(p2), m2, out.push(OutcomeModel::Errors(es)), true),
            Ok(Some(st)) => (None, m2, out.push(OutcomeModel::Statement(st)), false),
            Ok(None) => {
                let (m3, q) = line_peek(m2);
                match q {
                    None => (Some(p2), m3, out, true),
                    Some(Err(e)) => (Some(p2), m3, out.push(OutcomeModel::Errors(seq![e])), true),
                    Some(Ok(_)) => if fuel == 0 {
                        (Some(p2), m3, out, true)
                    } else {
                        pending_model(p2, m3, (fuel - 1) as nat, out)
                    },
                }
            },
        }
    }
}

/// Skips the indents and dedents at the front of the line, and looks at what follows.
pub open spec fn skip_blocks_model(m: LineModel) -> (LineModel, Option<Result<TokenModel, ParseErrorModel>>)
    decreases measure(m),
{
    let (m1, r) = line_peek(m);
    match r {
        Some(Ok(t)) => if t == TokenOf::<Seq<char>>::Indent || t == TokenOf::<Seq<char>>::Dedent {
            let m2 = line_take(m1).0;
            if measure(m2) < measure(m) {
                skip_blocks_model(m2)
            } else {
                (m2, None)
            }
        } else {
            (m1, r)
        },
        _ => (m1, r),
    }
}

/// With no statement open: past the indents and dedents, a statement starts, unless the
/// line ends, holds an unreadable entry, or starts with `if` and a condition that parses.
pub open spec fn top_model(m: LineModel, out: Seq<OutcomeModel>) -> (
    Option<StatementParserModel>,
    LineModel,
    Seq<OutcomeModel>,
) {
    let (m1, r) = skip_blocks_model(m);
    match r {
        None => (None, m1, out),
        Some(Err(e)) => (None, m1, out.push(OutcomeModel::Errors(seq![e]))),
        Some(Ok(t)) => if start_hits_if(m1) {
            (None, m1, out.push(OutcomeModel::Unsupported))
        } else {
            let (m2, s) = start_model(m1);
            match s {
                Err(es) => (None, m2, out.push(OutcomeModel::Errors(es))),
                Ok(StatementTypeModel::SingleLine(st)) => (None, m2, out.push(OutcomeModel::Statement(st))),
                Ok(StatementTypeModel::MultiLine(p)) => (Some(p), m2, out),
            }
        },
    }
}

/// One line of text: it is lexed onto the queue; the open statement, if any, takes it;
/// once none is open, a statement may start on what is left; the rest of the line, up to
/// and including its line break, is then read, its unreadable entries reported. When a
/// span would reach the largest offset, nothing is parsed.
pub open spec fn feed_model(s: SessionModel, text: Seq<char>) -> (SessionModel, Seq<OutcomeModel>) {
    let st = load_model(s.stream, text);
    if !stream_fits(st) {
        (SessionModel { stream: st, pending: s.pending }, Seq::empty())
    } else {
        let m0 = LineModel { peeked: None, stream: StreamModel { lexer: fresh_lexer(), ..st }, span: end_span(st.span) };
        let (pend, m1, out1, stop) = match s.pending {
            None => (None, m0, Seq::<OutcomeModel>::empty(), false),
            Some(p) => pending_model(p, m0, st.tokens.len(), Seq::empty()),
        };
        let (pend2, m2, out2) = if stop {
            (pend, m1, out1)
        } else {
            top_model(m1, out1)
        };
        let (m3, es) = parser_consume_model(m2, Seq::empty());
        let out3 = if es.len() > 0 {
            out2.push(OutcomeModel::Errors(es))
        } else {
            out2
        };
        (SessionModel { stream: StreamModel { lexer: st.lexer, ..m3.stream }, pending: pend2 }, out3)
    }
}

/// The open statement takes the line (see [`pending_model`]).
fn run_pending(open: StatementParser, line: &mut TokenLine, budget: usize, out: &mut Vec<Outcome>) -> (r: (
    Option<StatementParser>,
    bool,
))
    requires
        spans_ok(old(line)@),
    ensures
        spans_ok(final(line)@),
        ({
            let (p, m, o, stop) = pending_model(open@, old(line)@, budget as nat, outcomes_view(old(out)@));
            &&& final(line)@ == m
            &&& outcomes_view(final(out)@) == o
            &&& r.1 == stop
            &&& match r.0 {
                Some(q) => p == Some(q@),
                None => p is None,
            }
        }),
{
    let mut parser = open;
    let mut fuel = budget;
    let ghost target = pending_model(parser@, line@, fuel as nat, outcomes_view(out@));
    loop
        invariant
            spans_ok(line@),
            target == pending_model(open@, old(line)@, budget as nat, outcomes_view(old(out)@)),
            pending_model(parser@, line@, fuel as nat, outcomes_view(out@)) == target,
        decreases fuel,
    {
        let ghost before = outcomes_view(out@);
        let ghost m_before = line@;
        let ghost p_before = parser@;
        assert(pending_model(p_before, m_before, fuel as nat, before) == target);
        if parser.hits_if(line) {
            out.push(Outcome::Unsupported);
            assert(outcomes_view(out@) =~= before.push(OutcomeModel::Unsupported));
            return (None, true);
        }
        match parser.parse_line(line) {
            Err(es) => {
                let ghost e = errors_view(es@);
                out.push(Outcome::Errors(es));
                assert(outcomes_view(out@) =~= before.push(OutcomeModel::Errors(e)));
                return (Some(parser), true);
            },
            Ok(Some(st)) => {
                let ghost v = st@;
                out.push(Outcome::Statement(st));
                assert(outcomes_view(out@) =~= before.push(OutcomeModel::Statement(v)));
                return (None, false);
            },
            Ok(None) => {
                proof {
                    lemma_line_peek_measure(line@);
                }
                match line.peek_token() {
                    None => {
                        return (Some(parser), true);
                    },
                    Some(Err(e)) => {
                        let ghost ev = e@;
                        let mut es: Vec<ParseError> = Vec::new();
                        es.push(e);
                        assert(errors_view(es@) =~= seq![ev]);
                        out.push(Outcome::Errors(es));
                        assert(outcomes_view(out@) =~= before.push(OutcomeModel::Errors(seq![ev])));
                        return (Some(parser), true);
                    },
                    Some(Ok(_)) => {
                        if fuel == 0 {
                            return (Some(parser), true);
                        }
                        fuel = fuel - 1;
                    },
                }
            },
        }
    }
}

/// Skips the indents and dedents at the front of the line (see [`skip_blocks_model`]).
fn skip_blocks(line: &mut TokenLine) -> (r: Option<Result<Token, ParseError>>)
    requires
        spans_ok(old(line)@),
    ensures
        spans_ok(final(line)@),
        (final(line)@, crate::line_parser::result_view(r)) == skip_blocks_model(old(line)@),
{
    loop
        invariant
            spans_ok(line@),
            skip_blocks_model(line@) == skip_blocks_model(old(line)@),
        decreases measure(line@),
    {
        let ghost m = line@;
        proof {
            lemma_line_peek_measure(m);
        }
        let r = line.peek_token();
        let block = match &r {
            Some(Ok(TokenOf::Indent)) => true,
            Some(Ok(TokenOf::Dedent)) => true,
            _ => false,
        };
        if !block {
            return r;
        }
        proof {
            lemma_line_take_measure(line@);
        }
        line.take_token();
    }
}

/// With no statement open, starts one on the line (see [`top_model`]).
fn run_top(line: &mut TokenLine, out: &mut Vec<Outcome>) -> (r: Option<StatementParser>)
    requires
        spans_ok(old(line)@),
    ensures
        ({
            let (p, m, o) = top_model(old(line)@, outcomes_view(old(out)@));
            &&& final(line)@ == m
            &&& outcomes_view(final(out)@) == o
            &&& match r {
                Some(q) => p == Some(q@),
                None => p is None,
            }
        }),
{
    let ghost before = outcomes_view(out@);
    match skip_blocks(line) {
        None => None,
        Some(Err(e)) => {
            let ghost ev = e@;
            let mut es: Vec<ParseError> = Vec::new();
            es.push(e);
            assert(errors_view(es@) =~= seq![ev]);
            out.push(Outcome::Errors(es));
            assert(outcomes_view(out@) =~= before.push(OutcomeModel::Errors(seq![ev])));
            None
        },
        Some(Ok(_)) => {
            if starts_with_if(line) {
                out.push(Outcome::Unsupported);
                assert(outcomes_view(out@) =~= before.push(OutcomeModel::Unsupported));
                return None;
            }
            proof {
                lemma_line_peek_measure(line@);
            }
            match start_parsing(line) {
                Err(es) => {
                    let ghost e = errors_view(es@);
                    out.push(Outcome::Errors(es));
                    assert(outcomes_view(out@) =~= before.push(OutcomeModel::Errors(e)));
                    None
                },
                Ok(StatementType::SingleLine(st)) => {
                    let ghost v = st@;
                    out.push(Outcome::Statement(st));
                    assert(outcomes_view(out@) =~= before.push(OutcomeModel::Statement(v)));
                    None
                },
                Ok(StatementType::MultiLine(p)) => Some(p),
            }
        },
    }
}

impl Session {
    /// The lexer state is consistent.
    pub closed spec fn wf(&self) -> bool {
        self.stream.wf()
    }

    /// Nothing read, nothing open.
    pub fn new() -> (s: Self)
        ensures
            s.wf(),
            s@.stream.tokens.len() == 0,
            s@.stream.source.len() == 0,
            s@.stream.lexer == fresh_lexer(),
            s@.pending is None,
    {
        Session { stream: ShellStream::new(), pending: None }
    }

    /// Whether a statement is still open.
    pub fn is_pending(&self) -> (r: bool)
        ensures
            r == (self@.pending is Some),
    {
        self.pending.is_some()
    }

    /// The text read so far, each line after a line break.
    pub fn source(&self) -> (r: &str)
        ensures
            r@ == self@.stream.source,
    {
        self.stream.source()
    }

    /// Reads a line of text (see [`feed_model`]) and says what it gave, in order.
    pub fn feed(&mut self, text: &str) -> (out: Vec<Outcome>)
        requires
            old(self).wf(),
            encode_utf8(old(self)@.stream.source).len() + 1 + encode_utf8(text@).len() <= usize::MAX,
        ensures
            final(self).wf(),
            (final(self)@, outcomes_view(out@)) == feed_model(old(self)@, text@),
    {
        let mut stream = ShellStream::new();
        std::mem::swap(&mut stream, &mut self.stream);
        stream.load(text);
        let mut out: Vec<Outcome> = Vec::new();
        assert(outcomes_view(out@) =~= Seq::<OutcomeModel>::empty());
        if !stream.spans_fit() {
            self.stream = stream;
            return out;
        }
        let fuel = stream.len();
        let mut lexer = Lexer::new();
        stream.swap_lexer(&mut lexer);
        let mut line = LineParser::new(stream).line();
        let mut stop = false;
        let mut pending: Option<StatementParser> = None;
        match self.pending.take() {
            None => {},
            Some(parser) => {
                let (p, s) = run_pending(parser, &mut line, fuel, &mut out);
                pending = p;
                stop = s;
            },
        }
        if !stop {
            pending = run_top(&mut line, &mut out);
        }
        let ghost before = outcomes_view(out@);
        let mut parser = line.into_parser();
        match parser.consume_line() {
            Ok(()) => {},
            Err(es) => {
                let ghost e = errors_view(es@);
                out.push(Outcome::Errors(es));
                assert(outcomes_view(out@) =~= before.push(OutcomeModel::Errors(e)));
            },
        }
        let mut stream = parser.into_stream();
        stream.swap_lexer(&mut lexer);
        self.stream = stream;
        self.pending = pending;
        out
    }
}

} // verus!
