//! The line lexer: lexes one line of text at a time, measuring its indentation
//! against the open blocks carried over from earlier lines.
use vstd::prelude::*;

use crate::lexer::levels_wf;
use crate::parse_token::{ident_token, Span, Token, TokenModel, TokenOf};
use crate::symbols::{
    all_chars, all_in, char_in, concat, in_class, lemma_concat_chars, lemma_run_end_at, lemma_run_members, is_char, is_newline, join_symbols, lemma_offset_mono,
    lemma_offset_step, lemma_run_end_bounds, lemma_run_end_sub, newline_symbol, offset, run_end,
    single_char, split_graphemes, sym_is, sym_views, symbol_in, grapheme_clusters, CharKind,
    SymClass,
};

verus! {

/// The blank character found where the indentation style did not allow it.
#[derive(Debug, Clone, Copy, PartialEq, Eq, Structural)]
pub enum IndentType {
    Space,
    Tab,
}

/// Errors the line lexer reports in place of a token.
#[derive(Debug, Clone, Copy, PartialEq, Eq, Structural)]
pub enum LexError {
    InvalidSymbol,
    InvalidIndent(IndentType),
    UnclosedString,
}

impl Default for LexError {
    fn default() -> (e: Self)
        ensures
            e == LexError::InvalidSymbol,
    {
        LexError::InvalidSymbol
    }
}

/// The characters lines indent with, once the first indented line has shown them.
#[derive(Debug, Clone, Copy, PartialEq, Eq, Structural)]
pub enum TabStyle {
    Spaces,
    Tabs,
    Unknown,
}

/// Indentation state carried from line to line.
pub struct Lexer {
    levels: Vec<usize>,
    style: TabStyle,
    level: usize,
    indent: bool,
}

/// The value of a line [`Lexer`]: open levels, style, the current line's level, and
/// whether the next token starts a line (so its indentation must be measured).
pub struct LineLexerModel {
    pub levels: Seq<usize>,
    pub style: TabStyle,
    pub level: usize,
    pub indent: bool,
}

impl View for Lexer {
    type V = LineLexerModel;

    closed spec fn view(&self) -> LineLexerModel {
        LineLexerModel {
            levels: self.levels@,
            style: self.style,
            level: self.level,
            indent: self.indent,
        }
    }
}

impl Lexer {
    pub open spec fn wf(&self) -> bool {
        levels_wf(self@.levels)
    }

    /// No open blocks, no style yet, at the start of a line.
    pub fn new() -> (l: Self)
        ensures
            l.wf(),
            l@.levels == Seq::<usize>::empty(),
            l@.style == TabStyle::Unknown,
            l@.level == 0,
            l@.indent,
    {
        Lexer { levels: Vec::new(), style: TabStyle::Unknown, level: 0, indent: true }
    }

    /// A copy of the lexer state.
    pub fn duplicate(&self) -> (l: Self)
        ensures
            l@ == self@,
    {
        let mut levels: Vec<usize> = Vec::new();
        let mut i: usize = 0;
        while i < self.levels.len()
            invariant
                i <= self.levels@.len(),
                levels@ == self.levels@.subrange(0, i as int),
            decreases self.levels@.len() - i,
        {
            levels.push(self.levels[i]);
            i = i + 1;
            assert(levels@ =~= self.levels@.subrange(0, i as int));
        }
        assert(levels@ =~= self.levels@);
        Lexer { levels, style: self.style, level: self.level, indent: self.indent }
    }

    /// Closes every open block, returning how many there were.
    pub fn close_blocks(&mut self) -> (n: usize)
        ensures
            n == old(self)@.levels.len(),
            final(self)@ == (LineLexerModel { levels: Seq::<usize>::empty(), level: 0, ..old(self)@ }),
    {
        let levels = self.levels.len();
        self.levels.clear();
        self.level = 0;
        levels
    }

    /// Starts lexing one line of `source`.
    pub fn lex(self, source: &str) -> (t: LexTokens)
        requires
            self.wf(),
        ensures
            t.wf(),
            t@.lexer == self@,
            t@.syms == grapheme_clusters(source@),
            concat(t@.syms, 0, t@.syms.len() as int) == source@,
            t@.pos == 0,
            t@.start == 0,
            t@.end == 0,
    {
        let symbols = split_graphemes(source);
        LexTokens { lexer: self, symbols, pos: 0, span: Span::new(0, 0) }
    }
}

/// The tokens of one line.
pub struct LexTokens {
    lexer: Lexer,
    symbols: Vec<String>,
    pos: usize,
    span: Span,
}

/// The value of [`LexTokens`]: the lexer state, the symbols, the next unread symbol, and
/// the byte span of the last token.
pub struct LexTokensModel {
    pub lexer: LineLexerModel,
    pub syms: Seq<Seq<char>>,
    pub pos: int,
    pub start: int,
    pub end: int,
}

impl View for LexTokens {
    type V = LexTokensModel;

    closed spec fn view(&self) -> LexTokensModel {
        LexTokensModel {
            lexer: self.lexer@,
            syms: sym_views(self.symbols@),
            pos: self.pos as int,
            start: self.span.start as int,
            end: self.span.end as int,
        }
    }
}

/// Consistent values: the span ends at the read position's byte offset unless the rest of
/// the line was dropped (then everything is read).
pub open spec fn tokens_wf(m: LexTokensModel) -> bool {
    &&& levels_wf(m.lexer.levels)
    &&& 0 <= m.pos <= m.syms.len()
    &&& 0 <= m.start <= m.end <= offset(m.syms, m.pos)
    &&& (m.pos < m.syms.len() || !m.lexer.indent) ==> m.end == offset(m.syms, m.pos)
    &&& offset(m.syms, m.syms.len() as int) <= usize::MAX
}

/// Dropping the rest of the line: everything counts as read, the span is empty at its
/// end, and the next call measures a new line's indentation.
pub open spec fn drained(m: LexTokensModel) -> LexTokensModel {
    LexTokensModel {
        lexer: LineLexerModel { indent: true, ..m.lexer },
        pos: m.syms.len() as int,
        start: m.end,
        ..m
    }
}

/// Read up to symbol `b`, the span covering `a..b`.
pub open spec fn moved_to(m: LexTokensModel, a: int, b: int) -> LexTokensModel {
    LexTokensModel { pos: b, start: offset(m.syms, a) as int, end: offset(m.syms, b) as int, ..m }
}

pub open spec fn with_lexer(m: LexTokensModel, l: LineLexerModel) -> LexTokensModel {
    LexTokensModel { lexer: l, ..m }
}

/// The blank symbol a known style indents with.
pub open spec fn style_char(st: TabStyle) -> char {
    if st == TabStyle::Spaces {
        ' '
    } else {
        '\t'
    }
}

/// Single-character tokens.
pub open spec fn single_line_token(c: char) -> Option<TokenModel> {
    if c == '+' {
        Some(TokenOf::Add)
    } else if c == '/' {
        Some(TokenOf::Div)
    } else if c == '%' {
        Some(TokenOf::Modulo)
    } else if c == '.' {
        Some(TokenOf::Period)
    } else if c == ',' {
        Some(TokenOf::Comma)
    } else if c == ';' {
        Some(TokenOf::SemiColon)
    } else if c == '?' {
        Some(TokenOf::Question)
    } else if c == '(' {
        Some(TokenOf::OpenParen)
    } else if c == ')' {
        Some(TokenOf::CloseParen)
    } else if c == '{' {
        Some(TokenOf::OpenCurly)
    } else if c == '}' {
        Some(TokenOf::CloseCurly)
    } else if c == '[' {
        Some(TokenOf::OpenSquare)
    } else if c == ']' {
        Some(TokenOf::CloseSquare)
    } else {
        None
    }
}

/// Tokens of one character that may take a second: (second, token with it, token without).
pub open spec fn pair_line_token(c: char) -> Option<(char, TokenModel, TokenModel)> {
    if c == '-' {
        Some(('>', TokenOf::Arrow, TokenOf::Sub))
    } else if c == '*' {
        Some(('*', TokenOf::Pow, TokenOf::Mul))
    } else if c == '<' {
        Some(('=', TokenOf::LtEq, TokenOf::Lt))
    } else if c == '>' {
        Some(('=', TokenOf::GtEq, TokenOf::Gt))
    } else if c == '!' {
        Some(('=', TokenOf::NEq, TokenOf::Not))
    } else if c == ':' {
        Some(('=', TokenOf::Walrus, TokenOf::Colon))
    } else {
        None
    }
}

/// A number starting at symbol `k`: where it ends and its token.
pub open spec fn line_number(syms: Seq<Seq<char>>, k: int) -> (int, TokenModel) {
    let e1 = run_end(syms, k + 1, SymClass::Digit);
    if sym_is(syms, e1, '.') {
        let e2 = run_end(syms, e1 + 1, SymClass::Digit);
        if sym_is(syms, e2, 'f') {
            (e2 + 1, TokenOf::Float(concat(syms, k, e2)))
        } else {
            (e2, TokenOf::Float(concat(syms, k, e2)))
        }
    } else if sym_is(syms, e1, 'f') {
        (e1 + 1, TokenOf::Float(concat(syms, k, e1)))
    } else {
        (e1, TokenOf::Int(concat(syms, k, e1)))
    }
}

/// Where the body of a string quoted by `q`, starting at symbol `i`, ends: at the closing
/// quote (`true`), or unclosed (`false`) at a line break or at the end of the text; a `\`
/// takes the symbol after it into the string, whatever it is.
pub open spec fn string_end(syms: Seq<Seq<char>>, i: int, q: char) -> (int, bool)
    decreases syms.len() - i,
{
    if i < 0 || i >= syms.len() {
        (i, false)
    } else if is_newline(syms[i]) {
        (i, false)
    } else if is_char(syms[i], '\\') {
        if i + 1 < syms.len() {
            string_end(syms, i + 2, q)
        } else {
            (i + 1, false)
        }
    } else if is_char(syms[i], q) {
        (i, true)
    } else {
        string_end(syms, i + 1, q)
    }
}

/// A string body ends within the text, before its last symbol when it is closed.
proof fn lemma_string_end_bounds(syms: Seq<Seq<char>>, i: int, q: char)
    requires
        0 <= i <= syms.len(),
    ensures
        i <= string_end(syms, i, q).0 <= syms.len(),
        string_end(syms, i, q).1 ==> string_end(syms, i, q).0 < syms.len(),
    decreases syms.len() - i,
{
    if i < syms.len() && !is_newline(syms[i]) {
        if is_char(syms[i], '\\') {
            if i + 1 < syms.len() {
                lemma_string_end_bounds(syms, i + 2, q);
            }
        } else if !is_char(syms[i], q) {
            lemma_string_end_bounds(syms, i + 1, q);
        }
    }
}

/// The token starting at symbol `k` (neither blank, a line break nor `#`) and where it
/// ends; an unclosed string is an error, and the rest of the line is dropped.
pub open spec fn scan_line_token(syms: Seq<Seq<char>>, k: int) -> (int, Result<TokenModel, LexError>) {
    let s = syms[k];
    let p = k + 1;
    if s.len() == 1 && single_line_token(s[0]) is Some {
        (p, Ok(single_line_token(s[0])->0))
    } else if s.len() == 1 && pair_line_token(s[0]) is Some {
        let (second, two, one) = pair_line_token(s[0])->0;
        if sym_is(syms, p, second) {
            (p + 1, Ok(two))
        } else {
            (p, Ok(one))
        }
    } else if is_char(s, '=') {
        if sym_is(syms, p, '=') {
            (p + 1, Ok(TokenOf::Eq))
        } else if sym_is(syms, p, '>') {
            (p + 1, Ok(TokenOf::FatArrow))
        } else {
            (p, Ok(TokenOf::Assign))
        }
    } else if all_in(CharKind::IdentStart, s) {
        let e = run_end(syms, p, SymClass::IdentTail);
        (e, Ok(ident_token(concat(syms, k, e))))
    } else if all_in(CharKind::Digit, s) {
        let (e, t) = line_number(syms, k);
        (e, Ok(t))
    } else if is_char(s, '\'') || is_char(s, '"') {
        let (e, closed) = string_end(syms, p, s[0]);
        if closed {
            (e + 1, Ok(TokenOf::Str(concat(syms, p, e))))
        } else {
            (e, Err(LexError::UnclosedString))
        }
    } else {
        (p, Err(LexError::InvalidSymbol))
    }
}

/// Whether a symbol ends the line for the lexer: a line break or a comment.
pub open spec fn ends_line(s: Seq<char>) -> bool {
    is_newline(s) || is_char(s, '#')
}

/// Reading a token once indentation is dealt with.
pub open spec fn line_token_step(m: LexTokensModel) -> (LexTokensModel, Option<Result<TokenModel, LexError>>) {
    let k = run_end(m.syms, m.pos, SymClass::Blank);
    if k >= m.syms.len() {
        (drained(moved_to(m, k, k)), None)
    } else if ends_line(m.syms[k]) {
        (drained(moved_to(m, k, k + 1)), None)
    } else {
        let (e, r) = scan_line_token(m.syms, k);
        if r == Err::<TokenModel, LexError>(LexError::UnclosedString) {
            (drained(moved_to(m, k, e)), Some(r))
        } else {
            (moved_to(m, k, e), Some(r))
        }
    }
}

/// With the line's level known: close a level, open it, or read a token.
pub open spec fn line_level_step(m: LexTokensModel) -> (LexTokensModel, Option<Result<TokenModel, LexError>>) {
    let levels = m.lexer.levels;
    let last: int = if levels.len() > 0 { levels.last() as int } else { 0 };
    let level = m.lexer.level;
    if level < last {
        (with_lexer(m, LineLexerModel { levels: levels.drop_last(), ..m.lexer }), Some(Ok(TokenOf::Dedent)))
    } else if level > last {
        (with_lexer(m, LineLexerModel { levels: levels.push(level), ..m.lexer }), Some(Ok(TokenOf::Indent)))
    } else {
        line_token_step(m)
    }
}

/// The style after the first blank of a line: unchanged unless still unknown, in which
/// case the first blank (if any) decides it.
pub open spec fn line_style(m: LexTokensModel) -> TabStyle {
    if m.lexer.style == TabStyle::Unknown && m.pos < m.syms.len() && is_char(m.syms[m.pos], ' ') {
        TabStyle::Spaces
    } else if m.lexer.style == TabStyle::Unknown && m.pos < m.syms.len() && is_char(m.syms[m.pos], '\t') {
        TabStyle::Tabs
    } else {
        m.lexer.style
    }
}

/// At the start of a line: count the blanks of the line's style. A blank of the other
/// kind is an indentation error (unless the line turns out blank or a comment); a line
/// that is empty, blank or a comment is dropped without changing the levels.
pub open spec fn line_indent_step(m: LexTokensModel) -> (LexTokensModel, Option<Result<TokenModel, LexError>>) {
    let st = line_style(m);
    let m1 = LexTokensModel {
        lexer: LineLexerModel { indent: false, style: st, ..m.lexer },
        start: m.end,
        ..m
    };
    let mm = if st == TabStyle::Unknown {
        m.pos
    } else {
        run_end(m.syms, m.pos, SymClass::Char(style_char(st)))
    };
    if mm < m.syms.len() && in_class(SymClass::Blank, m.syms[mm]) {
        let e = run_end(m.syms, mm, SymClass::Blank);
        let m2 = LexTokensModel { pos: e, end: m.end + offset(m.syms, e) - offset(m.syms, m.pos), ..m1 };
        if e < m.syms.len() && ends_line(m.syms[e]) {
            (drained(m2), None)
        } else {
            let kind = if is_char(m.syms[mm], ' ') { IndentType::Space } else { IndentType::Tab };
            (m2, Some(Err(LexError::InvalidIndent(kind))))
        }
    } else {
        let m2 = LexTokensModel { pos: mm, end: m.end + offset(m.syms, mm) - offset(m.syms, m.pos), ..m1 };
        if mm >= m.syms.len() || ends_line(m.syms[mm]) {
            (drained(m2), None)
        } else {
            line_level_step(with_lexer(m2, LineLexerModel { level: (mm - m.pos) as usize, ..m2.lexer }))
        }
    }
}

/// One call of [`LexTokens::next_token`].
#[verifier::opaque]
pub open spec fn line_step(m: LexTokensModel) -> (LexTokensModel, Option<Result<TokenModel, LexError>>) {
    if m.lexer.indent {
        line_indent_step(m)
    } else {
        line_level_step(m)
    }
}


pub open spec fn read_to_line(m: LexTokensModel, b: int) -> LexTokensModel {
    LexTokensModel { pos: b, end: offset(m.syms, b) as int, ..m }
}

impl LexTokens {
    pub open spec fn wf(&self) -> bool {
        tokens_wf(self@)
    }

    /// Byte offset where the last token starts.
    pub fn token_start(&self) -> (n: usize)
        ensures
            n == self@.start,
    {
        self.span.start
    }

    /// Byte offset where the last token ends.
    pub fn token_end(&self) -> (n: usize)
        ensures
            n == self@.end,
    {
        self.span.end
    }

    /// Byte span of the last token.
    pub fn token_span(&self) -> (s: Span)
        ensures
            s.start == self@.start,
            s.end == self@.end,
    {
        Span::new(self.token_start(), self.token_end())
    }

    /// Ends lexing the line and hands back the lexer state.
    pub fn into_lexer(self) -> (l: Lexer)
        requires
            self.wf(),
        ensures
            l.wf(),
            l@ == self@.lexer,
    {
        self.lexer
    }

    fn bump(&mut self)
        requires
            old(self).wf(),
            old(self)@.pos < old(self)@.syms.len(),
        ensures
            final(self).wf(),
            final(self)@ == read_to_line(old(self)@, old(self)@.pos + 1),
    {
        proof {
            lemma_offset_step(self@.syms, self@.pos);
            lemma_offset_mono(self@.syms, self@.pos + 1, self@.syms.len() as int);
        }
        let len = self.symbols.len();
        let n = self.symbols[self.pos].as_str().len();
        self.span.end = self.span.end + n;
        self.pos = self.pos + 1;
    }

    fn skip_class(&mut self, class: SymClass)
        requires
            old(self).wf(),
            old(self)@.end == offset(old(self)@.syms, old(self)@.pos),
        ensures
            final(self).wf(),
            final(self)@ == read_to_line(old(self)@, run_end(old(self)@.syms, old(self)@.pos, class)),
            final(self)@.end == offset(final(self)@.syms, final(self)@.pos),
            old(self)@.pos <= final(self)@.pos,
    {
        let ghost m0 = self@;
        while self.pos < self.symbols.len() && symbol_in(class, self.symbols[self.pos].as_str())
            invariant
                self.wf(),
                m0.pos <= self@.pos,
                run_end(self@.syms, self@.pos, class) == run_end(m0.syms, m0.pos, class),
                self@ == read_to_line(m0, self@.pos),
            decreases self.symbols.len() - self.pos,
        {
            self.bump();
        }
    }

    /// Reads the body of a string quoted by `q` (see [`string_end`]); says whether the
    /// closing quote was reached (it is not read).
    fn skip_string(&mut self, q: char) -> (closed: bool)
        requires
            old(self).wf(),
            old(self)@.end == offset(old(self)@.syms, old(self)@.pos),
        ensures
            final(self).wf(),
            final(self)@ == read_to_line(old(self)@, string_end(old(self)@.syms, old(self)@.pos, q).0),
            final(self)@.end == offset(final(self)@.syms, final(self)@.pos),
            closed == string_end(old(self)@.syms, old(self)@.pos, q).1,
            closed ==> final(self)@.pos < final(self)@.syms.len(),
            old(self)@.pos <= final(self)@.pos,
    {
        let ghost m0 = self@;
        loop
            invariant
                m0 == old(self)@,
                self.wf(),
                m0.pos <= self@.pos,
                self@ == read_to_line(m0, self@.pos),
                string_end(self@.syms, self@.pos, q) == string_end(m0.syms, m0.pos, q),
            decreases self.symbols.len() - self.pos,
        {
            if self.pos >= self.symbols.len() {
                return false;
            }
            let s = self.symbols[self.pos].as_str();
            if newline_symbol(s) {
                return false;
            }
            let c = single_char(s);
            if c == Some('\\') {
                self.bump();
                if self.pos >= self.symbols.len() {
                    return false;
                }
                self.bump();
            } else if c == Some(q) {
                return true;
            } else {
                self.bump();
            }
        }
    }

    fn peek_is(&self, c: char) -> (r: bool)
        requires
            self.wf(),
        ensures
            r == sym_is(self@.syms, self@.pos, c),
    {
        self.pos < self.symbols.len() && single_char(self.symbols[self.pos].as_str()) == Some(c)
    }

    /// Drops the rest of the line.
    fn consume_line(&mut self)
        requires
            old(self).wf(),
        ensures
            final(self).wf(),
            final(self)@ == drained(old(self)@),
    {
        proof {
            lemma_offset_mono(self@.syms, self@.pos, self@.syms.len() as int);
        }
        self.lexer.indent = true;
        self.span.start = self.span.end;
        self.pos = self.symbols.len();
    }
}


impl LexTokens {
    fn number(&mut self, k: usize) -> (t: Token)
        requires
            old(self).wf(),
            k < old(self)@.syms.len(),
            old(self)@.pos == k + 1,
            old(self)@.end == offset(old(self)@.syms, old(self)@.pos),
        ensures
            final(self).wf(),
            final(self)@ == read_to_line(old(self)@, line_number(old(self)@.syms, k as int).0),
            t@ == line_number(old(self)@.syms, k as int).1,
    {
        self.skip_class(SymClass::Digit);
        if self.peek_is('.') {
            self.bump();
            self.skip_class(SymClass::Digit);
            let text = join_symbols(&self.symbols, k, self.pos);
            if self.peek_is('f') {
                self.bump();
            }
            TokenOf::Float(text)
        } else if self.peek_is('f') {
            let text = join_symbols(&self.symbols, k, self.pos);
            self.bump();
            TokenOf::Float(text)
        } else {
            let text = join_symbols(&self.symbols, k, self.pos);
            TokenOf::Int(text)
        }
    }

    /// Reads the token at the next symbol, which neither is blank nor ends the line.
    fn scan(&mut self) -> (r: Result<Token, LexError>)
        requires
            old(self).wf(),
            old(self)@.pos < old(self)@.syms.len(),
            old(self)@.end == offset(old(self)@.syms, old(self)@.pos),
        ensures
            final(self).wf(),
            final(self)@ == read_to_line(old(self)@, scan_line_token(old(self)@.syms, old(self)@.pos).0),
            line_token_view(r) == scan_line_token(old(self)@.syms, old(self)@.pos).1,
    {
        let k = self.pos;
        let c = single_char(self.symbols[k].as_str());
        self.bump();
        match c {
            Some('+') => return Ok(TokenOf::Add),
            Some('/') => return Ok(TokenOf::Div),
            Some('%') => return Ok(TokenOf::Modulo),
            Some('.') => return Ok(TokenOf::Period),
            Some(',') => return Ok(TokenOf::Comma),
            Some(';') => return Ok(TokenOf::SemiColon),
            Some('?') => return Ok(TokenOf::Question),
            Some('(') => return Ok(TokenOf::OpenParen),
            Some(')') => return Ok(TokenOf::CloseParen),
            Some('{') => return Ok(TokenOf::OpenCurly),
            Some('}') => return Ok(TokenOf::CloseCurly),
            Some('[') => return Ok(TokenOf::OpenSquare),
            Some(']') => return Ok(TokenOf::CloseSquare),
            Some('-') => {
                if self.peek_is('>') {
                    self.bump();
                    return Ok(TokenOf::Arrow);
                }
                return Ok(TokenOf::Sub);
            },
            Some('*') => {
                if self.peek_is('*') {
                    self.bump();
                    return Ok(TokenOf::Pow);
                }
                return Ok(TokenOf::Mul);
            },
            Some('=') => {
                if self.peek_is('=') {
                    self.bump();
                    return Ok(TokenOf::Eq);
                }
                if self.peek_is('>') {
                    self.bump();
                    return Ok(TokenOf::FatArrow);
                }
                return Ok(TokenOf::Assign);
            },
            Some('<') => {
                if self.peek_is('=') {
                    self.bump();
                    return Ok(TokenOf::LtEq);
                }
                return Ok(TokenOf::Lt);
            },
            Some('>') => {
                if self.peek_is('=') {
                    self.bump();
                    return Ok(TokenOf::GtEq);
                }
                return Ok(TokenOf::Gt);
            },
            Some('!') => {
                if self.peek_is('=') {
                    self.bump();
                    return Ok(TokenOf::NEq);
                }
                return Ok(TokenOf::Not);
            },
            Some(':') => {
                if self.peek_is('=') {
                    self.bump();
                    return Ok(TokenOf::Walrus);
                }
                return Ok(TokenOf::Colon);
            },
            _ => {},
        }
        if all_chars(CharKind::IdentStart, self.symbols[k].as_str()) {
            self.skip_class(SymClass::IdentTail);
            let text = join_symbols(&self.symbols, k, self.pos);
            return Ok(TokenOf::parse_ident(text.as_str()));
        }
        if all_chars(CharKind::Digit, self.symbols[k].as_str()) {
            return Ok(self.number(k));
        }
        if c == Some('\'') || c == Some('"') {
            let q = if c == Some('\'') {
                '\''
            } else {
                '"'
            };
            let closed = self.skip_string(q);
            if closed {
                let text = join_symbols(&self.symbols, k + 1, self.pos);
                self.bump();
                return Ok(TokenOf::Str(text));
            }
            return Err(LexError::UnclosedString);
        }
        Err(LexError::InvalidSymbol)
    }

    fn token_phase(&mut self) -> (r: Option<Result<Token, LexError>>)
        requires
            old(self).wf(),
            old(self)@.end == offset(old(self)@.syms, old(self)@.pos),
        ensures
            final(self).wf(),
            final(self)@ == line_token_step(old(self)@).0,
            line_result_view(r) == line_token_step(old(self)@).1,
    {
        self.skip_class(SymClass::Blank);
        self.span.start = self.span.end;
        if self.pos >= self.symbols.len() {
            self.consume_line();
            return None;
        }
        let s = self.symbols[self.pos].as_str();
        if newline_symbol(s) || single_char(s) == Some('#') {
            self.bump();
            self.consume_line();
            return None;
        }
        let r = self.scan();
        if let Err(LexError::UnclosedString) = r {
            self.consume_line();
        }
        Some(r)
    }

    fn level_phase(&mut self) -> (r: Option<Result<Token, LexError>>)
        requires
            old(self).wf(),
            old(self)@.end == offset(old(self)@.syms, old(self)@.pos),
        ensures
            final(self).wf(),
            final(self)@ == line_level_step(old(self)@).0,
            line_result_view(r) == line_level_step(old(self)@).1,
    {
        let n = self.lexer.levels.len();
        let last = if n > 0 {
            self.lexer.levels[n - 1]
        } else {
            0
        };
        if self.lexer.level < last {
            self.lexer.levels.pop();
            return Some(Ok(TokenOf::Dedent));
        }
        if self.lexer.level > last {
            let level = self.lexer.level;
            self.lexer.levels.push(level);
            return Some(Ok(TokenOf::Indent));
        }
        self.token_phase()
    }
}


/// Whether a symbol ends the line for the lexer.
fn ends_line_symbol(s: &str) -> (r: bool)
    ensures
        r == ends_line(s@),
{
    newline_symbol(s) || single_char(s) == Some('#')
}

impl LexTokens {
    fn indent_phase(&mut self) -> (r: Option<Result<Token, LexError>>)
        requires
            old(self).wf(),
            old(self)@.lexer.indent,
        ensures
            final(self).wf(),
            final(self)@ == line_indent_step(old(self)@).0,
            line_result_view(r) == line_indent_step(old(self)@).1,
    {
        let n = self.symbols.len();
        self.span.start = self.span.end;
        if self.pos >= n {
            self.consume_line();
            return None;
        }
        self.lexer.indent = false;
        let pos0 = self.pos;
        if self.lexer.style == TabStyle::Unknown {
            let c = single_char(self.symbols[pos0].as_str());
            if c == Some(' ') {
                self.lexer.style = TabStyle::Spaces;
            } else if c == Some('\t') {
                self.lexer.style = TabStyle::Tabs;
            }
        }
        if self.lexer.style != TabStyle::Unknown {
            let ch = if self.lexer.style == TabStyle::Spaces {
                ' '
            } else {
                '\t'
            };
            self.skip_class(SymClass::Char(ch));
        }
        let mm = self.pos;
        if mm < n && symbol_in(SymClass::Blank, self.symbols[mm].as_str()) {
            let space = single_char(self.symbols[mm].as_str()) == Some(' ');
            self.skip_class(SymClass::Blank);
            if self.pos < n && ends_line_symbol(self.symbols[self.pos].as_str()) {
                self.consume_line();
                return None;
            }
            let kind = if space {
                IndentType::Space
            } else {
                IndentType::Tab
            };
            return Some(Err(LexError::InvalidIndent(kind)));
        }
        if mm >= n || ends_line_symbol(self.symbols[mm].as_str()) {
            self.consume_line();
            return None;
        }
        self.lexer.level = mm - pos0;
        self.level_phase()
    }

    /// The next token of the line; `None` when the line ends (at its end, a line break
    /// or a comment), after which the next call starts a new line.
    pub fn next_token(&mut self) -> (r: Option<Result<Token, LexError>>)
        requires
            old(self).wf(),
        ensures
            final(self).wf(),
            final(self)@ == line_step(old(self)@).0,
            line_result_view(r) == line_step(old(self)@).1,
    {
        proof {
            reveal(line_step);
        }
        if self.lexer.indent {
            self.indent_phase()
        } else {
            self.level_phase()
        }
    }
}


/// A scanned token ends after its first symbol, within the text.
proof fn lemma_line_scan_bounds(syms: Seq<Seq<char>>, k: int)
    requires
        0 <= k < syms.len(),
    ensures
        k < scan_line_token(syms, k).0 <= syms.len(),
{
    let p = k + 1;
    lemma_run_end_bounds(syms, p, SymClass::IdentTail);
    lemma_run_end_bounds(syms, p, SymClass::Digit);
    if syms[k].len() > 0 {
        lemma_string_end_bounds(syms, p, syms[k][0]);
    }
    let e1 = run_end(syms, p, SymClass::Digit);
    if e1 < syms.len() {
        lemma_run_end_bounds(syms, e1 + 1, SymClass::Digit);
    }
}

proof fn lemma_line_token_progress(m: LexTokensModel)
    requires
        tokens_wf(m),
    ensures
        line_token_step(m).1 is None ==> line_token_step(m).0.lexer.indent && line_token_step(m).0.pos == m.syms.len(),
        line_token_step(m).1 is Some ==> m.pos < line_token_step(m).0.pos,
{
    lemma_run_end_bounds(m.syms, m.pos, SymClass::Blank);
    let k = run_end(m.syms, m.pos, SymClass::Blank);
    if k < m.syms.len() {
        lemma_line_scan_bounds(m.syms, k);
    }
}

/// The line lexer returns `None` exactly when it has dropped the rest of the line, and
/// then the next call starts a new line; every other result besides `Indent` and `Dedent`
/// reads at least one symbol.
pub proof fn lemma_line_step_progress(m: LexTokensModel)
    requires
        tokens_wf(m),
    ensures
        line_step(m).1 is None ==> line_step(m).0.lexer.indent && line_step(m).0.pos == m.syms.len(),
        line_step(m).1 matches Some(r) && r != Ok::<TokenModel, LexError>(TokenOf::Indent) && r != Ok::<
            TokenModel,
            LexError,
        >(TokenOf::Dedent) ==> m.pos < line_step(m).0.pos,
{
    reveal(line_step);
    if m.lexer.indent {
        let st = line_style(m);
        if st != TabStyle::Unknown && m.pos <= m.syms.len() {
            lemma_run_end_bounds(m.syms, m.pos, SymClass::Char(style_char(st)));
            lemma_run_end_sub(m.syms, m.pos, SymClass::Char(style_char(st)), SymClass::Blank);
        }
        let mm = if st == TabStyle::Unknown {
            m.pos
        } else {
            run_end(m.syms, m.pos, SymClass::Char(style_char(st)))
        };
        if mm < m.syms.len() && in_class(SymClass::Blank, m.syms[mm]) {
            lemma_run_end_bounds(m.syms, mm, SymClass::Blank);
        } else if !(mm >= m.syms.len() || ends_line(m.syms[mm])) {
            let m1 = LexTokensModel {
                lexer: LineLexerModel { indent: false, style: st, ..m.lexer },
                start: m.end,
                ..m
            };
            let m2 = LexTokensModel { pos: mm, end: m.end + offset(m.syms, mm) - offset(m.syms, m.pos), ..m1 };
            let m3 = with_lexer(m2, LineLexerModel { level: (mm - m.pos) as usize, ..m2.lexer });
            lemma_offset_mono(m.syms, mm, m.syms.len() as int);
            lemma_offset_mono(m.syms, m.pos, mm);
            lemma_line_token_progress(m3);
        }
    } else {
        lemma_line_token_progress(m);
    }
}

/// The value of a line lexer result.
pub open spec fn line_result_view(r: Option<Result<Token, LexError>>) -> Option<Result<TokenModel, LexError>> {
    match r {
        Some(Ok(t)) => Some(Ok(t@)),
        Some(Err(e)) => Some(Err(e)),
        None => None,
    }
}

pub open spec fn line_token_view(r: Result<Token, LexError>) -> Result<TokenModel, LexError> {
    match r {
        Ok(t) => Ok(t@),
        Err(e) => Err(e),
    }
}

/// How many open levels lie above the current line's level (the dedents still owed).
pub open spec fn levels_above(levels: Seq<usize>, level: usize) -> nat
    decreases levels.len(),
{
    if levels.len() == 0 {
        0
    } else if levels.last() > level {
        1 + levels_above(levels.drop_last(), level)
    } else {
        0
    }
}

/// What is left of a line to read: its symbols (counted twice, and once more before its
/// indentation is measured).
pub open spec fn line_work(m: LexTokensModel) -> int {
    2 * (m.syms.len() - m.pos) + if m.lexer.indent { 1int } else { 0int }
}

/// The dedents still owed on the current line.
pub open spec fn line_closes(m: LexTokensModel) -> nat {
    levels_above(m.lexer.levels, m.lexer.level)
}

/// Whether an indent is still owed on the current line.
pub open spec fn line_opens(m: LexTokensModel) -> nat {
    let last: int = if m.lexer.levels.len() > 0 { m.lexer.levels.last() as int } else { 0 };
    if m.lexer.level > last { 1 } else { 0 }
}

/// `a` has less left to read than `b`, in the order work, closes, opens.
pub open spec fn line_less(a: LexTokensModel, b: LexTokensModel) -> bool {
    ||| line_work(a) < line_work(b)
    ||| line_work(a) == line_work(b) && line_closes(a) < line_closes(b)
    ||| line_work(a) == line_work(b) && line_closes(a) == line_closes(b) && line_opens(a) < line_opens(b)
}

/// Each token the line lexer gives leaves less of the line to read, so reading a line
/// to its end terminates.
pub proof fn lemma_line_step_less(m: LexTokensModel)
    requires
        tokens_wf(m),
    ensures
        line_step(m).1 is Some ==> line_less(line_step(m).0, m),
        line_work(line_step(m).0) >= 0,
        line_step(m).0.syms == m.syms,
{
    reveal(line_step);
    lemma_line_step_progress(m);
    if m.lexer.indent {
        let st = line_style(m);
        let mm = if st == TabStyle::Unknown {
            m.pos
        } else {
            run_end(m.syms, m.pos, SymClass::Char(style_char(st)))
        };
        if st != TabStyle::Unknown {
            lemma_run_end_bounds(m.syms, m.pos, SymClass::Char(style_char(st)));
        }
        if mm < m.syms.len() && in_class(SymClass::Blank, m.syms[mm]) {
            lemma_run_end_bounds(m.syms, mm, SymClass::Blank);
        } else if !(mm >= m.syms.len() || ends_line(m.syms[mm])) {
            let m1 = LexTokensModel {
                lexer: LineLexerModel { indent: false, style: st, ..m.lexer },
                start: m.end,
                ..m
            };
            let m2 = LexTokensModel { pos: mm, end: m.end + offset(m.syms, mm) - offset(m.syms, m.pos), ..m1 };
            let m3 = with_lexer(m2, LineLexerModel { level: (mm - m.pos) as usize, ..m2.lexer });
            lemma_level_step_less(m3);
        }
    } else {
        lemma_level_step_less(m);
    }
}

proof fn lemma_level_step_less(m: LexTokensModel)
    requires
        0 <= m.pos <= m.syms.len(),
        !m.lexer.indent,
    ensures
        line_level_step(m).1 is Some ==> line_less(line_level_step(m).0, m),
        line_level_step(m).1 is Some ==> line_work(line_level_step(m).0) <= line_work(m),
        line_work(line_level_step(m).0) >= 0,
{
    let levels = m.lexer.levels;
    let last: int = if levels.len() > 0 { levels.last() as int } else { 0 };
    let level = m.lexer.level;
    if level < last {
        let m2 = line_level_step(m).0;
        assert(m2.lexer.levels == levels.drop_last());
        assert(line_closes(m) == 1 + line_closes(m2));
    } else if level > last {
        let m2 = line_level_step(m).0;
        assert(m2.lexer.levels == levels.push(level));
        assert(m2.lexer.levels.drop_last() == levels);
        assert(line_closes(m2) == 0);
        if levels.len() > 0 {
            assert(!(levels.last() > level));
        }
        assert(line_closes(m) == 0);
    } else {
        let k = run_end(m.syms, m.pos, SymClass::Blank);
        lemma_run_end_bounds(m.syms, m.pos, SymClass::Blank);
        if k < m.syms.len() && !ends_line(m.syms[k]) {
            lemma_line_scan_bounds(m.syms, k);
        }
    }
}

/// The tokens of the rest of a line, each with the byte span the lexer gives it, and the
/// lexer's state after the line.
pub open spec fn line_tokens(m: LexTokensModel) -> (Seq<(Result<TokenModel, LexError>, Span)>, LexTokensModel)
    decreases line_work(m), line_closes(m), line_opens(m),
{
    if !tokens_wf(m) {
        (Seq::empty(), m)
    } else {
        let (m1, r) = line_step(m);
        match r {
            None => (Seq::empty(), m1),
            Some(t) => {
                proof {
                    lemma_line_step_less(m);
                }
                let (rest, m2) = line_tokens(m1);
                (seq![(t, Span { start: m1.start as usize, end: m1.end as usize })] + rest, m2)
            },
        }
    }
}


/// Within a line (its indentation dealt with and matching the innermost open level), a
/// symbol that is one of the characters `+ / % . , ; ? ( ) { } [ ]` is read as the token
/// of that character alone: `+` adds, `/` divides, `%` takes the remainder, and so on.
pub proof fn lemma_single_symbols(m: LexTokensModel, c: char)
    requires
        tokens_wf(m),
        !m.lexer.indent,
        m.lexer.level as int == (if m.lexer.levels.len() > 0 {
            m.lexer.levels.last() as int
        } else {
            0
        }),
        0 <= m.pos < m.syms.len(),
        m.syms[m.pos] == seq![c],
    ensures
        c == '+' ==> line_step(m).1 == Some(Ok::<TokenModel, LexError>(TokenOf::Add)),
        c == '/' ==> line_step(m).1 == Some(Ok::<TokenModel, LexError>(TokenOf::Div)),
        c == '%' ==> line_step(m).1 == Some(Ok::<TokenModel, LexError>(TokenOf::Modulo)),
        c == '.' ==> line_step(m).1 == Some(Ok::<TokenModel, LexError>(TokenOf::Period)),
        c == ',' ==> line_step(m).1 == Some(Ok::<TokenModel, LexError>(TokenOf::Comma)),
        c == ';' ==> line_step(m).1 == Some(Ok::<TokenModel, LexError>(TokenOf::SemiColon)),
        c == '?' ==> line_step(m).1 == Some(Ok::<TokenModel, LexError>(TokenOf::Question)),
        c == '(' ==> line_step(m).1 == Some(Ok::<TokenModel, LexError>(TokenOf::OpenParen)),
        c == ')' ==> line_step(m).1 == Some(Ok::<TokenModel, LexError>(TokenOf::CloseParen)),
        c == '{' ==> line_step(m).1 == Some(Ok::<TokenModel, LexError>(TokenOf::OpenCurly)),
        c == '}' ==> line_step(m).1 == Some(Ok::<TokenModel, LexError>(TokenOf::CloseCurly)),
        c == '[' ==> line_step(m).1 == Some(Ok::<TokenModel, LexError>(TokenOf::OpenSquare)),
        c == ']' ==> line_step(m).1 == Some(Ok::<TokenModel, LexError>(TokenOf::CloseSquare)),
        c == '+' || c == '/' || c == '%' || c == '.' || c == ',' || c == ';' || c == '?' || c == '(' || c == ')' || c == '{' || c == '}' || c == '[' || c == ']' ==> line_step(m).0.pos == m.pos + 1,
{
    reveal(line_step);
    assert(seq![c].len() == 1 && seq![c][0] == c);
    assert(run_end(m.syms, m.pos, SymClass::Blank) == m.pos || c == ' ' || c == '\t');
}


/// Within a line, a symbol that may take a second character is read with it when it
/// follows, and alone otherwise: `->`/`-`, `**`/`*`, `<=`/`<`, `>=`/`>`, `!=`/`!`,
/// `:=`/`:`, and `==`, `=>`, `=`.
pub proof fn lemma_pair_symbols(m: LexTokensModel, c: char)
    requires
        tokens_wf(m),
        !m.lexer.indent,
        m.lexer.level as int == (if m.lexer.levels.len() > 0 {
            m.lexer.levels.last() as int
        } else {
            0
        }),
        0 <= m.pos < m.syms.len(),
        m.syms[m.pos] == seq![c],
    ensures
        c == '-' && (m.pos + 1 < m.syms.len() && m.syms[m.pos + 1] == seq!['>']) ==> line_step(m).1 == Some(Ok::<TokenModel, LexError>(TokenOf::Arrow)) && line_step(m).0.pos == m.pos + 2,
        c == '-' && !(m.pos + 1 < m.syms.len() && m.syms[m.pos + 1] == seq!['>']) ==> line_step(m).1 == Some(Ok::<TokenModel, LexError>(TokenOf::Sub)) && line_step(m).0.pos == m.pos + 1,
        c == '*' && (m.pos + 1 < m.syms.len() && m.syms[m.pos + 1] == seq!['*']) ==> line_step(m).1 == Some(Ok::<TokenModel, LexError>(TokenOf::Pow)) && line_step(m).0.pos == m.pos + 2,
        c == '*' && !(m.pos + 1 < m.syms.len() && m.syms[m.pos + 1] == seq!['*']) ==> line_step(m).1 == Some(Ok::<TokenModel, LexError>(TokenOf::Mul)) && line_step(m).0.pos == m.pos + 1,
        c == '<' && (m.pos + 1 < m.syms.len() && m.syms[m.pos + 1] == seq!['=']) ==> line_step(m).1 == Some(Ok::<TokenModel, LexError>(TokenOf::LtEq)) && line_step(m).0.pos == m.pos + 2,
        c == '<' && !(m.pos + 1 < m.syms.len() && m.syms[m.pos + 1] == seq!['=']) ==> line_step(m).1 == Some(Ok::<TokenModel, LexError>(TokenOf::Lt)) && line_step(m).0.pos == m.pos + 1,
        c == '>' && (m.pos + 1 < m.syms.len() && m.syms[m.pos + 1] == seq!['=']) ==> line_step(m).1 == Some(Ok::<TokenModel, LexError>(TokenOf::GtEq)) && line_step(m).0.pos == m.pos + 2,
        c == '>' && !(m.pos + 1 < m.syms.len() && m.syms[m.pos + 1] == seq!['=']) ==> line_step(m).1 == Some(Ok::<TokenModel, LexError>(TokenOf::Gt)) && line_step(m).0.pos == m.pos + 1,
        c == '!' && (m.pos + 1 < m.syms.len() && m.syms[m.pos + 1] == seq!['=']) ==> line_step(m).1 == Some(Ok::<TokenModel, LexError>(TokenOf::NEq)) && line_step(m).0.pos == m.pos + 2,
        c == '!' && !(m.pos + 1 < m.syms.len() && m.syms[m.pos + 1] == seq!['=']) ==> line_step(m).1 == Some(Ok::<TokenModel, LexError>(TokenOf::Not)) && line_step(m).0.pos == m.pos + 1,
        c == ':' && (m.pos + 1 < m.syms.len() && m.syms[m.pos + 1] == seq!['=']) ==> line_step(m).1 == Some(Ok::<TokenModel, LexError>(TokenOf::Walrus)) && line_step(m).0.pos == m.pos + 2,
        c == ':' && !(m.pos + 1 < m.syms.len() && m.syms[m.pos + 1] == seq!['=']) ==> line_step(m).1 == Some(Ok::<TokenModel, LexError>(TokenOf::Colon)) && line_step(m).0.pos == m.pos + 1,
        c == '=' && (m.pos + 1 < m.syms.len() && m.syms[m.pos + 1] == seq!['=']) ==> line_step(m).1 == Some(Ok::<TokenModel, LexError>(TokenOf::Eq)),
        c == '=' && (m.pos + 1 < m.syms.len() && m.syms[m.pos + 1] == seq!['>']) ==> line_step(m).1 == Some(Ok::<TokenModel, LexError>(TokenOf::FatArrow)),
        c == '=' && !(m.pos + 1 < m.syms.len() && m.syms[m.pos + 1] == seq!['=']) && !(m.pos + 1 < m.syms.len() && m.syms[m.pos + 1] == seq!['>']) ==> line_step(m).1 == Some(Ok::<TokenModel, LexError>(TokenOf::Assign)),
{
    reveal(line_step);
    assert(seq![c].len() == 1 && seq![c][0] == c);
    assert(run_end(m.syms, m.pos, SymClass::Blank) == m.pos || c == ' ' || c == '\t');
    if m.pos + 1 < m.syms.len() {
        assert(m.syms[m.pos + 1] == seq![m.syms[m.pos + 1][0]] || m.syms[m.pos + 1].len() != 1);
    }
}

/// Within a line, a word (a letter or `_`, then letters, digits or `_`, up to the first
/// other symbol) is read whole as its keyword: `none`, `true`, `false`, `not`, `and`,
/// `or`, `let`, `fn`, `if`, `else`, `while`, `static`, `const`; any other word is a name.
pub proof fn lemma_words(m: LexTokensModel, w: Seq<char>)
    requires
        tokens_wf(m),
        !m.lexer.indent,
        m.lexer.level as int == (if m.lexer.levels.len() > 0 {
            m.lexer.levels.last() as int
        } else {
            0
        }),
        0 < w.len(),
        0 <= m.pos,
        m.pos + w.len() <= m.syms.len(),
        forall|a: int| 0 <= a < w.len() ==> #[trigger] m.syms[m.pos + a] == seq![w[a]],
        char_in(CharKind::IdentStart, w[0]),
        forall|a: int| 0 <= a < w.len() ==> char_in(CharKind::IdentTail, #[trigger] w[a]),
        m.pos + w.len() < m.syms.len() ==> !in_class(SymClass::IdentTail, m.syms[m.pos + w.len()]),
    ensures
        line_step(m).0.pos == m.pos + w.len(),
        w == seq!['n', 'o', 'n', 'e'] ==> line_step(m).1 == Some(Ok::<TokenModel, LexError>(TokenOf::NoneValue)),
        w == seq!['t', 'r', 'u', 'e'] ==> line_step(m).1 == Some(Ok::<TokenModel, LexError>(TokenOf::Bool(true))),
        w == seq!['f', 'a', 'l', 's', 'e'] ==> line_step(m).1 == Some(Ok::<TokenModel, LexError>(TokenOf::Bool(false))),
        w == seq!['n', 'o', 't'] ==> line_step(m).1 == Some(Ok::<TokenModel, LexError>(TokenOf::Not)),
        w == seq!['a', 'n', 'd'] ==> line_step(m).1 == Some(Ok::<TokenModel, LexError>(TokenOf::And)),
        w == seq!['o', 'r'] ==> line_step(m).1 == Some(Ok::<TokenModel, LexError>(TokenOf::Or)),
        w == seq!['l', 'e', 't'] ==> line_step(m).1 == Some(Ok::<TokenModel, LexError>(TokenOf::Let)),
        w == seq!['f', 'n'] ==> line_step(m).1 == Some(Ok::<TokenModel, LexError>(TokenOf::Fn)),
        w == seq!['i', 'f'] ==> line_step(m).1 == Some(Ok::<TokenModel, LexError>(TokenOf::If)),
        w == seq!['e', 'l', 's', 'e'] ==> line_step(m).1 == Some(Ok::<TokenModel, LexError>(TokenOf::Else)),
        w == seq!['w', 'h', 'i', 'l', 'e'] ==> line_step(m).1 == Some(Ok::<TokenModel, LexError>(TokenOf::While)),
        w == seq!['s', 't', 'a', 't', 'i', 'c'] ==> line_step(m).1 == Some(Ok::<TokenModel, LexError>(TokenOf::Static)),
        w == seq!['c', 'o', 'n', 's', 't'] ==> line_step(m).1 == Some(Ok::<TokenModel, LexError>(TokenOf::Const)),
        w != seq!['n', 'o', 'n', 'e'] && w != seq!['t', 'r', 'u', 'e'] && w != seq!['f', 'a', 'l', 's', 'e']
            && w != seq!['n', 'o', 't'] && w != seq!['a', 'n', 'd'] && w != seq!['o', 'r'] && w != seq!['l', 'e', 't']
            && w != seq!['f', 'n'] && w != seq!['i', 'f'] && w != seq!['e', 'l', 's', 'e']
            && w != seq!['w', 'h', 'i', 'l', 'e'] && w != seq!['s', 't', 'a', 't', 'i', 'c']
            && w != seq!['c', 'o', 'n', 's', 't'] ==> line_step(m).1 == Some(Ok::<TokenModel, LexError>(TokenOf::Ident(w))),
{
    reveal(line_step);
    let c = w[0];
    assert(m.syms[m.pos + 0] == seq![c]);
    assert(seq![c].len() == 1 && seq![c][0] == c);
    assert(all_in(CharKind::IdentStart, m.syms[m.pos]));
    assert(run_end(m.syms, m.pos, SymClass::Blank) == m.pos);
    let e = m.pos + w.len();
    assert forall|k: int| m.pos + 1 <= k < e implies in_class(SymClass::IdentTail, #[trigger] m.syms[k]) by {
        let a = k - m.pos;
        assert(m.syms[m.pos + a] == seq![w[a]]);
        assert(char_in(CharKind::IdentTail, w[a]));
        assert(seq![w[a]].len() == 1 && seq![w[a]][0] == w[a]);
    }
    lemma_run_end_at(m.syms, m.pos + 1, e, SymClass::IdentTail);
    lemma_concat_chars(m.syms, m.pos, w, w.len() as int);
    assert(w.subrange(0, w.len() as int) =~= w);
}

/// At the start of a line, a line that holds only spaces or tabs followed by a comment or
/// a line break, or that holds nothing, gives no token and is dropped whole: the open
/// indentation levels and the current level are left as they were, so no `Indent` or
/// `Dedent` comes of it. (Blanks that mix with the indentation style and run to the end
/// of the text with no line break are an indentation error instead.)
pub proof fn lemma_blank_lines(m: LexTokensModel, j: int)
    requires
        tokens_wf(m),
        m.lexer.indent,
        m.pos <= j <= m.syms.len(),
        forall|k: int| m.pos <= k < j ==> #[trigger] m.syms[k] == seq![' '] || m.syms[k] == seq!['\t'],
        j < m.syms.len() ==> is_newline(m.syms[j]) || m.syms[j] == seq!['#'],
        j < m.syms.len() || j == m.pos,
    ensures
        line_step(m).1 is None,
        line_step(m).0.lexer.levels == m.lexer.levels,
        line_step(m).0.lexer.level == m.lexer.level,
        line_step(m).0.lexer.indent,
        line_step(m).0.pos == m.syms.len(),
{
    reveal(line_step);
    assert(seq![' '].len() == 1 && seq![' '][0] == ' ');
    assert(seq!['\t'].len() == 1 && seq!['\t'][0] == '\t');
    assert(seq!['#'].len() == 1 && seq!['#'][0] == '#');
    assert forall|k: int| m.pos <= k < j implies in_class(SymClass::Blank, #[trigger] m.syms[k]) by {}
    let st = line_style(m);
    let mm = if st == TabStyle::Unknown {
        m.pos
    } else {
        run_end(m.syms, m.pos, SymClass::Char(style_char(st)))
    };
    if st != TabStyle::Unknown {
        lemma_run_end_bounds(m.syms, m.pos, SymClass::Char(style_char(st)));
        lemma_run_members(m.syms, m.pos, SymClass::Char(style_char(st)));
        if mm > j {
            assert(in_class(SymClass::Char(style_char(st)), m.syms[j]));
        }
    }
    assert(mm <= j);
    if mm < j {
        assert(in_class(SymClass::Blank, m.syms[mm]));
        assert forall|k: int| mm <= k < j implies in_class(SymClass::Blank, #[trigger] m.syms[k]) by {}
        lemma_run_end_at(m.syms, mm, j, SymClass::Blank);
    } else if mm < m.syms.len() {
        assert(!in_class(SymClass::Blank, m.syms[mm]));
    }
}

} // verus!
