//! The indentation lexer: turns source text into tokens, emitting `Indent` and
//! `Dedent` tokens as the indentation of lines rises and falls.
use vstd::prelude::*;
use vstd::utf8::encode_utf8;

use crate::span::Span;
use crate::symbols::{
    all_chars, all_in, char_in, concat, lemma_concat_chars, lemma_run_end_at, lemma_run_end_bounds, lemma_run_members, count_char, grapheme_clusters, in_class, is_char, is_newline, join_symbols,
    lemma_offset_mono, lemma_offset_step, newline_symbol, offset, run_end, single_char,
    split_graphemes, sym_is, sym_views, symbol_in, same_text, CharKind, SymClass, lemma_encode_append,
};
use crate::token::{Token, TokenModel};

verus! {

/// Errors the lexer reports in place of a token.
#[derive(Debug, Clone, Copy, PartialEq, Eq, Structural, PartialOrd, Ord, Hash)]
pub enum LexerError {
    InvalidSymbol,
    MixedIndent,
    UnclosedString,
}

/// The characters a source indents its lines with.
#[derive(Debug, Clone, Copy, PartialEq, Eq, Structural, PartialOrd, Ord, Hash)]
pub enum IndentStyle {
    Spaces,
    Tabs,
}

/// Indentation state that persists from one lexed text to the next.
pub struct LexerState {
    indent_levels: Vec<usize>,
    indent_style: Option<IndentStyle>,
    line_level: Option<usize>,
}

/// The value of a [`LexerState`]: the stack of open indentation levels, the
/// indentation style once known, and the level of the current line once measured.
pub struct LexerStateModel {
    pub levels: Seq<usize>,
    pub style: Option<IndentStyle>,
    pub line_level: Option<usize>,
}

/// Open indentation levels rise strictly and are all positive.
pub open spec fn levels_wf(levels: Seq<usize>) -> bool {
    &&& forall|i: int, j: int| 0 <= i < j < levels.len() ==> levels[i] < levels[j]
    &&& levels.len() > 0 ==> levels[0] > 0
}

impl View for LexerState {
    type V = LexerStateModel;

    closed spec fn view(&self) -> LexerStateModel {
        LexerStateModel {
            levels: self.indent_levels@,
            style: self.indent_style,
            line_level: self.line_level,
        }
    }
}

impl Default for LexerState {
    fn default() -> (s: Self)
        ensures
            s@.levels == Seq::<usize>::empty(),
            s@.style is None,
            s@.line_level is None,
    {
        LexerState { indent_levels: Vec::new(), indent_style: None, line_level: None }
    }
}

impl LexerState {
    pub open spec fn wf(&self) -> bool {
        levels_wf(self@.levels)
    }

    /// A state with no open indentation and no indentation style yet.
    pub fn new() -> (s: Self)
        ensures
            s.wf(),
            s@.levels == Seq::<usize>::empty(),
            s@.style is None,
            s@.line_level is None,
    {
        Self::default()
    }

    /// A state with no open indentation whose lines must indent with `style`.
    pub fn with_style(style: IndentStyle) -> (s: Self)
        ensures
            s.wf(),
            s@.levels == Seq::<usize>::empty(),
            s@.style == Some(style),
            s@.line_level is None,
    {
        let d = Self::default();
        LexerState { indent_style: Some(style), ..d }
    }

    /// The number of open indentation levels.
    pub fn indent_depth(&self) -> (n: usize)
        ensures
            n == self@.levels.len(),
    {
        self.indent_levels.len()
    }

    /// The indentation style, once known.
    pub fn indent_style(&self) -> (s: Option<IndentStyle>)
        ensures
            s == self@.style,
    {
        self.indent_style
    }

    /// Treats the current line as having level 0, so that lexing closes every open block.
    pub fn close_blocks(&mut self)
        ensures
            final(self)@.levels == old(self)@.levels,
            final(self)@.style == old(self)@.style,
            final(self)@.line_level == Some(0usize),
    {
        self.line_level = Some(0);
    }

    /// Starts lexing `source` from this state.
    pub fn lex(self, source: &str) -> (lexer: Lexer)
        requires
            self.wf(),
        ensures
            lexer.wf(),
            lexer@.state == self@,
            lexer@.syms == grapheme_clusters(source@),
            concat(lexer@.syms, 0, lexer@.syms.len() as int) == source@,
            source@.len() == 0 ==> lexer@.syms.len() == 0,
            lexer@.pos == 0,
            lexer@.start == 0,
            lexer@.end == 0,
    {
        let symbols = split_graphemes(source);
        proof {
            let v = sym_views(symbols@);
            let n = symbols@.len() as int;
            if n > 0 {
                assert(symbols@[n - 1]@.len() > 0);
                assert(concat(v, 0, n) == concat(v, 0, n - 1) + v[n - 1]);
            }
        }
        Lexer { state: self, symbols, pos: 0, span: Span::new(0, 0) }
    }
}

/// A lexer over one source text.
pub struct Lexer {
    state: LexerState,
    symbols: Vec<String>,
    pos: usize,
    span: Span,
}

/// The value of a [`Lexer`]: its state, the symbols of its source, the index of the
/// next unread symbol, and the byte span of the last token.
pub struct LexerModel {
    pub state: LexerStateModel,
    pub syms: Seq<Seq<char>>,
    pub pos: int,
    pub start: int,
    pub end: int,
}

impl View for Lexer {
    type V = LexerModel;

    closed spec fn view(&self) -> LexerModel {
        LexerModel {
            state: self.state@,
            syms: sym_views(self.symbols@),
            pos: self.pos as int,
            start: self.span.start as int,
            end: self.span.end as int,
        }
    }
}

/// A consistent lexer value: the read position lies in the source, the span ends at the
/// read position's byte offset, and the open indentation levels are well formed.
pub open spec fn model_wf(m: LexerModel) -> bool {
    &&& levels_wf(m.state.levels)
    &&& 0 <= m.pos <= m.syms.len()
    &&& 0 <= m.start <= m.end
    &&& m.end == offset(m.syms, m.pos)
    &&& offset(m.syms, m.syms.len() as int) <= usize::MAX
}

/// The lexer after reading up to symbol `b`, with its span covering symbols `a..b`.
pub open spec fn moved(m: LexerModel, a: int, b: int) -> LexerModel {
    LexerModel { pos: b, start: offset(m.syms, a) as int, end: offset(m.syms, b) as int, ..m }
}

pub open spec fn with_state(m: LexerModel, s: LexerStateModel) -> LexerModel {
    LexerModel { state: s, ..m }
}

pub open spec fn line_level_set(m: LexerModel, l: Option<usize>) -> LexerModel {
    with_state(m, LexerStateModel { line_level: l, ..m.state })
}

/// The level and style a line gets from its leading tabs and spaces, or `None` when the
/// indentation mixes tabs and spaces (with each other or with the known style).
pub open spec fn indent_level(style: Option<IndentStyle>, tabs: nat, spaces: nat) -> Option<
    (Option<IndentStyle>, nat),
> {
    match style {
        Some(IndentStyle::Spaces) => if tabs > 0 {
            None
        } else {
            Some((style, spaces))
        },
        Some(IndentStyle::Tabs) => if spaces > 0 {
            None
        } else {
            Some((style, tabs))
        },
        None => if spaces == 0 && tabs == 0 {
            Some((None, 0nat))
        } else if spaces == 0 {
            Some((Some(IndentStyle::Tabs), tabs))
        } else if tabs == 0 {
            Some((Some(IndentStyle::Spaces), spaces))
        } else {
            None
        },
    }
}

/// The token an identifier-like word stands for.
pub open spec fn word_token(w: Seq<char>) -> TokenModel {
    if w == seq!['n', 'o', 'n', 'e'] {
        TokenModel::NoneValue
    } else if w == seq!['t', 'r', 'u', 'e'] {
        TokenModel::Bool(true)
    } else if w == seq!['f', 'a', 'l', 's', 'e'] {
        TokenModel::Bool(false)
    } else if w == seq!['i', 'f'] {
        TokenModel::If
    } else if w == seq!['w', 'h', 'i', 'l', 'e'] {
        TokenModel::While
    } else if w == seq!['f', 'n'] {
        TokenModel::Fn
    } else {
        TokenModel::Ident(w)
    }
}

/// Tokens of a single character.
pub open spec fn single_token(c: char) -> Option<TokenModel> {
    if c == '+' {
        Some(TokenModel::Add)
    } else if c == '-' {
        Some(TokenModel::Sub)
    } else if c == '/' {
        Some(TokenModel::Div)
    } else if c == '%' {
        Some(TokenModel::Mod)
    } else if c == '.' {
        Some(TokenModel::Dot)
    } else if c == ',' {
        Some(TokenModel::Comma)
    } else if c == '?' {
        Some(TokenModel::Question)
    } else if c == '(' {
        Some(TokenModel::OpenParen)
    } else if c == ')' {
        Some(TokenModel::CloseParen)
    } else if c == '[' {
        Some(TokenModel::OpenSquare)
    } else if c == ']' {
        Some(TokenModel::CloseSquare)
    } else {
        None
    }
}

/// Tokens that start with `c` and may take a second character `second`:
/// (second, token with it, token without it; `None` there is an invalid symbol).
pub open spec fn pair_token(c: char) -> Option<(char, TokenModel, Option<TokenModel>)> {
    if c == '*' {
        Some(('*', TokenModel::Pow, Some(TokenModel::Mul)))
    } else if c == '=' {
        Some(('=', TokenModel::Eq, Some(TokenModel::Assign)))
    } else if c == '!' {
        Some(('=', TokenModel::NEq, Some(TokenModel::Not)))
    } else if c == '<' {
        Some(('=', TokenModel::LtEq, Some(TokenModel::Lt)))
    } else if c == '>' {
        Some(('=', TokenModel::GtEq, Some(TokenModel::Gt)))
    } else if c == '&' {
        Some(('&', TokenModel::And, None))
    } else if c == '|' {
        Some(('|', TokenModel::Or, None))
    } else if c == ':' {
        Some((':', TokenModel::DoubleColon, Some(TokenModel::Colon)))
    } else {
        None
    }
}

/// A number starting at symbol `k`: where it ends and its token.
pub open spec fn number_token(syms: Seq<Seq<char>>, k: int) -> (int, TokenModel) {
    let e1 = run_end(syms, k + 1, SymClass::Digit);
    if sym_is(syms, e1, '.') {
        let e2 = run_end(syms, e1 + 1, SymClass::Digit);
        if sym_is(syms, e2, 'f') {
            (e2 + 1, TokenModel::Float(concat(syms, k, e2)))
        } else {
            (e2, TokenModel::Float(concat(syms, k, e2)))
        }
    } else if sym_is(syms, e1, 'f') {
        (e1 + 1, TokenModel::Float(concat(syms, k, e1)))
    } else {
        (e1, TokenModel::Int(concat(syms, k, e1)))
    }
}

/// The token that starts at symbol `k` (neither blank nor a line break), and the index
/// just after it.
pub open spec fn scan_token(syms: Seq<Seq<char>>, k: int) -> (int, Result<TokenModel, LexerError>) {
    let s = syms[k];
    let p = k + 1;
    if is_char(s, '#') {
        let e = run_end(syms, p, SymClass::LineBody);
        (e, Ok(TokenModel::Comment(concat(syms, k, e))))
    } else if s.len() == 1 && single_token(s[0]) is Some {
        (p, Ok(single_token(s[0])->0))
    } else if s.len() == 1 && pair_token(s[0]) is Some {
        let (second, two, one) = pair_token(s[0])->0;
        if sym_is(syms, p, second) {
            (p + 1, Ok(two))
        } else {
            match one {
                Some(t) => (p, Ok(t)),
                None => (p, Err(LexerError::InvalidSymbol)),
            }
        }
    } else if is_char(s, '\'') || is_char(s, '"') {
        let e = run_end(syms, p, SymClass::StringBody(s[0]));
        if sym_is(syms, e, s[0]) {
            (e + 1, Ok(TokenModel::Str(concat(syms, p, e))))
        } else {
            (e, Err(LexerError::UnclosedString))
        }
    } else if all_in(CharKind::IdentStart, s) {
        let e = run_end(syms, p, SymClass::IdentTail);
        (e, Ok(word_token(concat(syms, k, e))))
    } else if all_in(CharKind::Digit, s) {
        let (e, t) = number_token(syms, k);
        (e, Ok(t))
    } else {
        (p, Err(LexerError::InvalidSymbol))
    }
}

/// Reading a token once the line's indentation is dealt with: blanks are skipped; the
/// end of the text ends the line; a line break ends the line and is a `Newline`.
pub open spec fn token_step(m: LexerModel) -> (LexerModel, Option<Result<TokenModel, LexerError>>) {
    let k = run_end(m.syms, m.pos, SymClass::Blank);
    if k >= m.syms.len() {
        (line_level_set(moved(m, k, k), None), None)
    } else if is_newline(m.syms[k]) {
        (line_level_set(moved(m, k, k + 1), None), Some(Ok(TokenModel::Newline)))
    } else {
        let (e, r) = scan_token(m.syms, k);
        (moved(m, k, e), Some(r))
    }
}

/// With the line's level known: close one level (`Dedent`), open it (`Indent`), or read
/// a token once the innermost open level equals it.
pub open spec fn level_step(m: LexerModel, level: usize) -> (LexerModel, Option<
    Result<TokenModel, LexerError>,
>) {
    let levels = m.state.levels;
    let last: int = if levels.len() > 0 { levels.last() as int } else { 0 };
    if last > level {
        (with_state(m, LexerStateModel { levels: levels.drop_last(), ..m.state }), Some(Ok(TokenModel::Dedent)))
    } else if last < level {
        (with_state(m, LexerStateModel { levels: levels.push(level), ..m.state }), Some(Ok(TokenModel::Indent)))
    } else {
        token_step(m)
    }
}

/// At the start of a line: measure its indentation. Blank lines, comment lines and the
/// end of the text leave the indentation untouched.
pub open spec fn indent_step(m: LexerModel) -> (LexerModel, Option<Result<TokenModel, LexerError>>) {
    let j = run_end(m.syms, m.pos, SymClass::Blank);
    if j >= m.syms.len() {
        (moved(m, j, j), None)
    } else if is_newline(m.syms[j]) {
        (moved(m, j, j + 1), Some(Ok(TokenModel::Newline)))
    } else if is_char(m.syms[j], '#') {
        let e = run_end(m.syms, j + 1, SymClass::LineBody);
        (moved(m, j, e), Some(Ok(TokenModel::Comment(concat(m.syms, j, e)))))
    } else {
        let tabs = count_char(m.syms, m.pos, j, '\t');
        let spaces = count_char(m.syms, m.pos, j, ' ');
        match indent_level(m.state.style, tabs, spaces) {
            None => (moved(m, m.pos, j), Some(Err(LexerError::MixedIndent))),
            Some((style, level)) => level_step(
                with_state(
                    moved(m, m.pos, j),
                    LexerStateModel { style, line_level: Some(level as usize), ..m.state },
                ),
                level as usize,
            ),
        }
    }
}

/// One call of [`Lexer::next_token`]: the lexer afterwards and what it returns.
#[verifier::opaque]
pub open spec fn step(m: LexerModel) -> (LexerModel, Option<Result<TokenModel, LexerError>>) {
    match m.state.line_level {
        Some(level) => level_step(m, level),
        None => indent_step(m),
    }
}


impl Lexer {
    /// The lexer is consistent (see [`model_wf`]).
    pub open spec fn wf(&self) -> bool {
        model_wf(self@)
    }

    /// Byte offset where the last token starts.
    pub fn token_start(&self) -> (n: usize)
        ensures
            n == self@.start,
    {
        self.span.start
    }

    /// Byte offset where the last token ends.
    pub fn token_end(&self) -> (n: usize)
        ensures
            n == self@.end,
    {
        self.span.end
    }

    /// Byte span of the last token.
    pub fn token_span(&self) -> (s: Span)
        ensures
            s.start == self@.start,
            s.end == self@.end,
    {
        self.span
    }

    /// Empty span at the start of the last token.
    pub fn token_start_span(&self) -> (s: Span)
        ensures
            s.start == self@.start,
            s.end == self@.start,
    {
        let start = self.span.start;
        Span::new(start, start)
    }

    /// Empty span at the end of the last token.
    pub fn token_end_span(&self) -> (s: Span)
        ensures
            s.start == self@.end,
            s.end == self@.end,
    {
        let end = self.span.end;
        Span::new(end, end)
    }

    /// Ends lexing and hands back the indentation state.
    pub fn into_state(self) -> (s: LexerState)
        requires
            self.wf(),
        ensures
            s.wf(),
            s@ == self@.state,
    {
        self.state
    }

    /// Reads one symbol.
    fn bump(&mut self)
        requires
            old(self).wf(),
            old(self)@.pos < old(self)@.syms.len(),
        ensures
            final(self).wf(),
            final(self)@ == (LexerModel {
                pos: old(self)@.pos + 1,
                end: offset(old(self)@.syms, old(self)@.pos + 1) as int,
                ..old(self)@
            }),
    {
        proof {
            lemma_offset_step(self@.syms, self@.pos);
            lemma_offset_mono(self@.syms, self@.pos + 1, self@.syms.len() as int);
        }
        let len = self.symbols.len();
        let n = self.symbols[self.pos].as_str().len();
        self.span.end = self.span.end + n;
        self.pos = self.pos + 1;
    }

    /// Reads symbols while they are in `class`.
    fn skip_class(&mut self, class: SymClass)
        requires
            old(self).wf(),
        ensures
            final(self).wf(),
            final(self)@ == (LexerModel {
                pos: run_end(old(self)@.syms, old(self)@.pos, class),
                end: offset(old(self)@.syms, run_end(old(self)@.syms, old(self)@.pos, class)) as int,
                ..old(self)@
            }),
            old(self)@.pos <= final(self)@.pos,
    {
        let ghost m0 = self@;
        while self.pos < self.symbols.len() && symbol_in(class, self.symbols[self.pos].as_str())
            invariant
                self.wf(),
                m0.pos <= self@.pos,
                run_end(self@.syms, self@.pos, class) == run_end(m0.syms, m0.pos, class),
                self@ == (LexerModel { pos: self@.pos, end: offset(m0.syms, self@.pos) as int, ..m0 }),
            decreases self.symbols.len() - self.pos,
        {
            self.bump();
        }
    }

    /// Reads blanks, counting the tabs and the spaces among them.
    fn skip_blank(&mut self) -> (counts: (usize, usize))
        requires
            old(self).wf(),
        ensures
            final(self).wf(),
            final(self)@ == (LexerModel {
                pos: run_end(old(self)@.syms, old(self)@.pos, SymClass::Blank),
                end: offset(old(self)@.syms, run_end(old(self)@.syms, old(self)@.pos, SymClass::Blank)) as int,
                ..old(self)@
            }),
            counts.0 == count_char(old(self)@.syms, old(self)@.pos, final(self)@.pos, '\t'),
            counts.1 == count_char(old(self)@.syms, old(self)@.pos, final(self)@.pos, ' '),
    {
        let ghost m0 = self@;
        let mut tabs: usize = 0;
        let mut spaces: usize = 0;
        while self.pos < self.symbols.len() && symbol_in(SymClass::Blank, self.symbols[self.pos].as_str())
            invariant
                self.wf(),
                0 <= m0.pos <= self@.pos,
                run_end(self@.syms, self@.pos, SymClass::Blank) == run_end(m0.syms, m0.pos, SymClass::Blank),
                self@ == (LexerModel { pos: self@.pos, end: offset(m0.syms, self@.pos) as int, ..m0 }),
                tabs == count_char(m0.syms, m0.pos, self@.pos, '\t'),
                spaces == count_char(m0.syms, m0.pos, self@.pos, ' '),
                tabs + spaces == self@.pos - m0.pos,
            decreases self.symbols.len() - self.pos,
        {
            let c = single_char(self.symbols[self.pos].as_str());
            if c == Some('\t') {
                tabs = tabs + 1;
            } else {
                spaces = spaces + 1;
            }
            self.bump();
        }
        (tabs, spaces)
    }

    /// Whether the next symbol is the single character `c`.
    fn peek_is(&self, c: char) -> (r: bool)
        requires
            self.wf(),
        ensures
            r == sym_is(self@.syms, self@.pos, c),
    {
        self.pos < self.symbols.len() && single_char(self.symbols[self.pos].as_str()) == Some(c)
    }

    /// The token for an identifier-like word.
    fn word(text: String) -> (t: Token)
        ensures
            t@ == word_token(text@),
    {
        if same_text(text.as_str(), &['n', 'o', 'n', 'e']) {
            Token::NoneValue
        } else if same_text(text.as_str(), &['t', 'r', 'u', 'e']) {
            Token::Bool(true)
        } else if same_text(text.as_str(), &['f', 'a', 'l', 's', 'e']) {
            Token::Bool(false)
        } else if same_text(text.as_str(), &['i', 'f']) {
            Token::If
        } else if same_text(text.as_str(), &['w', 'h', 'i', 'l', 'e']) {
            Token::While
        } else if same_text(text.as_str(), &['f', 'n']) {
            Token::Fn
        } else {
            Token::Ident(text)
        }
    }
}


/// The value of a token-or-error.
pub open spec fn token_result_view(r: Result<Token, LexerError>) -> Result<TokenModel, LexerError> {
    match r {
        Ok(t) => Ok(t@),
        Err(e) => Err(e),
    }
}

/// The lexer with its read position moved to `b`, span start unchanged.
pub open spec fn read_to(m: LexerModel, b: int) -> LexerModel {
    LexerModel { pos: b, end: offset(m.syms, b) as int, ..m }
}

impl Lexer {
    /// Reads a number whose first symbol, at `k`, was just read.
    fn number(&mut self, k: usize) -> (t: Token)
        requires
            old(self).wf(),
            k < old(self)@.syms.len(),
            old(self)@.pos == k + 1,
        ensures
            final(self).wf(),
            final(self)@ == read_to(old(self)@, number_token(old(self)@.syms, k as int).0),
            t@ == number_token(old(self)@.syms, k as int).1,
    {
        self.skip_class(SymClass::Digit);
        if self.peek_is('.') {
            self.bump();
            self.skip_class(SymClass::Digit);
            let text = join_symbols(&self.symbols, k, self.pos);
            if self.peek_is('f') {
                self.bump();
            }
            Token::Float(text)
        } else if self.peek_is('f') {
            let text = join_symbols(&self.symbols, k, self.pos);
            self.bump();
            Token::Float(text)
        } else {
            let text = join_symbols(&self.symbols, k, self.pos);
            Token::Int(text)
        }
    }

    /// Reads the token that starts at the next symbol, which is neither blank nor a line
    /// break.
    fn scan(&mut self) -> (r: Result<Token, LexerError>)
        requires
            old(self).wf(),
            old(self)@.pos < old(self)@.syms.len(),
        ensures
            final(self).wf(),
            final(self)@ == read_to(old(self)@, scan_token(old(self)@.syms, old(self)@.pos).0),
            token_result_view(r) == scan_token(old(self)@.syms, old(self)@.pos).1,
    {
        let k = self.pos;
        let c = single_char(self.symbols[k].as_str());
        self.bump();
        match c {
            Some('#') => {
                self.skip_class(SymClass::LineBody);
                let text = join_symbols(&self.symbols, k, self.pos);
                return Ok(Token::Comment(text));
            },
            Some('+') => return Ok(Token::Add),
            Some('-') => return Ok(Token::Sub),
            Some('/') => return Ok(Token::Div),
            Some('%') => return Ok(Token::Mod),
            Some('.') => return Ok(Token::Dot),
            Some(',') => return Ok(Token::Comma),
            Some('?') => return Ok(Token::Question),
            Some('(') => return Ok(Token::OpenParen),
            Some(')') => return Ok(Token::CloseParen),
            Some('[') => return Ok(Token::OpenSquare),
            Some(']') => return Ok(Token::CloseSquare),
            Some('*') => {
                if self.peek_is('*') {
                    self.bump();
                    return Ok(Token::Pow);
                }
                return Ok(Token::Mul);
            },
            Some('=') => {
                if self.peek_is('=') {
                    self.bump();
                    return Ok(Token::Eq);
                }
                return Ok(Token::Assign);
            },
            Some('!') => {
                if self.peek_is('=') {
                    self.bump();
                    return Ok(Token::NEq);
                }
                return Ok(Token::Not);
            },
            Some('<') => {
                if self.peek_is('=') {
                    self.bump();
                    return Ok(Token::LtEq);
                }
                return Ok(Token::Lt);
            },
            Some('>') => {
                if self.peek_is('=') {
                    self.bump();
                    return Ok(Token::GtEq);
                }
                return Ok(Token::Gt);
            },
            Some('&') => {
                if self.peek_is('&') {
                    self.bump();
                    return Ok(Token::And);
                }
                return Err(LexerError::InvalidSymbol);
            },
            Some('|') => {
                if self.peek_is('|') {
                    self.bump();
                    return Ok(Token::Or);
                }
                return Err(LexerError::InvalidSymbol);
            },
            Some(':') => {
                if self.peek_is(':') {
                    self.bump();
                    return Ok(Token::DoubleColon);
                }
                return Ok(Token::Colon);
            },
            Some(q) if q == '\'' || q == '"' => {
                self.skip_class(SymClass::StringBody(q));
                if self.peek_is(q) {
                    let text = join_symbols(&self.symbols, k + 1, self.pos);
                    self.bump();
                    return Ok(Token::Str(text));
                }
                return Err(LexerError::UnclosedString);
            },
            _ => {},
        }
        if all_chars(CharKind::IdentStart, self.symbols[k].as_str()) {
            self.skip_class(SymClass::IdentTail);
            let text = join_symbols(&self.symbols, k, self.pos);
            return Ok(Self::word(text));
        }
        if all_chars(CharKind::Digit, self.symbols[k].as_str()) {
            return Ok(self.number(k));
        }
        Err(LexerError::InvalidSymbol)
    }
}


impl Lexer {
    /// Reads a token once the line's indentation is dealt with.
    fn token_phase(&mut self) -> (r: Option<Result<Token, LexerError>>)
        requires
            old(self).wf(),
        ensures
            final(self).wf(),
            final(self)@ == token_step(old(self)@).0,
            result_view(r) == token_step(old(self)@).1,
    {
        self.skip_class(SymClass::Blank);
        self.span.start = self.span.end;
        if self.pos >= self.symbols.len() {
            self.state.line_level = None;
            return None;
        }
        if newline_symbol(self.symbols[self.pos].as_str()) {
            self.bump();
            self.state.line_level = None;
            return Some(Ok(Token::Newline));
        }
        Some(self.scan())
    }

    /// With the line's level known, opens or closes one level or reads a token.
    fn level_phase(&mut self, level: usize) -> (r: Option<Result<Token, LexerError>>)
        requires
            old(self).wf(),
            old(self)@.state.line_level == Some(level),
        ensures
            final(self).wf(),
            final(self)@ == level_step(old(self)@, level).0,
            result_view(r) == level_step(old(self)@, level).1,
    {
        let n = self.state.indent_levels.len();
        let last = if n > 0 {
            self.state.indent_levels[n - 1]
        } else {
            0
        };
        if last > level {
            self.state.indent_levels.pop();
            return Some(Ok(Token::Dedent));
        }
        if last < level {
            self.state.indent_levels.push(level);
            return Some(Ok(Token::Indent));
        }
        self.token_phase()
    }

    /// At the start of a line, measures its indentation.
    fn indent_phase(&mut self) -> (r: Option<Result<Token, LexerError>>)
        requires
            old(self).wf(),
            old(self)@.state.line_level is None,
        ensures
            final(self).wf(),
            final(self)@ == indent_step(old(self)@).0,
            result_view(r) == indent_step(old(self)@).1,
    {
        self.span.start = self.span.end;
        let (tabs, spaces) = self.skip_blank();
        let j = self.pos;
        if j >= self.symbols.len() {
            self.span.start = self.span.end;
            return None;
        }
        if newline_symbol(self.symbols[j].as_str()) {
            self.span.start = self.span.end;
            self.bump();
            return Some(Ok(Token::Newline));
        }
        if single_char(self.symbols[j].as_str()) == Some('#') {
            self.span.start = self.span.end;
            self.bump();
            self.skip_class(SymClass::LineBody);
            let text = join_symbols(&self.symbols, j, self.pos);
            return Some(Ok(Token::Comment(text)));
        }
        let level = match self.state.indent_style {
            Some(IndentStyle::Spaces) => {
                if tabs > 0 {
                    return Some(Err(LexerError::MixedIndent));
                }
                spaces
            },
            Some(IndentStyle::Tabs) => {
                if spaces > 0 {
                    return Some(Err(LexerError::MixedIndent));
                }
                tabs
            },
            None => {
                if spaces == 0 && tabs == 0 {
                    0
                } else if spaces == 0 {
                    self.state.indent_style = Some(IndentStyle::Tabs);
                    tabs
                } else if tabs == 0 {
                    self.state.indent_style = Some(IndentStyle::Spaces);
                    spaces
                } else {
                    return Some(Err(LexerError::MixedIndent));
                }
            },
        };
        self.state.line_level = Some(level);
        self.level_phase(level)
    }

    /// Reads the next token: `None` once the text is used up.
    pub fn next_token(&mut self) -> (r: Option<Result<Token, LexerError>>)
        requires
            old(self).wf(),
        ensures
            final(self).wf(),
            final(self)@ == step(old(self)@).0,
            result_view(r) == step(old(self)@).1,
            final(self)@.start <= final(self)@.end <= offset(old(self)@.syms, old(self)@.syms.len() as int),
            r matches Some(Ok(Token::Ident(w))) ==> encode_utf8(w@) == encode_utf8(
                concat(old(self)@.syms, 0, old(self)@.syms.len() as int),
            ).subrange(final(self)@.start, final(self)@.end),
            r matches Some(Ok(Token::Comment(w))) ==> encode_utf8(w@) == encode_utf8(
                concat(old(self)@.syms, 0, old(self)@.syms.len() as int),
            ).subrange(final(self)@.start, final(self)@.end),
    {
        proof {
            reveal(step);
            lemma_token_text(self@);
        }
        match self.state.line_level {
            Some(level) => self.level_phase(level),
            None => self.indent_phase(),
        }
    }
}


/// A scanned token ends after its first symbol and within the text.
pub proof fn lemma_scan_bounds(syms: Seq<Seq<char>>, k: int)
    requires
        0 <= k < syms.len(),
    ensures
        k < scan_token(syms, k).0 <= syms.len(),
{
    let p = k + 1;
    lemma_run_end_bounds(syms, p, SymClass::LineBody);
    lemma_run_end_bounds(syms, p, SymClass::IdentTail);
    lemma_run_end_bounds(syms, p, SymClass::Digit);
    if syms[k].len() > 0 {
        lemma_run_end_bounds(syms, p, SymClass::StringBody(syms[k][0]));
    }
    let e1 = run_end(syms, p, SymClass::Digit);
    if e1 < syms.len() {
        lemma_run_end_bounds(syms, e1 + 1, SymClass::Digit);
    }
}

/// Reading a token keeps the lexer consistent.
proof fn lemma_token_step(m: LexerModel)
    requires
        model_wf(m),
    ensures
        model_wf(token_step(m).0),
        m.pos <= token_step(m).0.pos,
        token_step(m).1 matches Some(r) ==> m.pos < token_step(m).0.pos,
        token_step(m).0.state.levels == m.state.levels,
        token_step(m).0.state.style == m.state.style,
{
    let k = run_end(m.syms, m.pos, SymClass::Blank);
    lemma_run_end_bounds(m.syms, m.pos, SymClass::Blank);
    if k < m.syms.len() {
        lemma_scan_bounds(m.syms, k);
        lemma_offset_mono(m.syms, k, k + 1);
        lemma_offset_mono(m.syms, k, scan_token(m.syms, k).0);
        lemma_offset_mono(m.syms, k + 1, m.syms.len() as int);
        lemma_offset_mono(m.syms, scan_token(m.syms, k).0, m.syms.len() as int);
    }
}

/// Opening or closing a level, or reading a token, keeps the lexer consistent.
proof fn lemma_level_step(m: LexerModel, level: usize)
    requires
        model_wf(m),
    ensures
        model_wf(level_step(m, level).0),
        m.pos <= level_step(m, level).0.pos,
        level_step(m, level).0.state.style == m.state.style,
{
    lemma_token_step(m);
    let levels = m.state.levels;
    let last: int = if levels.len() > 0 { levels.last() as int } else { 0 };
    if last < level {
        let l2 = levels.push(level);
        assert forall|i: int, j: int| 0 <= i < j < l2.len() implies l2[i] < l2[j] by {
            if j == l2.len() - 1 && i < j {
                assert(levels[i] <= levels.last());
            }
        }
    }
}

/// Every call of the lexer keeps it consistent, never moves its read position
/// backwards, and leaves the read position within the text.
pub proof fn lemma_step_wf(m: LexerModel)
    requires
        model_wf(m),
    ensures
        model_wf(step(m).0),
        m.pos <= step(m).0.pos,
        step(m).0.syms == m.syms,
{
    reveal(step);
    match m.state.line_level {
        Some(level) => lemma_level_step(m, level),
        None => {
            let j = run_end(m.syms, m.pos, SymClass::Blank);
            lemma_run_end_bounds(m.syms, m.pos, SymClass::Blank);
            lemma_offset_mono(m.syms, m.pos, j);
            if j < m.syms.len() {
                lemma_offset_mono(m.syms, j, j + 1);
                lemma_offset_mono(m.syms, j + 1, m.syms.len() as int);
                lemma_run_end_bounds(m.syms, j + 1, SymClass::LineBody);
                let e = run_end(m.syms, j + 1, SymClass::LineBody);
                lemma_offset_mono(m.syms, j, e);
                lemma_offset_mono(m.syms, e, m.syms.len() as int);
                let tabs = count_char(m.syms, m.pos, j, '\t');
                let spaces = count_char(m.syms, m.pos, j, ' ');
                match indent_level(m.state.style, tabs, spaces) {
                    None => {},
                    Some((style, level)) => {
                        let m2 = with_state(
                            moved(m, m.pos, j),
                            LexerStateModel { style, line_level: Some(level as usize), ..m.state },
                        );
                        lemma_offset_mono(m.syms, j, m.syms.len() as int);
                        lemma_level_step(m2, level as usize);
                    },
                }
            } else {
                lemma_offset_mono(m.syms, j, m.syms.len() as int);
            }
        },
    }
}


/// A non-blank count over a range means the range is non-empty.
proof fn lemma_count_pos(syms: Seq<Seq<char>>, i: int, j: int, c: char)
    requires
        count_char(syms, i, j, c) > 0,
    ensures
        i < j,
    decreases j - i,
{
}

/// Every result other than `Indent` and `Dedent` reads at least one symbol, and the
/// lexer returns `None` only once the whole text is read, with its line ended.
pub proof fn lemma_step_progress(m: LexerModel)
    requires
        model_wf(m),
    ensures
        step(m).1 matches Some(r) && r != Ok::<TokenModel, LexerError>(TokenModel::Indent)
            && r != Ok::<TokenModel, LexerError>(TokenModel::Dedent) ==> m.pos < step(m).0.pos,
        step(m).1 is None ==> step(m).0.pos == m.syms.len() && step(m).0.state.line_level is None,
{
    reveal(step);
    lemma_step_wf(m);
    match m.state.line_level {
        Some(level) => {
            lemma_token_step(m);
        },
        None => {
            let j = run_end(m.syms, m.pos, SymClass::Blank);
            lemma_run_end_bounds(m.syms, m.pos, SymClass::Blank);
            if j < m.syms.len() {
                lemma_run_end_bounds(m.syms, j + 1, SymClass::LineBody);
                let tabs = count_char(m.syms, m.pos, j, '\t');
                let spaces = count_char(m.syms, m.pos, j, ' ');
                if tabs > 0 {
                    lemma_count_pos(m.syms, m.pos, j, '\t');
                }
                if spaces > 0 {
                    lemma_count_pos(m.syms, m.pos, j, ' ');
                }
                match indent_level(m.state.style, tabs, spaces) {
                    None => {},
                    Some((style, level)) => {
                        let m2 = with_state(
                            moved(m, m.pos, j),
                            LexerStateModel { style, line_level: Some(level as usize), ..m.state },
                        );
                        lemma_offset_mono(m.syms, m.pos, j);
                        lemma_offset_mono(m.syms, j, m.syms.len() as int);
                        lemma_token_step(m2);
                    },
                }
            }
        },
    }
}

/// Once the lexer has returned `None`, it keeps returning `None`.
pub proof fn lemma_end_is_final(m: LexerModel)
    requires
        model_wf(m),
        step(m).1 is None,
    ensures
        step(step(m).0).1 is None,
        step(step(m).0).0 == step(m).0,
{
    reveal(step);
    lemma_step_progress(m);
    let m2 = step(m).0;
    lemma_run_end_bounds(m2.syms, m2.pos, SymClass::Blank);
}

/// The lexer after `n` calls.
pub open spec fn run(m: LexerModel, n: nat) -> LexerModel
    decreases n,
{
    if n == 0 {
        m
    } else {
        run(step(m).0, (n - 1) as nat)
    }
}

/// What `n` calls give, in order.
pub open spec fn outputs(m: LexerModel, n: nat) -> Seq<Option<Result<TokenModel, LexerError>>>
    decreases n,
{
    if n == 0 {
        Seq::empty()
    } else {
        seq![step(m).1] + outputs(step(m).0, (n - 1) as nat)
    }
}

/// `n` calls give `n` results.
pub proof fn lemma_outputs_len(m: LexerModel, n: nat)
    ensures
        outputs(m, n).len() == n,
    decreases n,
{
    if n > 0 {
        lemma_outputs_len(step(m).0, (n - 1) as nat);
    }
}

/// Symbols `i..k` are symbols `i..j` followed by symbols `j..k`.
proof fn lemma_concat_split(syms: Seq<Seq<char>>, i: int, j: int, k: int)
    requires
        i <= j <= k,
    ensures
        concat(syms, i, k) == concat(syms, i, j) + concat(syms, j, k),
    decreases k - j,
{
    if j < k {
        lemma_concat_split(syms, i, j, k - 1);
        assert(concat(syms, i, j) + concat(syms, j, k - 1) + syms[k - 1] =~= concat(syms, i, j) + (concat(
            syms,
            j,
            k - 1,
        ) + syms[k - 1]));
    } else {
        assert(concat(syms, i, j) + Seq::<char>::empty() =~= concat(syms, i, j));
    }
}

/// The UTF-8 bytes of symbols `a..b` are the bytes of the whole text from the offset of
/// symbol `a` to the offset of symbol `b`.
proof fn lemma_slice(syms: Seq<Seq<char>>, a: int, b: int)
    requires
        0 <= a <= b <= syms.len(),
    ensures
        encode_utf8(concat(syms, a, b)) == encode_utf8(concat(syms, 0, syms.len() as int)).subrange(
            offset(syms, a) as int,
            offset(syms, b) as int,
        ),
{
    let n = syms.len() as int;
    lemma_concat_split(syms, 0, a, b);
    lemma_concat_split(syms, 0, b, n);
    lemma_encode_append(concat(syms, 0, a), concat(syms, a, b));
    lemma_encode_append(concat(syms, 0, b), concat(syms, b, n));
    let pre = encode_utf8(concat(syms, 0, a));
    let mid = encode_utf8(concat(syms, a, b));
    let post = encode_utf8(concat(syms, b, n));
    assert(encode_utf8(concat(syms, 0, n)) == pre + mid + post);
    assert((pre + mid + post).subrange(pre.len() as int, (pre.len() + mid.len()) as int) =~= mid);
}

/// A name or a comment that the lexer gives is, byte for byte, the part of the text its
/// span covers; every span lies within the text.
pub proof fn lemma_token_text(m: LexerModel)
    requires
        model_wf(m),
    ensures
        step(m).0.start <= step(m).0.end <= offset(m.syms, m.syms.len() as int),
        step(m).1 matches Some(Ok(TokenModel::Ident(w))) ==> encode_utf8(w) == encode_utf8(
            concat(m.syms, 0, m.syms.len() as int),
        ).subrange(step(m).0.start, step(m).0.end),
        step(m).1 matches Some(Ok(TokenModel::Comment(w))) ==> encode_utf8(w) == encode_utf8(
            concat(m.syms, 0, m.syms.len() as int),
        ).subrange(step(m).0.start, step(m).0.end),
{
    lemma_step_wf(m);
    reveal(step);
    let n = m.syms.len() as int;
    lemma_offset_mono(m.syms, step(m).0.pos, n);
    lemma_run_end_bounds(m.syms, m.pos, SymClass::Blank);
    let k = run_end(m.syms, m.pos, SymClass::Blank);
    if k < n {
        lemma_scan_bounds(m.syms, k);
        lemma_slice(m.syms, k, scan_token(m.syms, k).0);
        lemma_run_end_bounds(m.syms, k + 1, SymClass::LineBody);
        lemma_slice(m.syms, k, run_end(m.syms, k + 1, SymClass::LineBody));
    }
    match m.state.line_level {
        Some(level) => {},
        None => {
            let j = k;
            if j < n && !is_newline(m.syms[j]) && !is_char(m.syms[j], '#') {
                let tabs = count_char(m.syms, m.pos, j, '\t');
                let spaces = count_char(m.syms, m.pos, j, ' ');
                match indent_level(m.state.style, tabs, spaces) {
                    None => {},
                    Some((style, level)) => {
                        let m2 = with_state(
                            moved(m, m.pos, j),
                            LexerStateModel { style, line_level: Some(level as usize), ..m.state },
                        );
                        lemma_run_end_bounds(m2.syms, m2.pos, SymClass::Blank);
                        let k2 = run_end(m2.syms, m2.pos, SymClass::Blank);
                        if k2 < n {
                            lemma_scan_bounds(m.syms, k2);
                            lemma_slice(m.syms, k2, scan_token(m.syms, k2).0);
                        }
                    },
                }
            }
        },
    }
}

/// `a` calls and then `b` calls are `a + b` calls.
pub proof fn lemma_outputs_add(m: LexerModel, a: nat, b: nat)
    ensures
        outputs(m, a + b) == outputs(m, a) + outputs(run(m, a), b),
        run(m, a + b) == run(run(m, a), b),
    decreases a,
{
    if a == 0 {
        assert(outputs(m, 0) + outputs(m, b) =~= outputs(m, b));
    } else {
        lemma_outputs_add(step(m).0, (a - 1) as nat, b);
        assert((a + b - 1) as nat == (a - 1) as nat + b);
        assert(seq![step(m).1] + (outputs(step(m).0, (a - 1) as nat) + outputs(run(step(m).0, (a - 1) as nat), b))
            =~= seq![step(m).1] + outputs(step(m).0, (a - 1) as nat) + outputs(run(step(m).0, (a - 1) as nat), b));
    }
}

/// What a result does to the number of open indentation levels.
pub open spec fn depth_delta(r: Option<Result<TokenModel, LexerError>>) -> int {
    match r {
        Some(Ok(TokenModel::Indent)) => 1,
        Some(Ok(TokenModel::Dedent)) => -1,
        _ => 0,
    }
}

/// The sum of [`depth_delta`] over some results: the `Indent`s less the `Dedent`s.
pub open spec fn depth_change(rs: Seq<Option<Result<TokenModel, LexerError>>>) -> int
    decreases rs.len(),
{
    if rs.len() == 0 {
        0
    } else {
        depth_delta(rs[0]) + depth_change(rs.subrange(1, rs.len() as int))
    }
}

/// A token read from the text is never an `Indent` or a `Dedent`.
proof fn lemma_scan_not_block(syms: Seq<Seq<char>>, k: int)
    ensures
        scan_token(syms, k).1 != Ok::<TokenModel, LexerError>(TokenModel::Indent),
        scan_token(syms, k).1 != Ok::<TokenModel, LexerError>(TokenModel::Dedent),
{
}

/// One call: an `Indent` opens one indentation level and a `Dedent` closes one (and comes
/// only while one is open); anything else leaves the levels as they are. An indentation
/// style once known never changes.
pub proof fn lemma_step_depth(m: LexerModel)
    requires
        model_wf(m),
    ensures
        step(m).0.state.levels.len() == m.state.levels.len() + depth_delta(step(m).1),
        step(m).1 == Some(Ok::<TokenModel, LexerError>(TokenModel::Dedent)) ==> m.state.levels.len() > 0,
        m.state.style is Some ==> step(m).0.state.style == m.state.style,
{
    reveal(step);
    let k = run_end(m.syms, m.pos, SymClass::Blank);
    lemma_scan_not_block(m.syms, k);
    match m.state.line_level {
        Some(level) => {},
        None => {
            let j = run_end(m.syms, m.pos, SymClass::Blank);
            if j < m.syms.len() && !is_newline(m.syms[j]) && !is_char(m.syms[j], '#') {
                let tabs = count_char(m.syms, m.pos, j, '\t');
                let spaces = count_char(m.syms, m.pos, j, ' ');
                match indent_level(m.state.style, tabs, spaces) {
                    None => {},
                    Some((style, level)) => {
                        let m2 = with_state(
                            moved(m, m.pos, j),
                            LexerStateModel { style, line_level: Some(level as usize), ..m.state },
                        );
                        lemma_scan_not_block(m2.syms, run_end(m2.syms, m2.pos, SymClass::Blank));
                    },
                }
            }
        },
    }
}

/// Over any number of calls, the open indentation levels change by the `Indent`s given
/// less the `Dedent`s given, and an indentation style once known stays.
pub proof fn lemma_run_depth(m: LexerModel, n: nat)
    requires
        model_wf(m),
    ensures
        run(m, n).state.levels.len() == m.state.levels.len() + depth_change(outputs(m, n)),
        m.state.style is Some ==> run(m, n).state.style == m.state.style,
        model_wf(run(m, n)),
    decreases n,
{
    if n > 0 {
        lemma_step_depth(m);
        lemma_step_wf(m);
        lemma_run_depth(step(m).0, (n - 1) as nat);
        let rs = outputs(m, n);
        assert(rs.subrange(1, rs.len() as int) =~= outputs(step(m).0, (n - 1) as nat));
    }
}

/// With the current line at level 0 and nothing left to read (as after
/// [`LexerState::close_blocks`] and lexing empty text), the next calls give one `Dedent`
/// for each open level, closing them all, and then `None`.
pub proof fn lemma_close_all(m: LexerModel)
    requires
        model_wf(m),
        m.state.line_level == Some(0usize),
        m.pos == m.syms.len(),
    ensures
        forall|i: int| 0 <= i < m.state.levels.len() ==> #[trigger] outputs(m, m.state.levels.len())[i] == Some(
            Ok::<TokenModel, LexerError>(TokenModel::Dedent),
        ),
        run(m, m.state.levels.len()).state.levels.len() == 0,
        step(run(m, m.state.levels.len())).1 is None,
    decreases m.state.levels.len(),
{
    reveal(step);
    let d = m.state.levels.len();
    if d == 0 {
        lemma_run_end_bounds(m.syms, m.pos, SymClass::Blank);
    } else {
        assert(m.state.levels.last() > 0) by {
            if d > 1 {
                assert(m.state.levels[0] < m.state.levels[d - 1]);
            }
        }
        let m1 = step(m).0;
        assert(m1 == with_state(m, LexerStateModel { levels: m.state.levels.drop_last(), ..m.state }));
        assert(levels_wf(m1.state.levels)) by {
            assert forall|i: int, j: int| 0 <= i < j < m1.state.levels.len() implies m1.state.levels[i]
                < m1.state.levels[j] by {
                assert(m1.state.levels[i] == m.state.levels[i]);
                assert(m1.state.levels[j] == m.state.levels[j]);
            }
        }
        lemma_close_all(m1);
        assert(m1.state.levels.len() == d - 1);
        lemma_outputs_len(m1, (d - 1) as nat);
        let rs = outputs(m, d);
        assert(rs == seq![step(m).1] + outputs(m1, (d - 1) as nat));
        assert(run(m, d) == run(m1, (d - 1) as nat));
        assert forall|i: int| 0 <= i < d implies #[trigger] rs[i] == Some(Ok::<TokenModel, LexerError>(TokenModel::Dedent)) by {
            if i > 0 {
                assert(rs[i] == outputs(m1, (d - 1) as nat)[i - 1]);
            }
        }
    }
}

/// The value of a lexer result.
pub open spec fn result_view(r: Option<Result<Token, LexerError>>) -> Option<Result<TokenModel, LexerError>> {
    match r {
        Some(Ok(t)) => Some(Ok(t@)),
        Some(Err(e)) => Some(Err(e)),
        None => None,
    }
}


/// Within a line (its level matching the innermost open level), a symbol that is one of
/// the operator and bracket characters is read as its token: alone for `+ - / % . , ? (
/// ) [ ]`; with the second character when it follows for `**`, `==`, `!=`, `<=`, `>=`,
/// `::`, `&&`, `||` (alone `* = ! < > :`, while a lone `&` or `|` is not a symbol).
pub proof fn lemma_operator_symbols(m: LexerModel, c: char)
    requires
        model_wf(m),
        m.state.line_level == Some((if m.state.levels.len() > 0 {
            m.state.levels.last()
        } else {
            0usize
        })),
        0 <= m.pos < m.syms.len(),
        m.syms[m.pos] == seq![c],
    ensures
        c == '+' ==> step(m).1 == Some(Ok::<TokenModel, LexerError>(TokenModel::Add)) && step(m).0.pos == m.pos + 1,
        c == '-' ==> step(m).1 == Some(Ok::<TokenModel, LexerError>(TokenModel::Sub)) && step(m).0.pos == m.pos + 1,
        c == '/' ==> step(m).1 == Some(Ok::<TokenModel, LexerError>(TokenModel::Div)) && step(m).0.pos == m.pos + 1,
        c == '%' ==> step(m).1 == Some(Ok::<TokenModel, LexerError>(TokenModel::Mod)) && step(m).0.pos == m.pos + 1,
        c == '.' ==> step(m).1 == Some(Ok::<TokenModel, LexerError>(TokenModel::Dot)) && step(m).0.pos == m.pos + 1,
        c == ',' ==> step(m).1 == Some(Ok::<TokenModel, LexerError>(TokenModel::Comma)) && step(m).0.pos == m.pos + 1,
        c == '?' ==> step(m).1 == Some(Ok::<TokenModel, LexerError>(TokenModel::Question)) && step(m).0.pos == m.pos + 1,
        c == '(' ==> step(m).1 == Some(Ok::<TokenModel, LexerError>(TokenModel::OpenParen)) && step(m).0.pos == m.pos + 1,
        c == ')' ==> step(m).1 == Some(Ok::<TokenModel, LexerError>(TokenModel::CloseParen)) && step(m).0.pos == m.pos + 1,
        c == '[' ==> step(m).1 == Some(Ok::<TokenModel, LexerError>(TokenModel::OpenSquare)) && step(m).0.pos == m.pos + 1,
        c == ']' ==> step(m).1 == Some(Ok::<TokenModel, LexerError>(TokenModel::CloseSquare)) && step(m).0.pos == m.pos + 1,
        c == '*' && (m.pos + 1 < m.syms.len() && m.syms[m.pos + 1] == seq!['*']) ==> step(m).1 == Some(Ok::<TokenModel, LexerError>(TokenModel::Pow)) && step(m).0.pos == m.pos + 2,
        c == '*' && !(m.pos + 1 < m.syms.len() && m.syms[m.pos + 1] == seq!['*']) ==> step(m).1 == Some(Ok::<TokenModel, LexerError>(TokenModel::Mul)) && step(m).0.pos == m.pos + 1,
        c == '=' && (m.pos + 1 < m.syms.len() && m.syms[m.pos + 1] == seq!['=']) ==> step(m).1 == Some(Ok::<TokenModel, LexerError>(TokenModel::Eq)) && step(m).0.pos == m.pos + 2,
        c == '=' && !(m.pos + 1 < m.syms.len() && m.syms[m.pos + 1] == seq!['=']) ==> step(m).1 == Some(Ok::<TokenModel, LexerError>(TokenModel::Assign)) && step(m).0.pos == m.pos + 1,
        c == '!' && (m.pos + 1 < m.syms.len() && m.syms[m.pos + 1] == seq!['=']) ==> step(m).1 == Some(Ok::<TokenModel, LexerError>(TokenModel::NEq)) && step(m).0.pos == m.pos + 2,
        c == '!' && !(m.pos + 1 < m.syms.len() && m.syms[m.pos + 1] == seq!['=']) ==> step(m).1 == Some(Ok::<TokenModel, LexerError>(TokenModel::Not)) && step(m).0.pos == m.pos + 1,
        c == '<' && (m.pos + 1 < m.syms.len() && m.syms[m.pos + 1] == seq!['=']) ==> step(m).1 == Some(Ok::<TokenModel, LexerError>(TokenModel::LtEq)) && step(m).0.pos == m.pos + 2,
        c == '<' && !(m.pos + 1 < m.syms.len() && m.syms[m.pos + 1] == seq!['=']) ==> step(m).1 == Some(Ok::<TokenModel, LexerError>(TokenModel::Lt)) && step(m).0.pos == m.pos + 1,
        c == '>' && (m.pos + 1 < m.syms.len() && m.syms[m.pos + 1] == seq!['=']) ==> step(m).1 == Some(Ok::<TokenModel, LexerError>(TokenModel::GtEq)) && step(m).0.pos == m.pos + 2,
        c == '>' && !(m.pos + 1 < m.syms.len() && m.syms[m.pos + 1] == seq!['=']) ==> step(m).1 == Some(Ok::<TokenModel, LexerError>(TokenModel::Gt)) && step(m).0.pos == m.pos + 1,
        c == ':' && (m.pos + 1 < m.syms.len() && m.syms[m.pos + 1] == seq![':']) ==> step(m).1 == Some(Ok::<TokenModel, LexerError>(TokenModel::DoubleColon)) && step(m).0.pos == m.pos + 2,
        c == ':' && !(m.pos + 1 < m.syms.len() && m.syms[m.pos + 1] == seq![':']) ==> step(m).1 == Some(Ok::<TokenModel, LexerError>(TokenModel::Colon)) && step(m).0.pos == m.pos + 1,
        c == '&' && (m.pos + 1 < m.syms.len() && m.syms[m.pos + 1] == seq!['&']) ==> step(m).1 == Some(Ok::<TokenModel, LexerError>(TokenModel::And)) && step(m).0.pos == m.pos + 2,
        c == '&' && !(m.pos + 1 < m.syms.len() && m.syms[m.pos + 1] == seq!['&']) ==> step(m).1 == Some(Err::<TokenModel, LexerError>(LexerError::InvalidSymbol)),
        c == '|' && (m.pos + 1 < m.syms.len() && m.syms[m.pos + 1] == seq!['|']) ==> step(m).1 == Some(Ok::<TokenModel, LexerError>(TokenModel::Or)) && step(m).0.pos == m.pos + 2,
        c == '|' && !(m.pos + 1 < m.syms.len() && m.syms[m.pos + 1] == seq!['|']) ==> step(m).1 == Some(Err::<TokenModel, LexerError>(LexerError::InvalidSymbol)),
{
    reveal(step);
    assert(seq![c].len() == 1 && seq![c][0] == c);
    assert(run_end(m.syms, m.pos, SymClass::Blank) == m.pos || c == ' ' || c == '\t');
    if m.pos + 1 < m.syms.len() {
        assert(m.syms[m.pos + 1] == seq![m.syms[m.pos + 1][0]] || m.syms[m.pos + 1].len() != 1);
    }
}

/// A line that holds only spaces or tabs and then a comment is read, at the start of the
/// line, as one `Comment` token: its text runs from the `#` up to the next line break (or
/// the end of the text), and the open indentation levels, the indentation style and the
/// unmeasured line level are left as they were, so no `Indent` or `Dedent` comes of it.
pub proof fn lemma_comment_line(m: LexerModel, j: int)
    requires
        model_wf(m),
        m.state.line_level is None,
        m.pos <= j < m.syms.len(),
        forall|k: int| m.pos <= k < j ==> #[trigger] m.syms[k] == seq![' '] || m.syms[k] == seq!['\t'],
        m.syms[j] == seq!['#'],
    ensures
        step(m).0.state == m.state,
        j < step(m).0.pos <= m.syms.len(),
        forall|k: int| j <= k < step(m).0.pos ==> !is_newline(#[trigger] m.syms[k]),
        step(m).0.pos < m.syms.len() ==> is_newline(m.syms[step(m).0.pos]),
        step(m).1 == Some(Ok::<TokenModel, LexerError>(TokenModel::Comment(concat(m.syms, j, step(m).0.pos)))),
{
    reveal(step);
    assert forall|k: int| m.pos <= k < j implies in_class(SymClass::Blank, #[trigger] m.syms[k]) by {
        assert(seq![' '].len() == 1 && seq![' '][0] == ' ');
        assert(seq!['\t'].len() == 1 && seq!['\t'][0] == '\t');
    }
    assert(seq!['#'].len() == 1 && seq!['#'][0] == '#');
    lemma_run_end_at(m.syms, m.pos, j, SymClass::Blank);
    lemma_run_end_bounds(m.syms, j + 1, SymClass::LineBody);
    lemma_run_members(m.syms, j + 1, SymClass::LineBody);
}

/// Within a line (its level matching the innermost open level), a word (a letter or `_`,
/// then letters, digits or `_`, up to the first other symbol) is read whole as its
/// keyword: `none`, `true`, `false`, `if`, `while`, `fn`; any other word is a name.
pub proof fn lemma_words(m: LexerModel, w: Seq<char>)
    requires
        model_wf(m),
        m.state.line_level == Some((if m.state.levels.len() > 0 {
            m.state.levels.last()
        } else {
            0usize
        })),
        0 < w.len(),
        0 <= m.pos,
        m.pos + w.len() <= m.syms.len(),
        forall|a: int| 0 <= a < w.len() ==> #[trigger] m.syms[m.pos + a] == seq![w[a]],
        char_in(CharKind::IdentStart, w[0]),
        forall|a: int| 0 <= a < w.len() ==> char_in(CharKind::IdentTail, #[trigger] w[a]),
        m.pos + w.len() < m.syms.len() ==> !in_class(SymClass::IdentTail, m.syms[m.pos + w.len()]),
    ensures
        step(m).0.pos == m.pos + w.len(),
        w == seq!['n', 'o', 'n', 'e'] ==> step(m).1 == Some(Ok::<TokenModel, LexerError>(TokenModel::NoneValue)),
        w == seq!['t', 'r', 'u', 'e'] ==> step(m).1 == Some(Ok::<TokenModel, LexerError>(TokenModel::Bool(true))),
        w == seq!['f', 'a', 'l', 's', 'e'] ==> step(m).1 == Some(Ok::<TokenModel, LexerError>(TokenModel::Bool(false))),
        w == seq!['i', 'f'] ==> step(m).1 == Some(Ok::<TokenModel, LexerError>(TokenModel::If)),
        w == seq!['w', 'h', 'i', 'l', 'e'] ==> step(m).1 == Some(Ok::<TokenModel, LexerError>(TokenModel::While)),
        w == seq!['f', 'n'] ==> step(m).1 == Some(Ok::<TokenModel, LexerError>(TokenModel::Fn)),
        w != seq!['n', 'o', 'n', 'e'] && w != seq!['t', 'r', 'u', 'e'] && w != seq!['f', 'a', 'l', 's', 'e']
            && w != seq!['i', 'f'] && w != seq!['w', 'h', 'i', 'l', 'e'] && w != seq!['f', 'n']
            ==> step(m).1 == Some(Ok::<TokenModel, LexerError>(TokenModel::Ident(w))),
{
    reveal(step);
    let c = w[0];
    assert(m.syms[m.pos + 0] == seq![c]);
    assert(seq![c].len() == 1 && seq![c][0] == c);
    assert(all_in(CharKind::IdentStart, m.syms[m.pos]));
    assert(run_end(m.syms, m.pos, SymClass::Blank) == m.pos);
    let e = m.pos + w.len();
    assert forall|k: int| m.pos + 1 <= k < e implies in_class(SymClass::IdentTail, #[trigger] m.syms[k]) by {
        let a = k - m.pos;
        assert(m.syms[m.pos + a] == seq![w[a]]);
        assert(char_in(CharKind::IdentTail, w[a]));
        assert(seq![w[a]].len() == 1 && seq![w[a]][0] == w[a]);
    }
    lemma_run_end_at(m.syms, m.pos + 1, e, SymClass::IdentTail);
    lemma_concat_chars(m.syms, m.pos, w, w.len() as int);
    assert(w.subrange(0, w.len() as int) =~= w);
}

} // verus!
