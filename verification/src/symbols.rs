//! Source text seen as a sequence of extended grapheme clusters ("symbols"),
//! with the byte offsets and concatenations the lexers are specified over.
use unicode_segmentation::UnicodeSegmentation;
use vstd::prelude::*;
use vstd::utf8::encode_utf8;

verus! {

/// The extended grapheme clusters of a text, as `UnicodeSegmentation::graphemes(true)`
/// produces them.
pub uninterp spec fn grapheme_clusters(text: Seq<char>) -> Seq<Seq<char>>;

/// The character sequences of a vector of strings.
pub open spec fn sym_views(v: Seq<String>) -> Seq<Seq<char>> {
    v.map_values(|s: String| s@)
}

/// The concatenation of the symbols `syms[i..j]`.
pub open spec fn concat(syms: Seq<Seq<char>>, i: int, j: int) -> Seq<char>
    decreases j - i,
{
    if j <= i {
        Seq::empty()
    } else {
        concat(syms, i, j - 1) + syms[j - 1]
    }
}

/// The byte offset (in UTF-8) at which symbol `i` starts.
pub open spec fn offset(syms: Seq<Seq<char>>, i: int) -> nat {
    encode_utf8(concat(syms, 0, i)).len()
}

/// The number of bytes of a symbol in UTF-8.
pub open spec fn byte_len(s: Seq<char>) -> nat {
    encode_utf8(s).len()
}

/// `s` is the single character `c`.
pub open spec fn is_char(s: Seq<char>, c: char) -> bool {
    s.len() == 1 && s[0] == c
}

/// Symbol `i` exists and is the single character `c`.
pub open spec fn sym_is(syms: Seq<Seq<char>>, i: int, c: char) -> bool {
    0 <= i < syms.len() && is_char(syms[i], c)
}

/// A line break symbol: `"\r"`, `"\n"` or `"\r\n"`.
pub open spec fn is_newline(s: Seq<char>) -> bool {
    ||| is_char(s, '\r')
    ||| is_char(s, '\n')
    ||| (s.len() == 2 && s[0] == '\r' && s[1] == '\n')
}

/// Splits `text` into its extended grapheme clusters with
/// `UnicodeSegmentation::graphemes(text, true)`, one `String` per cluster.
/// Claimed: the clusters are `grapheme_clusters(text@)`; each is non-empty; in order
/// they concatenate back to `text` (the iterator hands out `text[start..next]` for
/// consecutive boundaries from 0 to `text.len()`), so their UTF-8 bytes, `text.len()`
/// in all, fit in a `usize`.
#[verifier::external_body]
pub(crate) fn split_graphemes(text: &str) -> (syms: Vec<String>)
    ensures
        sym_views(syms@) == grapheme_clusters(text@),
        forall|i: int| 0 <= i < syms.len() ==> (#[trigger] syms@[i])@.len() > 0,
        concat(sym_views(syms@), 0, syms@.len() as int) == text@,
        offset(sym_views(syms@), syms@.len() as int) <= usize::MAX,
{
    text.graphemes(true).map(|g| g.to_string()).collect()
}

/// UTF-8 encoding distributes over concatenation.
pub proof fn lemma_encode_append(a: Seq<char>, b: Seq<char>)
    ensures
        encode_utf8(a + b) == encode_utf8(a) + encode_utf8(b),
    decreases a.len(),
{
    if a.len() == 0 {
        assert(a + b =~= b);
        assert(encode_utf8(a) =~= Seq::<u8>::empty());
        assert(encode_utf8(a) + encode_utf8(b) =~= encode_utf8(b));
    } else {
        assert((a + b).drop_first() =~= a.drop_first() + b);
        assert((a + b)[0] == a[0]);
        lemma_encode_append(a.drop_first(), b);
        assert(encode_utf8(a + b) =~= encode_utf8(a) + encode_utf8(b));
    }
}

/// Offsets grow by the byte length of each symbol.
pub proof fn lemma_offset_step(syms: Seq<Seq<char>>, i: int)
    requires
        0 <= i < syms.len(),
    ensures
        offset(syms, i + 1) == offset(syms, i) + byte_len(syms[i]),
{
    assert(concat(syms, 0, i + 1) == concat(syms, 0, i) + syms[i]);
    lemma_encode_append(concat(syms, 0, i), syms[i]);
}

/// Offsets are monotone in the symbol index.
pub proof fn lemma_offset_mono(syms: Seq<Seq<char>>, i: int, j: int)
    requires
        0 <= i <= j <= syms.len(),
    ensures
        offset(syms, i) <= offset(syms, j),
    decreases j - i,
{
    if i < j {
        lemma_offset_mono(syms, i, j - 1);
        lemma_offset_step(syms, j - 1);
    }
}

/// Builds the concatenation of `syms[a..b]`.
pub fn join_symbols(syms: &Vec<String>, a: usize, b: usize) -> (res: String)
    requires
        a <= b <= syms.len(),
    ensures
        res@ == concat(sym_views(syms@), a as int, b as int),
{
    let mut res = String::new();
    let mut k = a;
    while k < b
        invariant
            a <= k <= b <= syms.len(),
            res@ == concat(sym_views(syms@), a as int, k as int),
        decreases b - k,
    {
        res.append(syms[k].as_str());
        proof {
            assert(concat(sym_views(syms@), a as int, k + 1) == concat(sym_views(syms@), a as int, k as int) + sym_views(syms@)[k as int]);
        }
        k = k + 1;
    }
    res
}

/// The single character of `s`, if `s` is one character long.
pub fn single_char(s: &str) -> (r: Option<char>)
    ensures
        r == (if s@.len() == 1 { Some(s@[0]) } else { None::<char> }),
{
    if s.unicode_len() == 1 {
        Some(s.get_char(0))
    } else {
        None
    }
}

/// Whether `s` is a line break symbol.
pub fn newline_symbol(s: &str) -> (r: bool)
    ensures
        r == is_newline(s@),
{
    let n = s.unicode_len();
    if n == 1 {
        let c = s.get_char(0);
        c == '\r' || c == '\n'
    } else if n == 2 {
        s.get_char(0) == '\r' && s.get_char(1) == '\n'
    } else {
        false
    }
}

/// ASCII letter.
pub open spec fn ascii_alpha(c: char) -> bool {
    ('a' <= c && c <= 'z') || ('A' <= c && c <= 'Z')
}

/// ASCII decimal digit.
pub open spec fn ascii_digit(c: char) -> bool {
    '0' <= c && c <= '9'
}

/// Character classes that the lexers test every character of a symbol against.
#[derive(Clone, Copy)]
pub enum CharKind {
    /// `_` or an ASCII letter.
    IdentStart,
    /// `_`, an ASCII letter or an ASCII digit.
    IdentTail,
    /// An ASCII digit.
    Digit,
}

pub open spec fn char_in(kind: CharKind, c: char) -> bool {
    match kind {
        CharKind::IdentStart => c == '_' || ascii_alpha(c),
        CharKind::IdentTail => c == '_' || ascii_alpha(c) || ascii_digit(c),
        CharKind::Digit => ascii_digit(c),
    }
}

/// Every character of `s` is of the given kind.
pub open spec fn all_in(kind: CharKind, s: Seq<char>) -> bool {
    forall|i: int| 0 <= i < s.len() ==> char_in(kind, #[trigger] s[i])
}

pub fn char_is(kind: CharKind, c: char) -> (r: bool)
    ensures
        r == char_in(kind, c),
{
    let alpha = ('a' <= c && c <= 'z') || ('A' <= c && c <= 'Z');
    let digit = '0' <= c && c <= '9';
    match kind {
        CharKind::IdentStart => c == '_' || alpha,
        CharKind::IdentTail => c == '_' || alpha || digit,
        CharKind::Digit => digit,
    }
}

/// Whether every character of `s` is of the given kind.
pub fn all_chars(kind: CharKind, s: &str) -> (r: bool)
    ensures
        r == all_in(kind, s@),
{
    let n = s.unicode_len();
    let mut i: usize = 0;
    while i < n
        invariant
            n == s@.len(),
            i <= n,
            forall|j: int| 0 <= j < i ==> char_in(kind, #[trigger] s@[j]),
        decreases n - i,
    {
        if !char_is(kind, s.get_char(i)) {
            return false;
        }
        i = i + 1;
    }
    true
}

/// Whether `s` spells exactly the characters of `w`.
pub fn same_text(s: &str, w: &[char]) -> (r: bool)
    ensures
        r == (s@ == w@),
{
    let n = s.unicode_len();
    if n != w.len() {
        return false;
    }
    let mut i: usize = 0;
    while i < n
        invariant
            n == s@.len(),
            n == w@.len(),
            i <= n,
            forall|j: int| 0 <= j < i ==> s@[j] == w@[j],
        decreases n - i,
    {
        if s.get_char(i) != w[i] {
            return false;
        }
        i = i + 1;
    }
    assert(s@ =~= w@);
    true
}

/// Classes of symbols that the lexers skip over in runs.
#[derive(Clone, Copy)]
pub enum SymClass {
    /// A space or a tab.
    Blank,
    /// A symbol made of identifier characters.
    IdentTail,
    /// A symbol made of ASCII digits.
    Digit,
    /// Anything but a line break.
    LineBody,
    /// Anything but a line break or the given quote character.
    StringBody(char),
    /// Exactly the given character.
    Char(char),
}

pub open spec fn in_class(class: SymClass, s: Seq<char>) -> bool {
    match class {
        SymClass::Blank => is_char(s, ' ') || is_char(s, '\t'),
        SymClass::IdentTail => all_in(CharKind::IdentTail, s),
        SymClass::Digit => all_in(CharKind::Digit, s),
        SymClass::LineBody => !is_newline(s),
        SymClass::StringBody(q) => !is_newline(s) && !is_char(s, q),
        SymClass::Char(c) => is_char(s, c),
    }
}

/// The index of the first symbol at or after `i` that is not in `class` (or the end).
pub open spec fn run_end(syms: Seq<Seq<char>>, i: int, class: SymClass) -> int
    decreases syms.len() - i,
{
    if 0 <= i < syms.len() && in_class(class, syms[i]) {
        run_end(syms, i + 1, class)
    } else {
        i
    }
}

/// The number of symbols in `syms[i..j]` that are the single character `c`.
pub open spec fn count_char(syms: Seq<Seq<char>>, i: int, j: int, c: char) -> nat
    decreases j - i,
{
    if j <= i {
        0
    } else {
        count_char(syms, i, j - 1, c) + if is_char(syms[j - 1], c) { 1nat } else { 0nat }
    }
}

/// Whether symbol `s` is in `class`.
pub fn symbol_in(class: SymClass, s: &str) -> (r: bool)
    ensures
        r == in_class(class, s@),
{
    match class {
        SymClass::Blank => {
            let c = single_char(s);
            c == Some(' ') || c == Some('\t')
        },
        SymClass::IdentTail => all_chars(CharKind::IdentTail, s),
        SymClass::Digit => all_chars(CharKind::Digit, s),
        SymClass::LineBody => !newline_symbol(s),
        SymClass::StringBody(q) => !newline_symbol(s) && single_char(s) != Some(q),
        SymClass::Char(c) => single_char(s) == Some(c),
    }
}

/// Runs stay within the symbols and never move backwards.
pub proof fn lemma_run_end_bounds(syms: Seq<Seq<char>>, i: int, class: SymClass)
    requires
        0 <= i <= syms.len(),
    ensures
        i <= run_end(syms, i, class) <= syms.len(),
        run_end(syms, i, class) < syms.len() ==> !in_class(class, syms[run_end(syms, i, class)]),
    decreases syms.len() - i,
{
    if i < syms.len() && in_class(class, syms[i]) {
        lemma_run_end_bounds(syms, i + 1, class);
    }
}

/// The run of `class` from `i` ends at `j` when every symbol of `i..j` is in the class
/// and the symbol at `j`, if any, is not.
pub proof fn lemma_run_end_at(syms: Seq<Seq<char>>, i: int, j: int, class: SymClass)
    requires
        0 <= i <= j <= syms.len(),
        forall|k: int| i <= k < j ==> in_class(class, #[trigger] syms[k]),
        j < syms.len() ==> !in_class(class, syms[j]),
    ensures
        run_end(syms, i, class) == j,
    decreases j - i,
{
    if i < j {
        lemma_run_end_at(syms, i + 1, j, class);
    }
}

/// Every symbol of a run lies in its class.
pub proof fn lemma_run_members(syms: Seq<Seq<char>>, i: int, class: SymClass)
    requires
        0 <= i <= syms.len(),
    ensures
        forall|k: int| i <= k < run_end(syms, i, class) ==> in_class(class, #[trigger] syms[k]),
    decreases syms.len() - i,
{
    if i < syms.len() && in_class(class, syms[i]) {
        lemma_run_members(syms, i + 1, class);
    }
}

/// Symbols that are each one character concatenate to those characters.
pub proof fn lemma_concat_chars(syms: Seq<Seq<char>>, i: int, w: Seq<char>, k: int)
    requires
        0 <= i,
        0 <= k <= w.len(),
        i + w.len() <= syms.len(),
        forall|a: int| 0 <= a < w.len() ==> #[trigger] syms[i + a] == seq![w[a]],
    ensures
        concat(syms, i, i + k) == w.subrange(0, k),
    decreases k,
{
    if k > 0 {
        lemma_concat_chars(syms, i, w, k - 1);
        assert(syms[i + (k - 1)] == seq![w[k - 1]]);
        assert(w.subrange(0, k - 1) + seq![w[k - 1]] =~= w.subrange(0, k));
    }
}

/// A run of a narrower class ends no later than a run of a wider one, and at the same
/// place when the narrow run stops at a symbol outside the wider class.
pub proof fn lemma_run_end_sub(syms: Seq<Seq<char>>, i: int, narrow: SymClass, wide: SymClass)
    requires
        0 <= i <= syms.len(),
        forall|k: int| i <= k < syms.len() && in_class(narrow, syms[k]) ==> in_class(wide, syms[k]),
    ensures
        run_end(syms, i, narrow) <= run_end(syms, i, wide),
        run_end(syms, i, narrow) < syms.len() && !in_class(wide, syms[run_end(syms, i, narrow)])
            ==> run_end(syms, i, wide) == run_end(syms, i, narrow),
        run_end(syms, i, narrow) < syms.len() && in_class(wide, syms[run_end(syms, i, narrow)])
            ==> run_end(syms, i, narrow) < run_end(syms, i, wide),
    decreases syms.len() - i,
{
    lemma_run_end_bounds(syms, i, narrow);
    lemma_run_end_bounds(syms, i, wide);
    if i < syms.len() && in_class(narrow, syms[i]) {
        lemma_run_end_sub(syms, i + 1, narrow, wide);
    }
}

} // verus!
