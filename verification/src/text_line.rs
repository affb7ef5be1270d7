//! Splitting source text into lines.
use vstd::prelude::*;

verus! {

/// The index of the first `'\n'` in `s` at or after `i`, or the length of `s`.
pub open spec fn line_end(s: Seq<char>, i: int) -> int
    decreases s.len() - i,
{
    if 0 <= i < s.len() && s[i] != '\n' {
        line_end(s, i + 1)
    } else {
        i
    }
}

/// Finds [`line_end`].
fn find_line_end(s: &str, i: usize) -> (e: usize)
    requires
        i <= s@.len(),
    ensures
        e == line_end(s@, i as int),
        i <= e <= s@.len(),
{
    let n = s.unicode_len();
    let mut e = i;
    while e < n && s.get_char(e) != '\n'
        invariant
            n == s@.len(),
            i <= e <= n,
            line_end(s@, e as int) == line_end(s@, i as int),
        decreases n - e,
    {
        e = e + 1;
    }
    e
}

/// One line of text, without what follows its first line break.
#[derive(Debug, Clone, Copy, PartialEq, Eq, PartialOrd, Ord, Hash)]
pub struct TextLine<'a>(&'a str);

impl<'a> View for TextLine<'a> {
    type V = Seq<char>;

    closed spec fn view(&self) -> Seq<char> {
        self.0@
    }
}

impl<'a> TextLine<'a> {
    /// The part of `text` before its first `'\n'` (all of it if there is none).
    pub fn new(text: &'a str) -> (l: Self)
        ensures
            l@ == text@.subrange(0, line_end(text@, 0)),
    {
        let e = find_line_end(text, 0);
        TextLine(text.substring_char(0, e))
    }

    /// The text of the line.
    pub fn text(&self) -> (t: &'a str)
        ensures
            t@ == self@,
    {
        self.0
    }
}

/// The lines of a text, each with its closing `'\n'` if it has one.
pub struct TextLines<'a> {
    text: &'a str,
    pos: usize,
}

impl<'a> TextLines<'a> {
    /// The whole text.
    pub closed spec fn source(&self) -> Seq<char> {
        self.text@
    }

    /// How many characters have been handed out.
    pub closed spec fn done(&self) -> int {
        self.pos as int
    }

    pub open spec fn wf(&self) -> bool {
        0 <= self.done() <= self.source().len()
    }

    /// The lines of `text`.
    pub fn new(text: &'a str) -> (ls: Self)
        ensures
            ls.wf(),
            ls.source() == text@,
            ls.done() == 0,
    {
        TextLines { text, pos: 0 }
    }

    /// The next line, through its `'\n'` if it has one; `None` once the text is used up.
    pub fn next(&mut self) -> (l: Option<TextLine<'a>>)
        requires
            old(self).wf(),
        ensures
            final(self).wf(),
            final(self).source() == old(self).source(),
            old(self).done() == old(self).source().len() ==> l is None && final(self).done() == old(self).done(),
            old(self).done() < old(self).source().len() ==> {
                let e = line_end(old(self).source(), old(self).done());
                let end = if e < old(self).source().len() { e + 1 } else { e };
                &&& final(self).done() == end
                &&& l matches Some(line) && line@ == old(self).source().subrange(old(self).done(), end)
            },
    {
        let n = self.text.unicode_len();
        if self.pos >= n {
            return None;
        }
        let e = find_line_end(self.text, self.pos);
        let end = if e < n {
            e + 1
        } else {
            e
        };
        let line = TextLine(self.text.substring_char(self.pos, end));
        self.pos = end;
        Some(line)
    }
}

} // verus!
