//! A single-character lookahead cursor over decoded text.

use vstd::prelude::*;

verus! {

/// True of the whitespace characters space, tab, line feed and carriage return.
pub open spec fn is_ws(c: char) -> bool {
    c == ' ' || c == '\r' || c == '\n' || c == '\t'
}

/// Number of whitespace characters in `t` from index `i` on, up to the first other one.
pub open spec fn ws_len(t: Seq<char>, i: int) -> nat
    decreases t.len() - i,
{
    if 0 <= i < t.len() && is_ws(t[i]) {
        1 + ws_len(t, i + 1)
    } else {
        0
    }
}

/// The first index at or after `i` that does not hold whitespace.
pub open spec fn skip_ws_from(t: Seq<char>, i: int) -> int {
    i + ws_len(t, i)
}

/// A scanner holds a stream of characters and a current position.
pub struct Scanner {
    chars: Vec<char>,
    pos: usize,
}

impl Scanner {
    /// The characters scanned.
    pub closed spec fn text(&self) -> Seq<char> {
        self.chars@
    }

    /// Index of the current character; the text's length at the end.
    pub closed spec fn position(&self) -> int {
        self.pos as int
    }

    pub closed spec fn wf(&self) -> bool {
        self.pos <= self.chars.len()
    }

    /// The current character, or `None` at the end of the text.
    pub open spec fn peek(&self) -> Option<char> {
        if 0 <= self.position() < self.text().len() {
            Some(self.text()[self.position()])
        } else {
            None
        }
    }

    /// Create a new scanner from a string.  The current character is the
    /// first of the string, or none for an empty string.
    pub fn new(txt: &str) -> (s: Scanner)
        ensures
            s.wf(),
            s.text() == txt@,
            s.position() == 0,
    {
        let n = txt.unicode_len();
        let mut cs: Vec<char> = Vec::new();
        let mut i: usize = 0;
        while i < n
            invariant
                n == txt@.len(),
                i <= n,
                cs@ == txt@.subrange(0, i as int),
            decreases n - i,
        {
            cs.push(txt.get_char(i));
            i = i + 1;
        }
        assert(cs@ =~= txt@);
        Scanner { chars: cs, pos: 0 }
    }

    /// Move to the next character; once at the end of the text, stay there.
    pub fn next(&mut self)
        requires
            old(self).wf(),
        ensures
            final(self).wf(),
            final(self).text() == old(self).text(),
            final(self).position() == if old(self).position() < old(self).text().len() {
                old(self).position() + 1
            } else {
                old(self).position()
            },
    {
        if self.pos < self.chars.len() {
            self.pos = self.pos + 1;
        }
    }

    /// The current character, or `None` at the end of the text.
    pub fn current(&self) -> (r: Option<char>)
        requires
            self.wf(),
        ensures
            r == self.peek(),
    {
        if self.pos < self.chars.len() {
            Some(self.chars[self.pos])
        } else {
            None
        }
    }

    pub proof fn lemma_position_bounds(&self)
        requires
            self.wf(),
        ensures
            0 <= self.position() <= self.text().len(),
    {
    }
}

/// Skip the whitespace characters space, tab, line feed and carriage
/// return at the current position.  Afterwards the current character is
/// not whitespace, or the end of the text is reached.
pub fn skip_ws(s: &mut Scanner)
    requires
        old(s).wf(),
    ensures
        final(s).wf(),
        final(s).text() == old(s).text(),
        final(s).position() == skip_ws_from(old(s).text(), old(s).position()),
{
    proof {
        s.lemma_position_bounds();
    }
    let ghost start = s.position();
    loop
        invariant
            s.wf(),
            s.text() == old(s).text(),
            start == old(s).position(),
            start <= s.position() <= s.text().len(),
            skip_ws_from(s.text(), start) == skip_ws_from(s.text(), s.position()),
        decreases s.text().len() - s.position(),
    {
        match s.current() {
            None => {
                return;
            },
            Some(c) => {
                if c == ' ' || c == '\r' || c == '\n' || c == '\t' {
                    s.next();
                } else {
                    return;
                }
            },
        }
    }
}

} // verus!
