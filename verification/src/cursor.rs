//! A one-character-lookahead cursor over a source text, with positional
//! capture: a scan remembers where it started and takes the consumed
//! spelling as a substring, which keeps control flow linear.

use vstd::prelude::*;
use vstd::string::StrSliceExecFns;
use vstd::string::StringExecFns;

verus! {

/// A cursor over a source text: the text itself and the number of
/// characters already consumed.
pub struct Cursor<'a> {
    source: &'a str,
    pos: usize,
    len: usize,
}

impl<'a> Cursor<'a> {
    /// All characters of the source text.
    pub closed spec fn chars(self) -> Seq<char> {
        self.source@
    }

    /// How many characters have been consumed.
    pub closed spec fn pos(self) -> nat {
        self.pos as nat
    }

    /// The characters not yet consumed.
    pub open spec fn remaining(self) -> Seq<char> {
        self.chars().skip(self.pos() as int)
    }

    pub closed spec fn wf(self) -> bool {
        self.pos <= self.len && self.len == self.source@.len()
    }

    /// A well-formed cursor sits inside its text.
    pub proof fn lemma_wf(self)
        requires
            self.wf(),
        ensures
            self.pos() <= self.chars().len(),
            self.remaining().len() == self.chars().len() - self.pos(),
    {
    }

    pub fn new(source: &'a str) -> (c: Cursor<'a>)
        ensures
            c.wf(),
            c.chars() == source@,
            c.pos() == 0,
    {
        let len = source.unicode_len();
        Cursor { source, pos: 0, len }
    }

    /// The current position, as a character index into the source.
    pub fn position(&self) -> (p: usize)
        ensures
            p as nat == self.pos(),
    {
        self.pos
    }

    /// No characters are left.
    pub fn at_end(&self) -> (r: bool)
        requires
            self.wf(),
        ensures
            r == (self.remaining().len() == 0),
    {
        self.pos == self.len
    }

    /// The lookahead character, without consuming it.
    pub fn peek(&self) -> (r: Option<char>)
        requires
            self.wf(),
        ensures
            self.remaining().len() > 0 ==> r == Some(self.remaining()[0]),
            self.remaining().len() == 0 ==> r is None,
    {
        if self.pos < self.len {
            Some(self.source.get_char(self.pos))
        } else {
            None
        }
    }

    /// The lookahead character equals `c`.
    pub fn check(&self, c: char) -> (r: bool)
        requires
            self.wf(),
        ensures
            r == (self.remaining().len() > 0 && self.remaining()[0] == c),
    {
        match self.peek() {
            Some(l) => l == c,
            None => false,
        }
    }

    /// Consume the lookahead character.
    pub fn advance(&mut self)
        requires
            old(self).wf(),
            old(self).remaining().len() > 0,
        ensures
            final(self).wf(),
            final(self).chars() == old(self).chars(),
            final(self).pos() == old(self).pos() + 1,
    {
        self.pos = self.pos + 1;
    }

    /// The spelling consumed between an earlier position `start` and the
    /// current position.
    pub fn captured(&self, start: usize) -> (s: String)
        requires
            self.wf(),
            start as nat <= self.pos(),
        ensures
            s@ == self.chars().subrange(start as int, self.pos() as int),
    {
        String::from_str(self.source.substring_char(start, self.pos))
    }
}

} // verus!
