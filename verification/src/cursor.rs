//! A backtrackable character-position reader over an input template.
//! A checkpoint is the position itself; restoring is rewinding to it.

use vstd::prelude::*;

verus! {

/// A reader over an immutable input, at a character position.
pub struct Cursor<'a> {
    pub text: &'a str,
    pub pos: usize,
}

impl<'a> Cursor<'a> {
    /// The position never passes the end of the input.
    pub open spec fn wf(&self) -> bool {
        self.pos <= self.text@.len()
    }

    /// A reader at the start of `text`.
    pub fn new(text: &'a str) -> (c: Cursor<'a>)
        ensures
            c.text == text,
            c.pos == 0,
            c.wf(),
    {
        Cursor { text, pos: 0 }
    }

    /// The number of characters of the input.
    pub fn input_len(&self) -> (n: usize)
        ensures
            n == self.text@.len(),
    {
        self.text.unicode_len()
    }

    /// True when every character has been consumed.
    pub fn at_end(&self) -> (r: bool)
        requires
            self.wf(),
        ensures
            r == (self.pos == self.text@.len()),
    {
        self.pos == self.text.unicode_len()
    }

    /// The next character, without consuming it.
    pub fn peek(&self) -> (r: Option<char>)
        requires
            self.wf(),
        ensures
            r == (if self.pos < self.text@.len() {
                Some(self.text@[self.pos as int])
            } else {
                None::<char>
            }),
    {
        if self.pos < self.text.unicode_len() {
            Some(self.text.get_char(self.pos))
        } else {
            None
        }
    }

    /// The character `k` places past the next one, without consuming.
    pub fn peek_ahead(&self, k: usize) -> (r: Option<char>)
        requires
            self.wf(),
        ensures
            r == (if self.pos + k < self.text@.len() {
                Some(self.text@[self.pos + k])
            } else {
                None::<char>
            }),
    {
        let l = self.text.unicode_len();
        if self.pos < l && k < l - self.pos {
            Some(self.text.get_char(self.pos + k))
        } else {
            None
        }
    }

    /// Consumes and returns the next character.
    pub fn advance(&mut self) -> (r: Option<char>)
        requires
            old(self).wf(),
        ensures
            final(self).text == old(self).text,
            final(self).wf(),
            r == (if old(self).pos < old(self).text@.len() {
                Some(old(self).text@[old(self).pos as int])
            } else {
                None::<char>
            }),
            final(self).pos == (if old(self).pos < old(self).text@.len() {
                old(self).pos + 1
            } else {
                old(self).pos as int
            }),
    {
        if self.pos < self.text.unicode_len() {
            let c = self.text.get_char(self.pos);
            self.pos = self.pos + 1;
            Some(c)
        } else {
            None
        }
    }

    /// A value that `restore` can rewind to, in constant time.
    pub fn checkpoint(&self) -> (r: usize)
        ensures
            r == self.pos,
    {
        self.pos
    }

    /// Rewinds to an earlier checkpoint, abandoning a speculative read.
    pub fn restore(&mut self, cp: usize)
        requires
            cp <= old(self).text@.len(),
        ensures
            final(self).text == old(self).text,
            final(self).pos == cp,
            final(self).wf(),
    {
        self.pos = cp;
    }

    /// The still-unconsumed suffix of the input.
    pub fn remaining(&self) -> (r: &'a str)
        requires
            self.wf(),
        ensures
            r@ == self.text@.subrange(self.pos as int, self.text@.len() as int),
    {
        self.text.substring_char(self.pos, self.text.unicode_len())
    }
}

} // verus!
