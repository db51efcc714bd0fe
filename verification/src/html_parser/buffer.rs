//! The source buffer: the input as a character-at-a-time pull sequence.

use vstd::prelude::*;
use vstd::string::StrSliceExecFns;

verus! {

/// A finite, fully materialized queue of the input's characters. There is
/// no lookahead and no refill: the whole input is present up front, and
/// characters leave from the front, one per [`Buffer::next`] call.
pub struct Buffer {
    vec: Vec<char>,
    pos: usize,
}

impl View for Buffer {
    type V = Seq<char>;

    /// The characters not yet handed out, in order.
    closed spec fn view(&self) -> Seq<char> {
        if self.pos as int <= self.vec@.len() {
            self.vec@.skip(self.pos as int)
        } else {
            Seq::empty()
        }
    }
}

impl Buffer {
    /// Wrap an input string; the buffer then holds exactly its characters.
    pub fn new(input: &str) -> (b: Buffer)
        ensures
            b@ == input@,
    {
        let n = input.unicode_len();
        let mut vec: Vec<char> = Vec::new();
        let mut i: usize = 0;
        while i < n
            invariant
                n == input@.len(),
                i <= n,
                vec@ == input@.take(i as int),
            decreases n - i,
        {
            vec.push(input.get_char(i));
            i = i + 1;
            proof {
                assert(vec@ =~= input@.take(i as int));
            }
        }
        proof {
            assert(vec@ =~= input@);
        }
        Buffer { vec, pos: 0 }
    }

    /// Whether every character has been handed out.
    pub fn is_empty(&self) -> (r: bool)
        ensures
            r == (self@.len() == 0),
    {
        self.pos >= self.vec.len()
    }

    /// Hand out the next character. Callers must guard with
    /// [`Buffer::is_empty`] first.
    pub fn next(&mut self) -> (c: char)
        requires
            old(self)@.len() > 0,
        ensures
            c == old(self)@[0],
            final(self)@ == old(self)@.skip(1),
    {
        proof {
            assert(self.pos < self.vec.len());
        }
        let c = self.vec[self.pos];
        self.pos = self.pos + 1;
        proof {
            assert(self@ =~= old(self)@.skip(1));
        }
        c
    }
}

} // verus!
