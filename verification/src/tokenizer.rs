//! A cursor over a fully materialized character sequence: the
//! character-queue collaborator that recursive-descent parsing leans on.
//! It offers peeking, single-character consumption, prefix tests and
//! predicate-driven runs.

use vstd::prelude::*;
use vstd::string::StrSliceExecFns;

verus! {

/// Whether `c` is whitespace, matching the set that Rust's character
/// classification uses: the ASCII whitespace characters and the Unicode
/// `White_Space` code points.
pub open spec fn spec_is_whitespace(c: char) -> bool {
    ||| c == ' '
    ||| c == '\t'
    ||| c == '\n'
    ||| c == '\r'
    ||| c == '\x0B'
    ||| c == '\x0C'
    ||| c == '\u{85}'
    ||| c == '\u{A0}'
    ||| c == '\u{1680}'
    ||| ('\u{2000}' <= c && c <= '\u{200A}')
    ||| c == '\u{2028}'
    ||| c == '\u{2029}'
    ||| c == '\u{202F}'
    ||| c == '\u{205F}'
    ||| c == '\u{3000}'
}

/// Whitespace test, decided character by character.
pub fn is_whitespace_char(c: char) -> (r: bool)
    ensures
        r == spec_is_whitespace(c),
{
    c == ' ' || c == '\t' || c == '\n' || c == '\r' || c == '\x0B' || c == '\x0C'
        || c == '\u{85}' || c == '\u{A0}' || c == '\u{1680}' || ('\u{2000}' <= c && c
        <= '\u{200A}') || c == '\u{2028}' || c == '\u{2029}' || c == '\u{202F}' || c == '\u{205F}'
        || c == '\u{3000}'
}

/// A cursor over the input's characters: `pos` counts how many have been
/// consumed.
pub struct Tokenizer {
    pub pos: usize,
    pub input: Vec<char>,
}

impl Tokenizer {
    /// The characters not yet consumed, in order.
    pub open spec fn remaining(&self) -> Seq<char> {
        if self.pos as int <= self.input@.len() {
            self.input@.skip(self.pos as int)
        } else {
            Seq::empty()
        }
    }

    /// Consume the maximal whitespace run at the cursor.
    pub fn consume_whitespace(&mut self)
        ensures
            final(self).input == old(self).input,
            old(self).pos <= final(self).pos,
            final(self).pos as int <= old(self).input@.len() || final(self).pos == old(self).pos,
            final(self).remaining() == old(self).remaining().skip(
                old(self).remaining().len() - final(self).remaining().len(),
            ),
            forall|i: int|
                0 <= i < old(self).remaining().len() - final(self).remaining().len()
                    ==> spec_is_whitespace(#[trigger] old(self).remaining()[i]),
            final(self).remaining().len() > 0 ==> !spec_is_whitespace(final(self).remaining()[0]),
    {
        let ghost rem = self.remaining();
        let result = self.consume_while(is_whitespace_char);
        proof {
            let n = result@.len() as int;
            assert(self.remaining() =~= rem.skip(n));
            assert forall|i: int| 0 <= i < n implies spec_is_whitespace(#[trigger] rem[i]) by {
                assert(call_ensures(is_whitespace_char, (rem[i],), true));
            }
            if self.remaining().len() > 0 {
                assert(call_ensures(is_whitespace_char, (rem[n],), false));
                assert(self.remaining()[0] == rem[n]);
            }
        }
    }

    /// Consume the maximal run of characters that the predicate accepts
    /// and return it. The predicate must be callable on any character; the
    /// run ends at the first character for which it returned false, or at
    /// the end of the input.
    pub fn consume_while<F: Fn(char) -> bool>(&mut self, f: F) -> (result: Vec<char>)
        requires
            forall|c: char| #[trigger] call_requires(f, (c,)),
        ensures
            final(self).input == old(self).input,
            result@.len() <= old(self).remaining().len(),
            final(self).pos == old(self).pos + result@.len(),
            result@ == old(self).remaining().take(result@.len() as int),
            forall|i: int|
                0 <= i < result@.len() ==> call_ensures(
                    f,
                    (#[trigger] old(self).remaining()[i],),
                    true,
                ),
            result@.len() < old(self).remaining().len() ==> call_ensures(
                f,
                (old(self).remaining()[result@.len() as int],),
                false,
            ),
    {
        let mut result: Vec<char> = Vec::new();
        let ghost rem = old(self).remaining();
        let ghost pos0 = old(self).pos as int;
        proof {
            if self.pos as int > self.input@.len() {
                assert(rem.len() == 0);
            }
        }
        loop
            invariant_except_break
                forall|c: char| #[trigger] call_requires(f, (c,)),
                self.input == old(self).input,
                pos0 <= self.pos as int,
                self.pos as int <= self.input@.len() || self.pos as int == pos0,
                rem == old(self).remaining(),
                pos0 == old(self).pos as int,
                result@.len() == self.pos as int - pos0,
                result@ == rem.take(result@.len() as int),
                forall|i: int|
                    0 <= i < result@.len() ==> call_ensures(f, (#[trigger] rem[i],), true),
            ensures
                self.input == old(self).input,
                result@.len() <= rem.len(),
                self.pos as int == pos0 + result@.len(),
                result@ == rem.take(result@.len() as int),
                forall|i: int|
                    0 <= i < result@.len() ==> call_ensures(f, (#[trigger] rem[i],), true),
                result@.len() < rem.len() ==> call_ensures(
                    f,
                    (rem[result@.len() as int],),
                    false,
                ),
            decreases self.input@.len() - self.pos as int,
        {
            if self.eof() {
                proof {
                    assert(result@.len() == rem.len());
                }
                break ;
            }
            let c = self.next_char();
            if !f(c) {
                proof {
                    assert(rem[result@.len() as int] == c);
                }
                break ;
            }
            let consumed = self.consume_char();
            result.push(consumed);
            proof {
                assert(result@ =~= rem.take(result@.len() as int));
            }
        }
        result
    }

    /// Consume one character and advance past it. Callers must first rule
    /// out the end of the input.
    pub fn consume_char(&mut self) -> (c: char)
        requires
            old(self).remaining().len() > 0,
        ensures
            final(self).input == old(self).input,
            final(self).pos == old(self).pos + 1,
            c == old(self).remaining()[0],
            final(self).remaining() == old(self).remaining().skip(1),
    {
        proof {
            assert(self.pos < self.input.len());
        }
        let c = self.input[self.pos];
        self.pos = self.pos + 1;
        proof {
            assert(self.remaining() =~= old(self).remaining().skip(1));
        }
        c
    }

    /// Whether the not-yet-consumed input starts with `s`.
    pub fn starts_with(&self, s: &str) -> (r: bool)
        ensures
            r == (s@.len() <= self.remaining().len() && self.remaining().take(s@.len() as int)
                == s@),
    {
        let n = s.unicode_len();
        let mut i: usize = 0;
        let rem_len = if self.pos >= self.input.len() {
            0
        } else {
            self.input.len() - self.pos
        };
        proof {
            assert(rem_len == self.remaining().len());
        }
        if n > rem_len {
            return false;
        }
        while i < n
            invariant
                n == s@.len(),
                i <= n,
                n <= self.remaining().len(),
                n > 0 ==> self.pos as int + n <= self.input@.len(),
                forall|j: int| 0 <= j < i ==> self.remaining()[j] == s@[j],
            decreases n - i,
        {
            proof {
                assert(self.pos as int + n <= self.input.len());
                assert(self.pos as int + i < self.input.len());
            }
            if self.input[self.pos + i] != s.get_char(i) {
                proof {
                    assert(self.remaining()[i as int] != s@[i as int]);
                    assert(self.remaining().take(s@.len() as int)[i as int] != s@[i as int]);
                }
                return false;
            }
            i = i + 1;
        }
        proof {
            assert(self.remaining().take(s@.len() as int) =~= s@);
        }
        true
    }

    /// Whether every character has been consumed.
    pub fn eof(&self) -> (r: bool)
        ensures
            r == (self.remaining().len() == 0),
    {
        self.pos >= self.input.len()
    }

    /// The next character, without consuming it. Callers must first rule
    /// out the end of the input.
    pub fn next_char(&self) -> (c: char)
        requires
            self.remaining().len() > 0,
        ensures
            c == self.remaining()[0],
    {
        proof {
            assert(self.pos < self.input.len());
        }
        self.input[self.pos]
    }
}

} // verus!
