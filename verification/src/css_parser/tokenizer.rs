//! The style-sheet tokenizer: a peekable stream of tokens cut from the
//! source one at a time.

use vstd::prelude::*;
use vstd::string::StrSliceExecFns;

use crate::tokenizer::{is_whitespace_char, spec_is_whitespace};

verus! {

/// A token of the style-sheet mini-language.
#[derive(Debug, PartialEq, Eq)]
pub enum Token {
    WhiteSpace(Vec<char>),
    Ident(Vec<char>),
    Comment(Vec<char>),
    /// `#my-id`, `#ffffff`
    Hash(Vec<char>),
    /// `42`
    Number(Vec<char>),
    /// `"SF Pro Display"`
    StringLiteral(Vec<char>),
    OpenCurly,
    CloseCurly,
    OpenBracket,
    CloseBracket,
    Colon,
    SemiColon,
    Dot,
    CloseAngle,
    Comma,
    Asterisk,
    Percentage,
    /// End of source.
    EOS,
}

/// Mathematical model of a [`Token`].
#[verifier::ext_equal]
pub enum TokenModel {
    WhiteSpace(Seq<char>),
    Ident(Seq<char>),
    Comment(Seq<char>),
    Hash(Seq<char>),
    Number(Seq<char>),
    StringLiteral(Seq<char>),
    OpenCurly,
    CloseCurly,
    OpenBracket,
    CloseBracket,
    Colon,
    SemiColon,
    Dot,
    CloseAngle,
    Comma,
    Asterisk,
    Percentage,
    EOS,
}

impl View for Token {
    type V = TokenModel;

    open spec fn view(&self) -> TokenModel {
        match self {
            Token::WhiteSpace(s) => TokenModel::WhiteSpace(s@),
            Token::Ident(s) => TokenModel::Ident(s@),
            Token::Comment(s) => TokenModel::Comment(s@),
            Token::Hash(s) => TokenModel::Hash(s@),
            Token::Number(s) => TokenModel::Number(s@),
            Token::StringLiteral(s) => TokenModel::StringLiteral(s@),
            Token::OpenCurly => TokenModel::OpenCurly,
            Token::CloseCurly => TokenModel::CloseCurly,
            Token::OpenBracket => TokenModel::OpenBracket,
            Token::CloseBracket => TokenModel::CloseBracket,
            Token::Colon => TokenModel::Colon,
            Token::SemiColon => TokenModel::SemiColon,
            Token::Dot => TokenModel::Dot,
            Token::CloseAngle => TokenModel::CloseAngle,
            Token::Comma => TokenModel::Comma,
            Token::Asterisk => TokenModel::Asterisk,
            Token::Percentage => TokenModel::Percentage,
            Token::EOS => TokenModel::EOS,
        }
    }
}

/// An ASCII uppercase letter.
pub open spec fn spec_is_upper_letter(c: char) -> bool {
    'A' <= c && c <= 'Z'
}

/// An ASCII lowercase letter.
pub open spec fn spec_is_lower_letter(c: char) -> bool {
    'a' <= c && c <= 'z'
}

/// An ASCII letter.
pub open spec fn spec_is_letter(c: char) -> bool {
    spec_is_upper_letter(c) || spec_is_lower_letter(c)
}

/// A character outside the ASCII range.
pub open spec fn spec_is_non_ascii(c: char) -> bool {
    c >= '\u{0080}'
}

/// A character that may start an identifier.
pub open spec fn spec_is_valid_start_ident(c: char) -> bool {
    spec_is_letter(c) || spec_is_non_ascii(c) || c == '_'
}

/// An ASCII digit.
pub open spec fn spec_is_digit(c: char) -> bool {
    '0' <= c && c <= '9'
}

/// A character that may continue an identifier.
pub open spec fn spec_is_valid_ident(c: char) -> bool {
    spec_is_valid_start_ident(c) || spec_is_digit(c) || c == '-'
}

/// The ASCII whitespace characters on which tokenization dispatches into
/// a whitespace run.
pub open spec fn spec_ws_dispatch(c: char) -> bool {
    c == '\t' || c == '\n' || c == '\r' || c == '\x0C' || c == ' '
}

/// The length of the maximal prefix of `s` whose characters satisfy `p`.
pub open spec fn run_len(s: Seq<char>, p: spec_fn(char) -> bool) -> nat
    decreases s.len(),
{
    if s.len() == 0 || !p(s[0]) {
        0
    } else {
        1 + run_len(s.skip(1), p)
    }
}

/// The token cut from the front of `s`, and how many characters it
/// consumes. Whitespace and identifier runs are maximal; an unrecognized
/// character is consumed and ends the stream.
pub open spec fn spec_consume_token(s: Seq<char>) -> (TokenModel, int) {
    if s.len() == 0 {
        (TokenModel::EOS, 0)
    } else if spec_ws_dispatch(s[0]) {
        let n = run_len(s, |c: char| spec_is_whitespace(c)) as int;
        (TokenModel::WhiteSpace(s.take(n)), n)
    } else if spec_is_valid_start_ident(s[0]) {
        let n = run_len(s, |c: char| spec_is_valid_ident(c)) as int;
        (TokenModel::Ident(s.take(n)), n)
    } else if s[0] == '#' {
        let n = run_len(s.skip(1), |c: char| spec_is_valid_ident(c)) as int;
        (TokenModel::Hash(s.skip(1).take(n)), 1 + n)
    } else if s[0] == '{' {
        (TokenModel::OpenCurly, 1)
    } else if s[0] == '}' {
        (TokenModel::CloseCurly, 1)
    } else if s[0] == '(' {
        (TokenModel::OpenBracket, 1)
    } else if s[0] == ')' {
        (TokenModel::CloseBracket, 1)
    } else if s[0] == ':' {
        (TokenModel::Colon, 1)
    } else if s[0] == ';' {
        (TokenModel::SemiColon, 1)
    } else if s[0] == ',' {
        (TokenModel::Comma, 1)
    } else if s[0] == '>' {
        (TokenModel::CloseAngle, 1)
    } else if s[0] == '.' {
        (TokenModel::Dot, 1)
    } else if s[0] == '*' {
        (TokenModel::Asterisk, 1)
    } else if s[0] == '%' {
        (TokenModel::Percentage, 1)
    } else {
        (TokenModel::EOS, 1)
    }
}

/// An ASCII letter test.
pub fn is_letter(c: char) -> (r: bool)
    ensures
        r == spec_is_letter(c),
{
    is_upper_letter(c) || is_lower_letter(c)
}

/// An ASCII uppercase letter test.
pub fn is_upper_letter(c: char) -> (r: bool)
    ensures
        r == spec_is_upper_letter(c),
{
    c >= 'A' && c <= 'Z'
}

/// An ASCII lowercase letter test.
pub fn is_lower_letter(c: char) -> (r: bool)
    ensures
        r == spec_is_lower_letter(c),
{
    c >= 'a' && c <= 'z'
}

/// A non-ASCII character test.
pub fn is_non_ascii(c: char) -> (r: bool)
    ensures
        r == spec_is_non_ascii(c),
{
    c >= '\u{0080}'
}

/// May `c` start an identifier?
pub fn is_valid_start_ident(c: char) -> (r: bool)
    ensures
        r == spec_is_valid_start_ident(c),
{
    is_letter(c) || is_non_ascii(c) || c == '_'
}

/// May `c` continue an identifier?
pub fn is_valid_ident(c: char) -> (r: bool)
    ensures
        r == spec_is_valid_ident(c),
{
    is_valid_start_ident(c) || (c >= '0' && c <= '9') || c == '-'
}

/// The peekable token stream.
pub struct Tokenizer {
    source: Vec<char>,
    pos: usize,
    current: Option<Token>,
}

impl Tokenizer {
    /// The characters not yet cut into tokens.
    pub closed spec fn rest(&self) -> Seq<char> {
        if self.pos as int <= self.source@.len() {
            self.source@.skip(self.pos as int)
        } else {
            Seq::empty()
        }
    }

    /// The token already cut but not yet taken, if any.
    pub closed spec fn peeked(&self) -> Option<TokenModel> {
        match self.current {
            Some(t) => Some(t@),
            None => None,
        }
    }

    /// A fresh tokenizer over the whole input, with nothing peeked yet.
    pub fn new(input: &str) -> (t: Tokenizer)
        ensures
            t.rest() == input@,
            t.peeked() is None,
    {
        let n = input.unicode_len();
        let mut source: Vec<char> = Vec::new();
        let mut i: usize = 0;
        while i < n
            invariant
                n == input@.len(),
                i <= n,
                source@ == input@.take(i as int),
            decreases n - i,
        {
            source.push(input.get_char(i));
            i = i + 1;
            proof {
                assert(source@ =~= input@.take(i as int));
            }
        }
        proof {
            assert(source@ =~= input@);
        }
        Tokenizer { source, pos: 0, current: None }
    }

    /// The next token, without taking it: it is cut now if none is
    /// pending, and stays pending.
    pub fn peek(&mut self) -> (t: &Token)
        ensures
            old(self).peeked() matches Some(m) ==> {
                &&& *final(self) == *old(self)
                &&& t@ == m
            },
            old(self).peeked() is None ==> {
                &&& t@ == spec_consume_token(old(self).rest()).0
                &&& final(self).peeked() == Some(spec_consume_token(old(self).rest()).0)
                &&& final(self).rest() == old(self).rest().skip(
                    spec_consume_token(old(self).rest()).1,
                )
            },
    {
        if self.current.is_none() {
            let token = self.consume_token();
            self.current = Some(token);
        }
        self.current.as_ref().unwrap()
    }

    /// The next token, consuming it: the pending one if a peek cut it
    /// already, else cut from the source now.
    pub fn next(&mut self) -> (t: Token)
        ensures
            final(self).peeked() is None,
            old(self).peeked() matches Some(m) ==> {
                &&& t@ == m
                &&& final(self).rest() == old(self).rest()
            },
            old(self).peeked() is None ==> {
                &&& t@ == spec_consume_token(old(self).rest()).0
                &&& final(self).rest() == old(self).rest().skip(
                    spec_consume_token(old(self).rest()).1,
                )
            },
    {
        let mut pending: Option<Token> = None;
        core::mem::swap(&mut pending, &mut self.current);
        match pending {
            Some(t) => t,
            None => self.consume_token(),
        }
    }

    /// Cut one token from the front of the source.
    fn consume_token(&mut self) -> (t: Token)
        ensures
            final(self).current == old(self).current,
            t@ == spec_consume_token(old(self).rest()).0,
            final(self).rest() == old(self).rest().skip(spec_consume_token(old(self).rest()).1),
    {
        let ghost rem = self.rest();
        if self.pos >= self.source.len() {
            proof {
                assert(rem.len() == 0);
                assert(rem.skip(0) =~= rem);
            }
            return Token::EOS;
        }
        let c = self.source[self.pos];
        proof {
            assert(c == rem[0]);
        }
        if c == '\t' || c == '\n' || c == '\r' || c == '\x0C' || c == ' ' {
            Token::WhiteSpace(self.consume_whitespace())
        } else if is_valid_start_ident(c) {
            Token::Ident(self.consume_identifier())
        } else {
            self.pos = self.pos + 1;
            proof {
                assert(self.rest() =~= rem.skip(1));
            }
            match c {
                '#' => {
                    let r = self.consume_identifier();
                    proof {
                        let n = r@.len() as int;
                        assert(rem.skip(1).skip(n) =~= rem.skip(1 + n));
                    }
                    Token::Hash(r)
                },
                '{' => Token::OpenCurly,
                '}' => Token::CloseCurly,
                '(' => Token::OpenBracket,
                ')' => Token::CloseBracket,
                ':' => Token::Colon,
                ';' => Token::SemiColon,
                ',' => Token::Comma,
                '>' => Token::CloseAngle,
                '.' => Token::Dot,
                '*' => Token::Asterisk,
                '%' => Token::Percentage,
                _ => Token::EOS,
            }
        }
    }

    /// Consume the maximal identifier run at the cursor.
    fn consume_identifier(&mut self) -> (r: Vec<char>)
        ensures
            final(self).current == old(self).current,
            r@.len() <= old(self).rest().len(),
            r@.len() == run_len(old(self).rest(), |c: char| spec_is_valid_ident(c)),
            r@ == old(self).rest().take(r@.len() as int),
            final(self).rest() == old(self).rest().skip(r@.len() as int),
    {
        let ghost rem = self.rest();
        let r = self.consume_while(is_valid_ident);
        proof {
            let n = r@.len();
            assert forall|i: int| 0 <= i < n implies spec_is_valid_ident(#[trigger] rem[i]) by {
                assert(call_ensures(is_valid_ident, (rem[i],), true));
            }
            if n < rem.len() {
                assert(call_ensures(is_valid_ident, (rem[n as int],), false));
            }
            lemma_run_len_chars(rem, |c: char| spec_is_valid_ident(c), n);
        }
        r
    }

    /// Consume the maximal digit run at the cursor.
    #[allow(dead_code)]
    fn consume_number(&mut self) -> (r: Vec<char>)
        ensures
            final(self).current == old(self).current,
            r@.len() <= old(self).rest().len(),
            r@.len() == run_len(old(self).rest(), |c: char| spec_is_digit(c)),
            r@ == old(self).rest().take(r@.len() as int),
            final(self).rest() == old(self).rest().skip(r@.len() as int),
    {
        let ghost rem = self.rest();
        let r = self.consume_while(is_digit_char);
        proof {
            let n = r@.len();
            assert forall|i: int| 0 <= i < n implies spec_is_digit(#[trigger] rem[i]) by {
                assert(call_ensures(is_digit_char, (rem[i],), true));
            }
            if n < rem.len() {
                assert(call_ensures(is_digit_char, (rem[n as int],), false));
            }
            lemma_run_len_chars(rem, |c: char| spec_is_digit(c), n);
        }
        r
    }

    /// Consume the maximal whitespace run at the cursor.
    fn consume_whitespace(&mut self) -> (r: Vec<char>)
        ensures
            final(self).current == old(self).current,
            r@.len() <= old(self).rest().len(),
            r@.len() == run_len(old(self).rest(), |c: char| spec_is_whitespace(c)),
            r@ == old(self).rest().take(r@.len() as int),
            final(self).rest() == old(self).rest().skip(r@.len() as int),
    {
        let ghost rem = self.rest();
        let r = self.consume_while(is_whitespace_char);
        proof {
            let n = r@.len();
            assert forall|i: int| 0 <= i < n implies spec_is_whitespace(#[trigger] rem[i]) by {
                assert(call_ensures(is_whitespace_char, (rem[i],), true));
            }
            if n < rem.len() {
                assert(call_ensures(is_whitespace_char, (rem[n as int],), false));
            }
            lemma_run_len_chars(rem, |c: char| spec_is_whitespace(c), n);
        }
        r
    }

    /// Consume the maximal run of characters the predicate accepts.
    fn consume_while<F: Fn(char) -> bool>(&mut self, condition: F) -> (r: Vec<char>)
        requires
            forall|c: char| #[trigger] call_requires(condition, (c,)),
        ensures
            final(self).current == old(self).current,
            r@.len() <= old(self).rest().len(),
            r@ == old(self).rest().take(r@.len() as int),
            final(self).rest() == old(self).rest().skip(r@.len() as int),
            forall|i: int|
                0 <= i < r@.len() ==> call_ensures(
                    condition,
                    (#[trigger] old(self).rest()[i],),
                    true,
                ),
            r@.len() < old(self).rest().len() ==> call_ensures(
                condition,
                (old(self).rest()[r@.len() as int],),
                false,
            ),
    {
        let ghost rem = old(self).rest();
        let ghost pos0 = old(self).pos as int;
        let mut r: Vec<char> = Vec::new();
        loop
            invariant_except_break
                forall|c: char| #[trigger] call_requires(condition, (c,)),
                self.current == old(self).current,
                self.source == old(self).source,
                pos0 <= self.pos as int,
                self.pos as int <= self.source@.len() || self.pos as int == pos0,
                rem == old(self).rest(),
                pos0 == old(self).pos as int,
                r@.len() == self.pos as int - pos0,
                r@ == rem.take(r@.len() as int),
                forall|i: int|
                    0 <= i < r@.len() ==> call_ensures(condition, (#[trigger] rem[i],), true),
            ensures
                self.current == old(self).current,
                self.source == old(self).source,
                r@.len() <= rem.len(),
                self.pos as int == pos0 + r@.len(),
                r@ == rem.take(r@.len() as int),
                forall|i: int|
                    0 <= i < r@.len() ==> call_ensures(condition, (#[trigger] rem[i],), true),
                r@.len() < rem.len() ==> call_ensures(
                    condition,
                    (rem[r@.len() as int],),
                    false,
                ),
            decreases self.source@.len() - self.pos as int,
        {
            if self.pos >= self.source.len() {
                proof {
                    assert(r@.len() == rem.len());
                }
                break ;
            }
            let c = self.source[self.pos];
            proof {
                assert(rem[r@.len() as int] == c);
            }
            if !condition(c) {
                break ;
            }
            self.pos = self.pos + 1;
            r.push(c);
            proof {
                assert(r@ =~= rem.take(r@.len() as int));
            }
        }
        proof {
            assert(self.rest() =~= rem.skip(r@.len() as int));
        }
        r
    }
}

/// An ASCII digit test.
fn is_digit_char(c: char) -> (r: bool)
    ensures
        r == spec_is_digit(c),
{
    c >= '0' && c <= '9'
}

/// A maximal satisfying prefix has exactly the length that `run_len`
/// gives.
proof fn lemma_run_len_chars(s: Seq<char>, p: spec_fn(char) -> bool, n: nat)
    requires
        n <= s.len(),
        forall|i: int| 0 <= i < n ==> p(#[trigger] s[i]),
        n < s.len() ==> !p(s[n as int]),
    ensures
        run_len(s, p) == n,
    decreases n,
{
    if n == 0 {
    } else {
        assert(p(s[0]));
        assert(forall|i: int| 0 <= i < n - 1 ==> p(#[trigger] s.skip(1)[i]));
        if n < s.len() {
            assert(s.skip(1)[n - 1] == s[n as int]);
        }
        lemma_run_len_chars(s.skip(1), p, (n - 1) as nat);
    }
}

} // verus!
