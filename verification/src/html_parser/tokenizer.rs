//! The tokenizer: an explicit finite-state machine that consumes the input
//! one character at a time, accumulates partial tokens across transitions,
//! case-folds identifiers, and emits discrete tokens into a [`TokenSink`].
//!
//! The machine is specified by [`spec_step`], the per-character transition
//! table, and [`spec_run`], its fold over an input sequence. Every
//! executable method's contract is stated against that model.

use vstd::prelude::*;
use vstd::string::StrSliceExecFns;

use super::buffer::Buffer;
use super::interface::attrs_model;
use super::interface::{
    AttrModel, AttrValueKind, Attribute, State, TagKind, TagModel, TagToken, Token, TokenModel,
    TokenSink,
};

verus! {

/// Case-fold one character as the tokenizer does while consuming input:
/// ASCII uppercase letters map to lowercase, everything else is unchanged.
pub open spec fn spec_lower_char(c: char) -> char {
    if 'A' <= c && c <= 'Z' {
        ((c as u32) + 32) as char
    } else {
        c
    }
}

/// The lowercase form of `c` when `c` is an ASCII letter, `None` otherwise.
pub open spec fn spec_lower_ascii_letter(c: char) -> Option<char> {
    if 'a' <= c && c <= 'z' {
        Some(c)
    } else if 'A' <= c && c <= 'Z' {
        Some(spec_lower_char(c))
    } else {
        None
    }
}

/// Case-folding applied to a whole sequence of characters.
pub open spec fn spec_lower_seq(s: Seq<char>) -> Seq<char> {
    s.map_values(|c: char| spec_lower_char(c))
}

/// The whitespace set of the tag and attribute-name states: tab, line
/// feed, form feed, space.
pub open spec fn spec_tag_ws(c: char) -> bool {
    c == '\t' || c == '\n' || c == '\x0C' || c == ' '
}

/// The whitespace set of the attribute-value states: additionally the
/// carriage return.
pub open spec fn spec_value_ws(c: char) -> bool {
    spec_tag_ws(c) || c == '\r'
}

/// Mathematical model of the tokenizer's mutable state: the machine state
/// and every accumulator for partial tokens.
pub struct MachineModel {
    pub state: State,
    /// The pending run of literal characters.
    pub chars: Seq<char>,
    pub tag_kind: TagKind,
    pub tag_name: Seq<char>,
    pub self_closing: bool,
    pub attrs: Seq<AttrModel>,
    pub attr_name: Seq<char>,
    pub attr_value: Seq<char>,
}

/// The machine before any character was consumed.
pub open spec fn init_machine() -> MachineModel {
    MachineModel {
        state: State::Data,
        chars: Seq::empty(),
        tag_kind: TagKind::StartTag,
        tag_name: Seq::empty(),
        self_closing: false,
        attrs: Seq::empty(),
        attr_name: Seq::empty(),
        attr_value: Seq::empty(),
    }
}

/// Finalize the pending attribute: append it to the tag's attribute list
/// if its name is non-empty (duplicates allowed), and clear the attribute
/// accumulators.
pub open spec fn finish_attr_model(m: MachineModel) -> MachineModel {
    if m.attr_name.len() == 0 {
        m
    } else {
        MachineModel {
            attrs: m.attrs.push(AttrModel { name: m.attr_name, value: m.attr_value }),
            attr_name: Seq::empty(),
            attr_value: Seq::empty(),
            ..m
        }
    }
}

/// The tag token that an emission in machine state `m` sends to the sink.
pub open spec fn emitted_tag_model(m: MachineModel) -> TagModel {
    let f = finish_attr_model(m);
    TagModel { kind: f.tag_kind, name: f.tag_name, self_closing: f.self_closing, attrs: f.attrs }
}

/// The machine after a tag emission: the pending attribute finalized, the
/// per-tag accumulators reset so the next tag starts clean, and the state
/// set to `next`.
pub open spec fn after_emit_tag_model(m: MachineModel, next: State) -> MachineModel {
    let f = finish_attr_model(m);
    MachineModel {
        state: next,
        tag_name: Seq::empty(),
        attrs: Seq::empty(),
        self_closing: false,
        ..f
    }
}

/// Start a new tag token of the given kind whose name begins with the
/// (already lowercased) letter `c`.
pub open spec fn create_tag_model(m: MachineModel, kind: TagKind, c: char, next: State) -> MachineModel {
    MachineModel {
        state: next,
        tag_kind: kind,
        tag_name: seq![c],
        attrs: Seq::empty(),
        self_closing: false,
        ..m
    }
}

/// Finalize any pending attribute, then start a new one whose name begins
/// with the (already lowercased) letter `c`.
pub open spec fn create_attr_model(m: MachineModel, c: char, next: State) -> MachineModel {
    let f = finish_attr_model(m);
    MachineModel { state: next, attr_name: seq![c], ..f }
}

/// One transition of the finite-state machine: consume `c` in machine
/// state `m`. The result is the next machine state and the sequence of
/// tokens emitted by this transition, in order. Exactly one character is
/// consumed per step, so the machine always makes progress.
pub open spec fn spec_step(m: MachineModel, c: char) -> (MachineModel, Seq<TokenModel>) {
    match m.state {
        State::Data => {
            if c == '<' {
                (
                    MachineModel { state: State::TagOpen, chars: Seq::empty(), ..m },
                    seq![TokenModel::Characters(m.chars)],
                )
            } else {
                (MachineModel { chars: m.chars.push(c), ..m }, Seq::empty())
            }
        },
        State::TagOpen => {
            if c == '/' {
                (MachineModel { state: State::EndTagOpen, ..m }, Seq::empty())
            } else {
                match spec_lower_ascii_letter(c) {
                    Some(l) => (
                        create_tag_model(m, TagKind::StartTag, l, State::TagName),
                        Seq::empty(),
                    ),
                    None => (m, seq![TokenModel::ParseError]),
                }
            }
        },
        State::EndTagOpen => {
            if c == '>' {
                (m, seq![TokenModel::ParseError])
            } else {
                match spec_lower_ascii_letter(c) {
                    Some(l) => (
                        create_tag_model(m, TagKind::EndTag, l, State::TagName),
                        Seq::empty(),
                    ),
                    None => (m, seq![TokenModel::ParseError]),
                }
            }
        },
        State::TagName => {
            if spec_tag_ws(c) {
                (MachineModel { state: State::BeforeAttributeName, ..m }, Seq::empty())
            } else if c == '/' {
                (
                    MachineModel { state: State::SelfClosingStartTag, chars: Seq::empty(), ..m },
                    seq![TokenModel::Characters(m.chars)],
                )
            } else if c == '>' {
                (
                    after_emit_tag_model(m, State::Data),
                    seq![TokenModel::Tag(emitted_tag_model(m))],
                )
            } else {
                (MachineModel { tag_name: m.tag_name.push(spec_lower_char(c)), ..m }, Seq::empty())
            }
        },
        State::BeforeAttributeName => {
            if spec_tag_ws(c) {
                (m, Seq::empty())
            } else if c == '/' {
                (MachineModel { state: State::SelfClosingStartTag, ..m }, Seq::empty())
            } else if c == '>' {
                (
                    after_emit_tag_model(m, State::Data),
                    seq![TokenModel::Tag(emitted_tag_model(m))],
                )
            } else {
                match spec_lower_ascii_letter(c) {
                    Some(l) => (create_attr_model(m, l, State::AttributeName), Seq::empty()),
                    None => (m, seq![TokenModel::ParseError]),
                }
            }
        },
        State::AttributeName => {
            if spec_tag_ws(c) {
                (MachineModel { state: State::AfterAttributeName, ..m }, Seq::empty())
            } else if c == '/' {
                (MachineModel { state: State::SelfClosingStartTag, ..m }, Seq::empty())
            } else if c == '=' {
                (MachineModel { state: State::BeforeAttributeValue, ..m }, Seq::empty())
            } else if c == '>' {
                (
                    after_emit_tag_model(m, State::Data),
                    seq![TokenModel::Tag(emitted_tag_model(m))],
                )
            } else {
                match spec_lower_ascii_letter(c) {
                    Some(l) => (
                        MachineModel { attr_name: m.attr_name.push(l), ..m },
                        Seq::empty(),
                    ),
                    None => (m, seq![TokenModel::ParseError]),
                }
            }
        },
        State::AfterAttributeName => {
            if spec_tag_ws(c) {
                (m, Seq::empty())
            } else if c == '/' {
                (MachineModel { state: State::SelfClosingStartTag, ..m }, Seq::empty())
            } else if c == '=' {
                (MachineModel { state: State::BeforeAttributeValue, ..m }, Seq::empty())
            } else if c == '>' {
                (
                    after_emit_tag_model(m, State::Data),
                    seq![TokenModel::Tag(emitted_tag_model(m))],
                )
            } else {
                match spec_lower_ascii_letter(c) {
                    Some(l) => (create_attr_model(m, l, State::AttributeName), Seq::empty()),
                    None => (m, seq![TokenModel::ParseError]),
                }
            }
        },
        State::BeforeAttributeValue => {
            if spec_value_ws(c) {
                (m, Seq::empty())
            } else if c == '"' {
                (
                    MachineModel { state: State::AttributeValue(AttrValueKind::DoubleQuoted), ..m },
                    Seq::empty(),
                )
            } else if c == '\'' {
                (
                    MachineModel { state: State::AttributeValue(AttrValueKind::SingleQuoted), ..m },
                    Seq::empty(),
                )
            } else if c == '>' {
                (
                    after_emit_tag_model(m, State::Data),
                    seq![TokenModel::Tag(emitted_tag_model(m))],
                )
            } else {
                // The triggering character is dropped: it is not part of
                // the unquoted value.
                (
                    MachineModel { state: State::AttributeValue(AttrValueKind::Unquoted), ..m },
                    Seq::empty(),
                )
            }
        },
        State::AttributeValue(AttrValueKind::DoubleQuoted) => {
            if c == '"' {
                (MachineModel { state: State::AfterAttributeValueQuoted, ..m }, Seq::empty())
            } else {
                (
                    MachineModel { attr_value: m.attr_value.push(spec_lower_char(c)), ..m },
                    Seq::empty(),
                )
            }
        },
        State::AttributeValue(AttrValueKind::SingleQuoted) => {
            if c == '\'' {
                (MachineModel { state: State::AfterAttributeValueQuoted, ..m }, Seq::empty())
            } else {
                (
                    MachineModel { attr_value: m.attr_value.push(spec_lower_char(c)), ..m },
                    Seq::empty(),
                )
            }
        },
        State::AttributeValue(AttrValueKind::Unquoted) => {
            if spec_value_ws(c) {
                (MachineModel { state: State::BeforeAttributeName, ..m }, Seq::empty())
            } else if c == '/' {
                (MachineModel { state: State::SelfClosingStartTag, ..m }, Seq::empty())
            } else if c == '>' {
                (
                    after_emit_tag_model(m, State::Data),
                    seq![TokenModel::Tag(emitted_tag_model(m))],
                )
            } else {
                (
                    MachineModel { attr_value: m.attr_value.push(spec_lower_char(c)), ..m },
                    Seq::empty(),
                )
            }
        },
        State::AfterAttributeValueQuoted => {
            if spec_value_ws(c) {
                (MachineModel { state: State::BeforeAttributeName, ..m }, Seq::empty())
            } else if c == '/' {
                (MachineModel { state: State::SelfClosingStartTag, ..m }, Seq::empty())
            } else if c == '>' {
                (
                    after_emit_tag_model(m, State::Data),
                    seq![TokenModel::Tag(emitted_tag_model(m))],
                )
            } else {
                (m, seq![TokenModel::ParseError])
            }
        },
        State::SelfClosingStartTag => {
            if c == '>' {
                let m1 = MachineModel { self_closing: true, ..m };
                (
                    after_emit_tag_model(m1, State::Data),
                    seq![TokenModel::Tag(emitted_tag_model(m1))],
                )
            } else {
                (m, seq![TokenModel::ParseError])
            }
        },
    }
}

/// The machine run over a whole character sequence: fold [`spec_step`]
/// from the front, concatenating the emissions.
pub open spec fn spec_run(m: MachineModel, cs: Seq<char>) -> (MachineModel, Seq<TokenModel>)
    decreases cs.len(),
{
    if cs.len() == 0 {
        (m, Seq::empty())
    } else {
        let first = spec_step(m, cs[0]);
        let rest = spec_run(first.0, cs.skip(1));
        (rest.0, first.1 + rest.1)
    }
}

/// The full token stream of an input, from the initial machine state.
pub open spec fn spec_tokenize(cs: Seq<char>) -> Seq<TokenModel> {
    spec_run(init_machine(), cs).1
}

/// Case-fold one character: ASCII uppercase to lowercase, anything else
/// unchanged.
pub fn lower_char(c: char) -> (r: char)
    ensures
        r == spec_lower_char(c),
{
    if 'A' <= c && c <= 'Z' {
        (((c as u32) + 32) as u8) as char
    } else {
        c
    }
}

/// The lowercase form of `c` when `c` is an ASCII letter, `None` otherwise.
pub fn lower_ascii_letter(c: char) -> (r: Option<char>)
    ensures
        r == spec_lower_ascii_letter(c),
{
    if 'a' <= c && c <= 'z' {
        Some(c)
    } else if 'A' <= c && c <= 'Z' {
        Some(lower_char(c))
    } else {
        None
    }
}

/// The characters of a string slice, for building diagnostic messages.
fn chars_of(s: &str) -> (v: Vec<char>)
    ensures
        v@ == s@,
{
    let n = s.unicode_len();
    let mut v: Vec<char> = Vec::new();
    let mut i: usize = 0;
    while i < n
        invariant
            n == s@.len(),
            i <= n,
            v@ == s@.take(i as int),
        decreases n - i,
    {
        v.push(s.get_char(i));
        i = i + 1;
        proof {
            assert(v@ =~= s@.take(i as int));
        }
    }
    proof {
        assert(v@ =~= s@);
    }
    v
}

/// The finite-state tokenizer. It owns its sink and hands it every emitted
/// token synchronously.
pub struct Tokenizer<Sink> {
    pub sink: Sink,
    pub state: State,
    pub current_char: char,
    pub current_chars: Vec<char>,
    pub current_tag_kind: TagKind,
    pub current_tag_name: Vec<char>,
    pub current_tag_self_closing: bool,
    pub current_tag_attrs: Vec<Attribute>,
    pub current_attr_name: Vec<char>,
    pub current_attr_value: Vec<char>,
}

impl<Sink: TokenSink> Tokenizer<Sink> {
    /// The model of the tokenizer's mutable state. The last character seen
    /// is not part of the model: it only flavours diagnostic messages.
    pub open spec fn machine(&self) -> MachineModel {
        MachineModel {
            state: self.state,
            chars: self.current_chars@,
            tag_kind: self.current_tag_kind,
            tag_name: self.current_tag_name@,
            self_closing: self.current_tag_self_closing,
            attrs: attrs_model(self.current_tag_attrs@),
            attr_name: self.current_attr_name@,
            attr_value: self.current_attr_value@,
        }
    }

    /// A fresh tokenizer in the initial machine state, emitting into `sink`.
    pub fn new(sink: Sink) -> (t: Tokenizer<Sink>)
        ensures
            t.machine() == init_machine(),
            t.sink == sink,
    {
        let t = Tokenizer {
            sink,
            state: State::Data,
            current_char: '\0',
            current_chars: Vec::new(),
            current_tag_kind: TagKind::StartTag,
            current_tag_name: Vec::new(),
            current_tag_self_closing: false,
            current_tag_attrs: Vec::new(),
            current_attr_name: Vec::new(),
            current_attr_value: Vec::new(),
        };
        proof {
            assert(attrs_model(t.current_tag_attrs@) =~= Seq::<AttrModel>::empty());
            assert(t.machine() =~= init_machine());
        }
        t
    }


    /// Drive the machine over the whole buffer, one character per step.
    /// Afterwards the buffer is exhausted; any in-flight partial token
    /// stays in the accumulators and is never flushed.
    pub fn feed(&mut self, buffer: &mut Buffer)
        requires
            old(self).sink.wf(),
            forall|i: int|
                0 <= i < spec_run(old(self).machine(), old(buffer)@).1.len()
                    ==> Sink::accepts(#[trigger] spec_run(old(self).machine(), old(buffer)@).1[i]),
        ensures
            final(self).sink.wf(),
            final(buffer)@.len() == 0,
            final(self).machine() == spec_run(old(self).machine(), old(buffer)@).0,
            final(self).sink.tokens() == old(self).sink.tokens() + spec_run(
                old(self).machine(),
                old(buffer)@,
            ).1,
    {
        let ghost m0 = old(self).machine();
        let ghost cs0 = old(buffer)@;
        let ghost toks0 = old(self).sink.tokens();
        while !buffer.is_empty()
            invariant
                self.sink.wf(),
                self.sink.tokens().len() >= toks0.len(),
                spec_run(m0, cs0).0 == spec_run(self.machine(), buffer@).0,
                toks0 + spec_run(m0, cs0).1 == self.sink.tokens() + spec_run(
                    self.machine(),
                    buffer@,
                ).1,
                forall|i: int|
                    0 <= i < spec_run(m0, cs0).1.len() ==> Sink::accepts(
                        #[trigger] spec_run(m0, cs0).1[i],
                    ),
            decreases buffer@.len(),
        {
            let ghost m_before = self.machine();
            let ghost rest_before = buffer@;
            let c = buffer.next();
            proof {
                let e1 = spec_step(m_before, c).1;
                let m_next = spec_step(m_before, c).0;
                // Unfold one step of the run over the remaining input.
                assert(spec_run(m_before, rest_before).0 == spec_run(
                    m_next,
                    rest_before.skip(1),
                ).0);
                assert(spec_run(m_before, rest_before).1 == e1 + spec_run(
                    m_next,
                    rest_before.skip(1),
                ).1);
                let toks = self.sink.tokens();
                let r = spec_run(m0, cs0).1;
                let e2 = spec_run(m_next, rest_before.skip(1)).1;
                assert(toks0 + r == toks + (e1 + e2));
                assert((toks0 + r).len() == (toks + (e1 + e2)).len());
                assert(toks0.len() + r.len() == toks.len() + e1.len() + e2.len());
                assert forall|i: int| 0 <= i < e1.len() implies Sink::accepts(#[trigger] e1[i]) by {
                    let j = toks.len() - toks0.len() + i;
                    assert(0 <= j < r.len());
                    assert((toks + (e1 + e2))[toks.len() as int + i] == (e1 + e2)[i]);
                    assert((e1 + e2)[i] == e1[i]);
                    assert((toks0 + r)[toks0.len() as int + j] == r[j]);
                    assert(toks0.len() as int + j == toks.len() as int + i);
                    assert(r[j] == e1[i]);
                    assert(Sink::accepts(r[j]));
                }
            }
            self.step(c);
            proof {
                let e1 = spec_step(m_before, c).1;
                assert(toks0 + spec_run(m0, cs0).1 =~= self.sink.tokens() + spec_run(
                    self.machine(),
                    buffer@,
                ).1);
            }
        }
        proof {
            assert(spec_run(self.machine(), buffer@).0 == self.machine());
            assert(spec_run(self.machine(), buffer@).1 =~= Seq::<TokenModel>::empty());
            assert(self.sink.tokens() =~= toks0 + spec_run(m0, cs0).1);
        }
    }

    /// Consume one character: exactly one transition of [`spec_step`],
    /// with every token of that transition handed to the sink in order.
    pub fn step(&mut self, c: char)
        requires
            old(self).sink.wf(),
            forall|i: int|
                0 <= i < spec_step(old(self).machine(), c).1.len()
                    ==> Sink::accepts(#[trigger] spec_step(old(self).machine(), c).1[i]),
        ensures
            final(self).sink.wf(),
            final(self).machine() == spec_step(old(self).machine(), c).0,
            final(self).sink.tokens() == old(self).sink.tokens() + spec_step(
                old(self).machine(),
                c,
            ).1,
    {
        proof {
            // Every arm emits at most one token; name it for the requires.
            if spec_step(old(self).machine(), c).1.len() > 0 {
                assert(Sink::accepts(spec_step(old(self).machine(), c).1[0]));
            }
        }
        self.current_char = c;

        match self.state {
            State::Data => {
                if c == '<' {
                    self.emit_chars();
                    self.state = State::TagOpen;
                } else {
                    self.push_char(c);
                }
            },
            State::TagOpen => {
                if c == '/' {
                    self.state = State::EndTagOpen;
                } else {
                    match lower_ascii_letter(c) {
                        Some(l) => {
                            self.create_tag(TagKind::StartTag, l);
                            self.state = State::TagName;
                        },
                        None => self.emit_error(),
                    }
                }
            },
            State::EndTagOpen => {
                if c == '>' {
                    self.emit_error();
                } else {
                    match lower_ascii_letter(c) {
                        Some(l) => {
                            self.create_tag(TagKind::EndTag, l);
                            self.state = State::TagName;
                        },
                        None => self.emit_error(),
                    }
                }
            },
            State::SelfClosingStartTag => {
                if c == '>' {
                    self.current_tag_self_closing = true;
                    self.emit_tag();
                    self.state = State::Data;
                } else {
                    self.emit_error();
                }
            },
            State::TagName => {
                match c {
                    '\t' | '\n' | '\x0C' | ' ' => {
                        self.state = State::BeforeAttributeName;
                    },
                    '/' => {
                        self.emit_chars();
                        self.state = State::SelfClosingStartTag;
                    },
                    '>' => {
                        self.emit_tag();
                        self.state = State::Data;
                    },
                    _ => {
                        let l = lower_char(c);
                        self.push_tag_name(l);
                    },
                }
            },
            State::BeforeAttributeName => {
                match c {
                    '\t' | '\n' | '\x0C' | ' ' => {},
                    '/' => {
                        self.state = State::SelfClosingStartTag;
                    },
                    '>' => {
                        self.emit_tag();
                        self.state = State::Data;
                    },
                    _ => {
                        match lower_ascii_letter(c) {
                            Some(l) => {
                                self.create_attribute(l);
                                self.state = State::AttributeName;
                            },
                            None => self.emit_error(),
                        }
                    },
                }
            },
            State::AttributeName => {
                match c {
                    '\t' | '\n' | '\x0C' | ' ' => {
                        self.state = State::AfterAttributeName;
                    },
                    '/' => {
                        self.state = State::SelfClosingStartTag;
                    },
                    '=' => {
                        self.state = State::BeforeAttributeValue;
                    },
                    '>' => {
                        self.emit_tag();
                        self.state = State::Data;
                    },
                    _ => {
                        match lower_ascii_letter(c) {
                            Some(l) => self.push_attribute_name(l),
                            None => self.emit_error(),
                        }
                    },
                }
            },
            State::AfterAttributeName => {
                match c {
                    '\t' | '\n' | '\x0C' | ' ' => {},
                    '/' => {
                        self.state = State::SelfClosingStartTag;
                    },
                    '=' => {
                        self.state = State::BeforeAttributeValue;
                    },
                    '>' => {
                        self.emit_tag();
                        self.state = State::Data;
                    },
                    _ => {
                        match lower_ascii_letter(c) {
                            Some(l) => {
                                self.create_attribute(l);
                                self.state = State::AttributeName;
                            },
                            None => self.emit_error(),
                        }
                    },
                }
            },
            State::BeforeAttributeValue => {
                match c {
                    '\t' | '\n' | '\r' | '\x0C' | ' ' => {},
                    '"' => {
                        self.state = State::AttributeValue(AttrValueKind::DoubleQuoted);
                    },
                    '\'' => {
                        self.state = State::AttributeValue(AttrValueKind::SingleQuoted);
                    },
                    '>' => {
                        self.emit_tag();
                        self.state = State::Data;
                    },
                    _ => {
                        // The triggering character is dropped here: it does
                        // not become part of the unquoted value.
                        self.state = State::AttributeValue(AttrValueKind::Unquoted);
                    },
                }
            },
            State::AttributeValue(AttrValueKind::DoubleQuoted) => {
                if c == '"' {
                    self.state = State::AfterAttributeValueQuoted;
                } else {
                    let l = lower_char(c);
                    self.push_attribute_value(l);
                }
            },
            State::AttributeValue(AttrValueKind::SingleQuoted) => {
                if c == '\'' {
                    self.state = State::AfterAttributeValueQuoted;
                } else {
                    let l = lower_char(c);
                    self.push_attribute_value(l);
                }
            },
            State::AttributeValue(AttrValueKind::Unquoted) => {
                match c {
                    '\t' | '\n' | '\r' | '\x0C' | ' ' => {
                        self.state = State::BeforeAttributeName;
                    },
                    '/' => {
                        self.state = State::SelfClosingStartTag;
                    },
                    '>' => {
                        self.emit_tag();
                        self.state = State::Data;
                    },
                    _ => {
                        let l = lower_char(c);
                        self.push_attribute_value(l);
                    },
                }
            },
            State::AfterAttributeValueQuoted => {
                match c {
                    '\t' | '\n' | '\r' | '\x0C' | ' ' => {
                        self.state = State::BeforeAttributeName;
                    },
                    '/' => {
                        self.state = State::SelfClosingStartTag;
                    },
                    '>' => {
                        self.emit_tag();
                        self.state = State::Data;
                    },
                    _ => self.emit_error(),
                }
            },
        }
        proof {
            assert(self.machine() =~= spec_step(old(self).machine(), c).0);
            assert(self.sink.tokens() =~= old(self).sink.tokens() + spec_step(
                old(self).machine(),
                c,
            ).1);
        }
    }

    /// Forward one token to the sink.
    fn process_token(&mut self, token: Token)
        requires
            old(self).sink.wf(),
            Sink::accepts(token@),
        ensures
            final(self).sink.wf(),
            final(self).machine() == old(self).machine(),
            final(self).sink.tokens() == old(self).sink.tokens().push(token@),
    {
        self.sink.process_token(token);
    }

    /// Emit a parse error naming the offending character and the current
    /// state. The character is dropped and the state does not change.
    fn emit_error(&mut self)
        requires
            old(self).sink.wf(),
            Sink::accepts(TokenModel::ParseError),
        ensures
            final(self).sink.wf(),
            final(self).machine() == old(self).machine(),
            final(self).sink.tokens() == old(self).sink.tokens().push(TokenModel::ParseError),
    {
        let mut msg = chars_of(self.state_message());
        msg.push(self.current_char);
        self.process_token(Token::ParseError(msg));
    }

    /// The fixed part of the diagnostic for an unexpected character in the
    /// current state.
    fn state_message(&self) -> &'static str {
        match self.state {
            State::Data => "unexpected character in state Data: ",
            State::TagOpen => "unexpected character in state TagOpen: ",
            State::EndTagOpen => "unexpected character in state EndTagOpen: ",
            State::TagName => "unexpected character in state TagName: ",
            State::BeforeAttributeName => "unexpected character in state BeforeAttributeName: ",
            State::AttributeName => "unexpected character in state AttributeName: ",
            State::AfterAttributeName => "unexpected character in state AfterAttributeName: ",
            State::BeforeAttributeValue => "unexpected character in state BeforeAttributeValue: ",
            State::AttributeValue(AttrValueKind::Unquoted) => "unexpected character in state AttributeValue(Unquoted): ",
            State::AttributeValue(AttrValueKind::SingleQuoted) => "unexpected character in state AttributeValue(SingleQuoted): ",
            State::AttributeValue(AttrValueKind::DoubleQuoted) => "unexpected character in state AttributeValue(DoubleQuoted): ",
            State::AfterAttributeValueQuoted => "unexpected character in state AfterAttributeValueQuoted: ",
            State::SelfClosingStartTag => "unexpected character in state SelfClosingStartTag: ",
        }
    }

    /// Emit the accumulated character run (even if empty) and clear it.
    fn emit_chars(&mut self)
        requires
            old(self).sink.wf(),
            Sink::accepts(TokenModel::Characters(old(self).machine().chars)),
        ensures
            final(self).sink.wf(),
            final(self).machine() == (MachineModel {
                chars: Seq::empty(),
                ..old(self).machine()
            }),
            final(self).sink.tokens() == old(self).sink.tokens().push(
                TokenModel::Characters(old(self).machine().chars),
            ),
    {
        let mut chars: Vec<char> = Vec::new();
        core::mem::swap(&mut chars, &mut self.current_chars);
        self.process_token(Token::Characters(chars));
    }

    /// Finalize the pending attribute, construct the tag token from the
    /// accumulators, send it, and reset the per-tag accumulators so the
    /// next tag starts clean.
    fn emit_tag(&mut self)
        requires
            old(self).sink.wf(),
            Sink::accepts(TokenModel::Tag(emitted_tag_model(old(self).machine()))),
        ensures
            final(self).sink.wf(),
            final(self).machine() == after_emit_tag_model(
                old(self).machine(),
                old(self).machine().state,
            ),
            final(self).sink.tokens() == old(self).sink.tokens().push(
                TokenModel::Tag(emitted_tag_model(old(self).machine())),
            ),
    {
        self.finish_attribute();
        let mut name: Vec<char> = Vec::new();
        let mut attrs: Vec<Attribute> = Vec::new();
        core::mem::swap(&mut name, &mut self.current_tag_name);
        core::mem::swap(&mut attrs, &mut self.current_tag_attrs);
        let self_closing = self.current_tag_self_closing;
        self.current_tag_self_closing = false;
        let token = Token::Tag(
            TagToken { kind: self.current_tag_kind, name, self_closing, attrs },
        );
        proof {
            assert(attrs_model(Seq::<Attribute>::empty()) =~= Seq::<AttrModel>::empty());
            assert(token@ =~= TokenModel::Tag(emitted_tag_model(old(self).machine())));
            assert(self.machine() =~= (MachineModel {
                tag_name: Seq::empty(),
                attrs: Seq::empty(),
                self_closing: false,
                ..finish_attr_model(old(self).machine())
            }));
        }
        self.process_token(token);
    }

    /// Append one character to the pending character run.
    fn push_char(&mut self, c: char)
        ensures
            final(self).sink == old(self).sink,
            final(self).machine() == (MachineModel {
                chars: old(self).machine().chars.push(c),
                ..old(self).machine()
            }),
    {
        self.current_chars.push(c);
    }

    /// Start a new tag token of the given kind; `c` is its first
    /// (already lowercased) name character.
    fn create_tag(&mut self, kind: TagKind, c: char)
        ensures
            final(self).sink == old(self).sink,
            final(self).machine() == create_tag_model(
                old(self).machine(),
                kind,
                c,
                old(self).machine().state,
            ),
    {
        self.discard_tag();
        self.current_tag_name.push(c);
        self.current_tag_kind = kind;
        proof {
            assert(self.current_tag_name@ =~= seq![c]);
            assert(self.machine() =~= create_tag_model(
                old(self).machine(),
                kind,
                c,
                old(self).machine().state,
            ));
        }
    }

    /// Append one (already lowercased) character to the tag name.
    fn push_tag_name(&mut self, c: char)
        ensures
            final(self).sink == old(self).sink,
            final(self).machine() == (MachineModel {
                tag_name: old(self).machine().tag_name.push(c),
                ..old(self).machine()
            }),
    {
        self.current_tag_name.push(c);
    }

    /// Clear the per-tag accumulators.
    fn discard_tag(&mut self)
        ensures
            final(self).sink == old(self).sink,
            final(self).machine() == (MachineModel {
                tag_name: Seq::empty(),
                attrs: Seq::empty(),
                self_closing: false,
                ..old(self).machine()
            }),
    {
        self.current_tag_name = Vec::new();
        self.current_tag_attrs = Vec::new();
        self.current_tag_self_closing = false;
        proof {
            assert(attrs_model(Seq::<Attribute>::empty()) =~= Seq::<AttrModel>::empty());
            assert(self.machine() =~= (MachineModel {
                tag_name: Seq::empty(),
                attrs: Seq::empty(),
                self_closing: false,
                ..old(self).machine()
            }));
        }
    }

    /// Finalize the pending attribute, then start a new one; `c` is its
    /// first (already lowercased) name character.
    fn create_attribute(&mut self, c: char)
        ensures
            final(self).sink == old(self).sink,
            final(self).machine() == create_attr_model(
                old(self).machine(),
                c,
                old(self).machine().state,
            ),
    {
        self.finish_attribute();
        self.current_attr_name.push(c);
        proof {
            assert(self.current_attr_name@ =~= seq![c]);
            assert(self.machine() =~= create_attr_model(
                old(self).machine(),
                c,
                old(self).machine().state,
            ));
        }
    }

    /// Append one (already lowercased) character to the pending attribute's
    /// name.
    fn push_attribute_name(&mut self, c: char)
        ensures
            final(self).sink == old(self).sink,
            final(self).machine() == (MachineModel {
                attr_name: old(self).machine().attr_name.push(c),
                ..old(self).machine()
            }),
    {
        self.current_attr_name.push(c);
    }

    /// Append one (already lowercased) character to the pending attribute's
    /// value.
    fn push_attribute_value(&mut self, c: char)
        ensures
            final(self).sink == old(self).sink,
            final(self).machine() == (MachineModel {
                attr_value: old(self).machine().attr_value.push(c),
                ..old(self).machine()
            }),
    {
        self.current_attr_value.push(c);
    }

    /// Finalize the pending attribute: append it to the tag's attribute
    /// list if its name is non-empty (duplicates allowed, order kept), and
    /// clear the attribute accumulators.
    fn finish_attribute(&mut self)
        ensures
            final(self).sink == old(self).sink,
            final(self).machine() == finish_attr_model(old(self).machine()),
    {
        if self.current_attr_name.len() == 0 {
            return ;
        }
        let mut name: Vec<char> = Vec::new();
        let mut value: Vec<char> = Vec::new();
        core::mem::swap(&mut name, &mut self.current_attr_name);
        core::mem::swap(&mut value, &mut self.current_attr_value);
        let attr = Attribute { name, value };
        proof {
            assert(attrs_model(self.current_tag_attrs@.push(attr)) =~= attrs_model(
                self.current_tag_attrs@,
            ).push(attr@));
        }
        self.current_tag_attrs.push(attr);
        proof {
            assert(self.machine() =~= finish_attr_model(old(self).machine()));
        }
    }
}

} // verus!
