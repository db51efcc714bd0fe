//! Laws of the tokenizer and the tree builder: properties that hold of
//! every input, stated over the machine model and proved once and for all.

use vstd::prelude::*;

use super::interface::{AttrValueKind, NodeModel, State, TagKind, TagModel, TokenModel};
use super::spec_parse;
use super::tokenizer::{
    MachineModel, init_machine, spec_lower_ascii_letter, spec_lower_char, spec_lower_seq,
    spec_run, spec_step, spec_tokenize, spec_value_ws,
};
use super::tree_builder::{BuilderModel, builder_run_model, builder_step_model};

verus! {

/// Running the machine over a concatenation is running it over the first
/// part and then, from the state so reached, over the second; the
/// emissions concatenate in the same order.
pub proof fn lemma_run_append(m: MachineModel, a: Seq<char>, b: Seq<char>)
    ensures
        spec_run(m, a + b).0 == spec_run(spec_run(m, a).0, b).0,
        spec_run(m, a + b).1 == spec_run(m, a).1 + spec_run(spec_run(m, a).0, b).1,
    decreases a.len(),
{
    if a.len() == 0 {
        assert(a + b =~= b);
        assert(spec_run(m, a).1 + spec_run(spec_run(m, a).0, b).1 =~= spec_run(m, b).1);
    } else {
        let first = spec_step(m, a[0]);
        assert((a + b)[0] == a[0]);
        assert((a + b).skip(1) =~= a.skip(1) + b);
        lemma_run_append(first.0, a.skip(1), b);
        assert(spec_run(m, a + b).1 =~= spec_run(m, a).1 + spec_run(spec_run(m, a).0, b).1);
    }
}

/// One step on a character other than `/`, from a machine that is not in
/// the self-closing state with the flag clear, keeps both facts and emits
/// no self-closing tag.
proof fn lemma_step_no_slash(m: MachineModel, c: char)
    requires
        c != '/',
        m.state != State::SelfClosingStartTag,
        !m.self_closing,
    ensures
        spec_step(m, c).0.state != State::SelfClosingStartTag,
        !spec_step(m, c).0.self_closing,
        forall|i: int|
            0 <= i < spec_step(m, c).1.len() ==> (#[trigger] spec_step(m, c).1[i] matches
                TokenModel::Tag(t) ==> !t.self_closing),
{
}

/// An input without `/` keeps the machine out of the self-closing state
/// and every tag it emits has the self-closing flag clear.
proof fn lemma_run_no_slash(m: MachineModel, cs: Seq<char>)
    requires
        forall|i: int| 0 <= i < cs.len() ==> cs[i] != '/',
        m.state != State::SelfClosingStartTag,
        !m.self_closing,
    ensures
        spec_run(m, cs).0.state != State::SelfClosingStartTag,
        !spec_run(m, cs).0.self_closing,
        forall|i: int|
            0 <= i < spec_run(m, cs).1.len() ==> (#[trigger] spec_run(m, cs).1[i] matches
                TokenModel::Tag(t) ==> !t.self_closing),
    decreases cs.len(),
{
    if cs.len() > 0 {
        let first = spec_step(m, cs[0]);
        lemma_step_no_slash(m, cs[0]);
        assert(forall|i: int| 0 <= i < cs.skip(1).len() ==> cs.skip(1)[i] != '/');
        lemma_run_no_slash(first.0, cs.skip(1));
        let rest = spec_run(first.0, cs.skip(1));
        assert forall|i: int|
            0 <= i < spec_run(m, cs).1.len() implies (#[trigger] spec_run(m, cs).1[i] matches
            TokenModel::Tag(t) ==> !t.self_closing) by {
            if i < first.1.len() {
                assert(spec_run(m, cs).1[i] == first.1[i]);
            } else {
                assert(spec_run(m, cs).1[i] == rest.1[i - first.1.len()]);
            }
        }
    }
}

/// The self-closing flag is set only along the `/>` closing path: an
/// input that holds no `/` character tokenizes to tags whose flag is
/// false, without exception.
pub proof fn lemma_self_closing_requires_slash(cs: Seq<char>)
    requires
        forall|i: int| 0 <= i < cs.len() ==> cs[i] != '/',
    ensures
        forall|i: int|
            0 <= i < spec_tokenize(cs).len() ==> (#[trigger] spec_tokenize(cs)[i] matches
                TokenModel::Tag(t) ==> !t.self_closing),
{
    lemma_run_no_slash(init_machine(), cs);
}

/// A run over a single character is exactly one step.
proof fn lemma_run_one(m: MachineModel, c: char)
    ensures
        spec_run(m, seq![c]).0 == spec_step(m, c).0,
        spec_run(m, seq![c]).1 == spec_step(m, c).1,
{
    reveal_with_fuel(spec_run, 2);
    assert(seq![c].skip(1) =~= Seq::<char>::empty());
    assert(seq![c][0] == c);
    assert(spec_run(m, seq![c]).1 =~= spec_step(m, c).1);
}

/// A character that may stand inside an attribute value whatever the
/// quoting style: not a quote, not `/` or `>`, and not whitespace.
pub open spec fn plain_value_char(c: char) -> bool {
    c != '"' && c != '\'' && c != '/' && c != '>' && !spec_value_ws(c)
}

/// Inside any attribute-value state, a run of plain characters is
/// appended to the value, case-folded, with nothing emitted and nothing
/// else changed.
proof fn lemma_value_run(m: MachineModel, v: Seq<char>, k: AttrValueKind)
    requires
        m.state == State::AttributeValue(k),
        forall|i: int| 0 <= i < v.len() ==> plain_value_char(#[trigger] v[i]),
    ensures
        spec_run(m, v).0 == (MachineModel { attr_value: m.attr_value + spec_lower_seq(v), ..m }),
        spec_run(m, v).1 == Seq::<TokenModel>::empty(),
    decreases v.len(),
{
    if v.len() == 0 {
        assert(spec_lower_seq(v).len() == 0);
        assert(m.attr_value + spec_lower_seq(v) =~= m.attr_value);
        assert(spec_run(m, v).0 =~= (MachineModel {
            attr_value: m.attr_value + spec_lower_seq(v),
            ..m
        }));
    } else {
        let first = spec_step(m, v[0]);
        assert(first.0 == (MachineModel {
            attr_value: m.attr_value.push(spec_lower_char(v[0])),
            ..m
        }));
        assert(forall|i: int|
            0 <= i < v.skip(1).len() ==> plain_value_char(#[trigger] v.skip(1)[i]));
        lemma_value_run(first.0, v.skip(1), k);
        assert(m.attr_value.push(spec_lower_char(v[0])) + spec_lower_seq(v.skip(1))
            =~= m.attr_value + spec_lower_seq(v));
        assert(spec_run(m, v).0 =~= (MachineModel {
            attr_value: m.attr_value + spec_lower_seq(v),
            ..m
        }));
        assert(spec_run(m, v).1 =~= Seq::<TokenModel>::empty());
    }
}

/// All three attribute-value quoting styles, holding equal literal
/// content, leave the machine in the same state and emit the same tokens:
/// one tag whose last attribute's value is the case-folded content. For
/// the unquoted style the character `c` that triggers the transition into
/// the unquoted-value state is dropped, so the content `v` stands after
/// it.
pub proof fn lemma_quoting_styles_agree(m: MachineModel, v: Seq<char>, c: char)
    requires
        m.state == State::BeforeAttributeValue,
        forall|i: int| 0 <= i < v.len() ==> plain_value_char(#[trigger] v[i]),
        c != '"' && c != '\'' && c != '>' && !spec_value_ws(c),
    ensures
        spec_run(m, seq!['"'] + v + seq!['"', '>']) == spec_run(
            m,
            seq!['\''] + v + seq!['\'', '>'],
        ),
        spec_run(m, seq!['"'] + v + seq!['"', '>']) == spec_run(m, seq![c] + v + seq!['>']),
{
    let dq = seq!['"'] + v + seq!['"', '>'];
    let sq = seq!['\''] + v + seq!['\'', '>'];
    let uq = seq![c] + v + seq!['>'];

    // Double quotes.
    let m1d = MachineModel { state: State::AttributeValue(AttrValueKind::DoubleQuoted), ..m };
    let m2d = MachineModel { attr_value: m.attr_value + spec_lower_seq(v), ..m1d };
    let m3d = MachineModel { state: State::AfterAttributeValueQuoted, ..m2d };
    lemma_run_append(m, seq!['"'] + v, seq!['"', '>']);
    lemma_run_append(m, seq!['"'], v);
    lemma_run_one(m, '"');
    assert(spec_run(m, seq!['"']).0 == m1d);
    lemma_value_run(m1d, v, AttrValueKind::DoubleQuoted);
    assert(spec_run(m, seq!['"'] + v).0 == m2d);
    assert(spec_run(m, seq!['"'] + v).1 =~= Seq::<TokenModel>::empty());
    let taild = seq!['"', '>'];
    assert(taild =~= seq!['"'] + seq!['>']);
    lemma_run_append(m2d, seq!['"'], seq!['>']);
    lemma_run_one(m2d, '"');
    assert(spec_step(m2d, '"').0 == m3d);
    lemma_run_one(m3d, '>');
    assert(spec_run(m2d, taild).0 == spec_step(m3d, '>').0);
    assert(spec_run(m2d, taild).1 =~= spec_step(m3d, '>').1);
    assert(spec_run(m, dq).0 == spec_step(m3d, '>').0);
    assert(spec_run(m, dq).1 =~= spec_step(m3d, '>').1);

    // Single quotes.
    let m1s = MachineModel { state: State::AttributeValue(AttrValueKind::SingleQuoted), ..m };
    let m2s = MachineModel { attr_value: m.attr_value + spec_lower_seq(v), ..m1s };
    let m3s = MachineModel { state: State::AfterAttributeValueQuoted, ..m2s };
    lemma_run_append(m, seq!['\''] + v, seq!['\'', '>']);
    lemma_run_append(m, seq!['\''], v);
    lemma_run_one(m, '\'');
    assert(spec_run(m, seq!['\'']).0 == m1s);
    lemma_value_run(m1s, v, AttrValueKind::SingleQuoted);
    assert(spec_run(m, seq!['\''] + v).0 == m2s);
    assert(spec_run(m, seq!['\''] + v).1 =~= Seq::<TokenModel>::empty());
    let tails = seq!['\'', '>'];
    assert(tails =~= seq!['\''] + seq!['>']);
    lemma_run_append(m2s, seq!['\''], seq!['>']);
    lemma_run_one(m2s, '\'');
    assert(spec_step(m2s, '\'').0 == m3s);
    lemma_run_one(m3s, '>');
    assert(spec_run(m2s, tails).0 == spec_step(m3s, '>').0);
    assert(spec_run(m2s, tails).1 =~= spec_step(m3s, '>').1);
    assert(spec_run(m, sq).0 == spec_step(m3s, '>').0);
    assert(spec_run(m, sq).1 =~= spec_step(m3s, '>').1);
    assert(m3s =~= m3d);

    // Unquoted: the triggering character is dropped.
    let m1u = MachineModel { state: State::AttributeValue(AttrValueKind::Unquoted), ..m };
    let m2u = MachineModel { attr_value: m.attr_value + spec_lower_seq(v), ..m1u };
    lemma_run_append(m, seq![c] + v, seq!['>']);
    lemma_run_append(m, seq![c], v);
    lemma_run_one(m, c);
    assert(spec_step(m, c).0 == m1u);
    assert(spec_run(m, seq![c]).0 == m1u);
    lemma_value_run(m1u, v, AttrValueKind::Unquoted);
    assert(spec_run(m, seq![c] + v).0 == m2u);
    assert(spec_run(m, seq![c] + v).1 =~= Seq::<TokenModel>::empty());
    lemma_run_one(m2u, '>');
    assert(spec_run(m, uq).0 == spec_step(m2u, '>').0);
    assert(spec_run(m, uq).1 =~= spec_step(m2u, '>').1);

    // The three end states differ at most in the machine-state field,
    // which neither the emitted tag nor the post-emission machine reads.
    assert(spec_step(m3d, '>').0 =~= spec_step(m2u, '>').0);
    assert(spec_step(m3d, '>').1 =~= spec_step(m2u, '>').1);
}


/// A well-formed markup forest for the nesting law: a sequence of literal
/// text runs and properly nested `<name>`...`</name>` element pairs,
/// written as a cons list (`rest` is what follows the item).
pub enum MarkupForest {
    Nil,
    Text(Seq<char>, Box<MarkupForest>),
    Elem(Seq<char>, Box<MarkupForest>, Box<MarkupForest>),
}

/// A lowercase ASCII letter: the characters a well-formed tag name is
/// written with, so that case folding keeps it unchanged.
pub open spec fn lower_letter(c: char) -> bool {
    'a' <= c && c <= 'z'
}

/// Well-formedness of a markup forest: tag names are non-empty lowercase
/// ASCII letters, and literal text never holds `<`.
pub open spec fn wf_markup(f: MarkupForest) -> bool
    decreases f,
{
    match f {
        MarkupForest::Nil => true,
        MarkupForest::Text(t, rest) => (forall|i: int| 0 <= i < t.len() ==> #[trigger] t[i] != '<')
            && wf_markup(*rest),
        MarkupForest::Elem(name, children, rest) => name.len() > 0 && (forall|i: int|
            0 <= i < name.len() ==> lower_letter(#[trigger] name[i])) && wf_markup(*children)
            && wf_markup(*rest),
    }
}

/// The text of an opening tag.
pub open spec fn open_tag_text(name: Seq<char>) -> Seq<char> {
    seq!['<'] + name + seq!['>']
}

/// The text of a closing tag.
pub open spec fn close_tag_text(name: Seq<char>) -> Seq<char> {
    seq!['<', '/'] + name + seq!['>']
}

/// The markup text that a forest denotes.
pub open spec fn render_markup(f: MarkupForest) -> Seq<char>
    decreases f,
{
    match f {
        MarkupForest::Nil => Seq::empty(),
        MarkupForest::Text(t, rest) => t + render_markup(*rest),
        MarkupForest::Elem(name, children, rest) => open_tag_text(name) + render_markup(*children)
            + close_tag_text(name) + render_markup(*rest),
    }
}

/// The node forest that mirrors a markup forest: one element per tag pair,
/// in order, nested exactly as the tags nest; literal text leaves no node.
pub open spec fn markup_elements(f: MarkupForest) -> Seq<NodeModel>
    decreases f,
{
    match f {
        MarkupForest::Nil => Seq::empty(),
        MarkupForest::Text(_, rest) => markup_elements(*rest),
        MarkupForest::Elem(name, children, rest) => seq![
            NodeModel::Element {
                name,
                attrs: Seq::empty(),
                children: markup_elements(*children),
            },
        ] + markup_elements(*rest),
    }
}

/// The tree builder's state folded over a token sequence from the front.
pub open spec fn builder_fold(b: BuilderModel, toks: Seq<TokenModel>) -> BuilderModel
    decreases toks.len(),
{
    if toks.len() == 0 {
        b
    } else {
        builder_fold(builder_step_model(b, toks[0]), toks.skip(1))
    }
}

/// The builder's state with nothing completed and nothing open.
pub open spec fn empty_builder() -> BuilderModel {
    BuilderModel { completed: Seq::empty(), open: Seq::empty() }
}

/// Attaching a sequence of finished nodes one after the other: they all
/// land in the children of the open stack's top, or in the completed list
/// when the stack is empty.
pub open spec fn attach_seq(b: BuilderModel, ns: Seq<NodeModel>) -> BuilderModel
    decreases ns.len(),
{
    if ns.len() == 0 {
        b
    } else {
        attach_seq(super::tree_builder::attach_model(b, ns[0]), ns.skip(1))
    }
}

proof fn lemma_builder_fold_append(b: BuilderModel, t1: Seq<TokenModel>, t2: Seq<TokenModel>)
    ensures
        builder_fold(b, t1 + t2) == builder_fold(builder_fold(b, t1), t2),
    decreases t1.len(),
{
    if t1.len() == 0 {
        assert(t1 + t2 =~= t2);
    } else {
        assert((t1 + t2)[0] == t1[0]);
        assert((t1 + t2).skip(1) =~= t1.skip(1) + t2);
        lemma_builder_fold_append(builder_step_model(b, t1[0]), t1.skip(1), t2);
    }
}

proof fn lemma_builder_fold_one(b: BuilderModel, t: TokenModel)
    ensures
        builder_fold(b, seq![t]) == builder_step_model(b, t),
{
    reveal_with_fuel(builder_fold, 2);
    assert(seq![t].skip(1) =~= Seq::<TokenModel>::empty());
}

/// The builder's back-recursive run equals the front fold from the empty
/// state.
proof fn lemma_builder_run_is_fold(toks: Seq<TokenModel>)
    ensures
        builder_run_model(toks) == builder_fold(empty_builder(), toks),
    decreases toks.len(),
{
    if toks.len() > 0 {
        lemma_builder_run_is_fold(toks.drop_last());
        assert(toks =~= toks.drop_last() + seq![toks.last()]);
        lemma_builder_fold_append(empty_builder(), toks.drop_last(), seq![toks.last()]);
        lemma_builder_fold_one(builder_fold(empty_builder(), toks.drop_last()), toks.last());
        assert(builder_fold(empty_builder(), toks) == builder_fold(
            empty_builder(),
            toks.drop_last() + seq![toks.last()],
        ));
    }
}

/// Attaching nodes onto a stack whose top is a fresh element extends that
/// element's children, nothing else.
proof fn lemma_attach_seq_into_open(
    b: BuilderModel,
    name: Seq<char>,
    attrs: Seq<super::interface::AttrModel>,
    cs: Seq<NodeModel>,
    ns: Seq<NodeModel>,
)
    ensures
        attach_seq(
            BuilderModel {
                completed: b.completed,
                open: b.open.push(NodeModel::Element { name, attrs, children: cs }),
            },
            ns,
        ) == (BuilderModel {
            completed: b.completed,
            open: b.open.push(NodeModel::Element { name, attrs, children: cs + ns }),
        }),
    decreases ns.len(),
{
    let top = NodeModel::Element { name, attrs, children: cs };
    let b1 = BuilderModel { completed: b.completed, open: b.open.push(top) };
    if ns.len() == 0 {
        assert(cs + ns =~= cs);
        assert(attach_seq(b1, ns) =~= (BuilderModel {
            completed: b.completed,
            open: b.open.push(NodeModel::Element { name, attrs, children: cs + ns }),
        }));
    } else {
        let top2 = NodeModel::Element { name, attrs, children: cs.push(ns[0]) };
        let b2 = super::tree_builder::attach_model(b1, ns[0]);
        assert(b1.open.len() == b.open.len() + 1);
        assert(b1.open.last() == top);
        assert(b2.open =~= b.open.push(top2));
        assert(b2 =~= (BuilderModel { completed: b.completed, open: b.open.push(top2) }));
        lemma_attach_seq_into_open(b, name, attrs, cs.push(ns[0]), ns.skip(1));
        assert(cs.push(ns[0]) + ns.skip(1) =~= cs + ns);
    }
}

/// Attaching nodes with an empty stack appends them to the completed
/// list, in order.
proof fn lemma_attach_seq_completed(b: BuilderModel, ns: Seq<NodeModel>)
    requires
        b.open.len() == 0,
    ensures
        attach_seq(b, ns) == (BuilderModel { completed: b.completed + ns, open: b.open }),
    decreases ns.len(),
{
    if ns.len() == 0 {
        assert(b.completed + ns =~= b.completed);
        assert(attach_seq(b, ns) =~= (BuilderModel { completed: b.completed + ns, open: b.open }));
    } else {
        let b2 = super::tree_builder::attach_model(b, ns[0]);
        assert(b2 =~= (BuilderModel { completed: b.completed.push(ns[0]), open: b.open }));
        lemma_attach_seq_completed(b2, ns.skip(1));
        assert(b.completed.push(ns[0]) + ns.skip(1) =~= b.completed + ns);
    }
}

/// In the tag-name state a run of lowercase letters is appended to the
/// tag name unchanged, with nothing emitted and nothing else touched.
proof fn lemma_name_run(m: MachineModel, name: Seq<char>)
    requires
        m.state == State::TagName,
        forall|i: int| 0 <= i < name.len() ==> lower_letter(#[trigger] name[i]),
    ensures
        spec_run(m, name).0 == (MachineModel { tag_name: m.tag_name + name, ..m }),
        spec_run(m, name).1 == Seq::<TokenModel>::empty(),
    decreases name.len(),
{
    if name.len() == 0 {
        assert(m.tag_name + name =~= m.tag_name);
        assert(spec_run(m, name).0 =~= (MachineModel { tag_name: m.tag_name + name, ..m }));
    } else {
        let c = name[0];
        assert(spec_lower_char(c) == c);
        let first = spec_step(m, c);
        assert(first.0 == (MachineModel { tag_name: m.tag_name.push(c), ..m }));
        assert(forall|i: int|
            0 <= i < name.skip(1).len() ==> lower_letter(#[trigger] name.skip(1)[i]));
        lemma_name_run(first.0, name.skip(1));
        assert(m.tag_name.push(c) + name.skip(1) =~= m.tag_name + name);
        assert(spec_run(m, name).0 =~= (MachineModel { tag_name: m.tag_name + name, ..m }));
        assert(spec_run(m, name).1 =~= Seq::<TokenModel>::empty());
    }
}

/// In the data state a run of characters without `<` accumulates in the
/// pending character run, with nothing emitted and nothing else touched.
proof fn lemma_text_run(m: MachineModel, t: Seq<char>)
    requires
        m.state == State::Data,
        forall|i: int| 0 <= i < t.len() ==> #[trigger] t[i] != '<',
    ensures
        spec_run(m, t).0 == (MachineModel { chars: m.chars + t, ..m }),
        spec_run(m, t).1 == Seq::<TokenModel>::empty(),
    decreases t.len(),
{
    if t.len() == 0 {
        assert(m.chars + t =~= m.chars);
        assert(spec_run(m, t).0 =~= (MachineModel { chars: m.chars + t, ..m }));
    } else {
        let first = spec_step(m, t[0]);
        assert(first.0 == (MachineModel { chars: m.chars.push(t[0]), ..m }));
        assert(forall|i: int| 0 <= i < t.skip(1).len() ==> #[trigger] t.skip(1)[i] != '<');
        lemma_text_run(first.0, t.skip(1));
        assert(m.chars.push(t[0]) + t.skip(1) =~= m.chars + t);
        assert(spec_run(m, t).0 =~= (MachineModel { chars: m.chars + t, ..m }));
        assert(spec_run(m, t).1 =~= Seq::<TokenModel>::empty());
    }
}

/// The machine right after a tag was emitted: back in the data state with
/// every accumulator clean.
pub open spec fn after_tag_machine(kind: TagKind) -> MachineModel {
    MachineModel {
        state: State::Data,
        chars: Seq::empty(),
        tag_kind: kind,
        tag_name: Seq::empty(),
        self_closing: false,
        attrs: Seq::empty(),
        attr_name: Seq::empty(),
        attr_value: Seq::empty(),
    }
}

/// The token that a well-formed tag pair's opening or closing half emits.
pub open spec fn plain_tag_token(kind: TagKind, name: Seq<char>) -> TokenModel {
    TokenModel::Tag(
        TagModel { kind, name, self_closing: false, attrs: Seq::empty() },
    )
}

/// Running an opening tag `<name>` from a clean data state: the pending
/// character run is flushed, one start tag is emitted, and the machine is
/// clean again.
proof fn lemma_open_tag_run(m: MachineModel, name: Seq<char>)
    requires
        m.state == State::Data,
        m.attr_name.len() == 0,
        m.attr_value.len() == 0,
        name.len() > 0,
        forall|i: int| 0 <= i < name.len() ==> lower_letter(#[trigger] name[i]),
    ensures
        spec_run(m, open_tag_text(name)).0 == (MachineModel {
            attr_name: m.attr_name,
            attr_value: m.attr_value,
            ..after_tag_machine(TagKind::StartTag)
        }),
        spec_run(m, open_tag_text(name)).1 == seq![
            TokenModel::Characters(m.chars),
            plain_tag_token(TagKind::StartTag, name),
        ],
{
    lemma_run_append(m, seq!['<'] + name, seq!['>']);
    lemma_run_append(m, seq!['<'], name);
    lemma_run_one(m, '<');
    let m1 = spec_step(m, '<').0;
    assert(m1 == (MachineModel { state: State::TagOpen, chars: Seq::empty(), ..m }));
    assert(name =~= seq![name[0]] + name.skip(1));
    lemma_run_append(m1, seq![name[0]], name.skip(1));
    lemma_run_one(m1, name[0]);
    assert(lower_letter(name[0]));
    assert(spec_lower_ascii_letter(name[0]) == Some(name[0]));
    let m2 = spec_step(m1, name[0]).0;
    assert(m2.state == State::TagName);
    assert(m2.tag_name =~= seq![name[0]]);
    assert(forall|i: int|
        0 <= i < name.skip(1).len() ==> lower_letter(#[trigger] name.skip(1)[i]));
    lemma_name_run(m2, name.skip(1));
    let m3 = spec_run(m2, name.skip(1)).0;
    assert(m3.tag_name =~= name);
    assert(spec_run(m1, name).0 == m3);
    assert(spec_run(m1, name).1 =~= Seq::<TokenModel>::empty());
    lemma_run_one(m3, '>');
    assert(m3.attr_name.len() == 0);
    assert(spec_step(m3, '>').0 =~= (MachineModel {
        attr_name: m.attr_name,
        attr_value: m.attr_value,
        ..after_tag_machine(TagKind::StartTag)
    }));
    assert(spec_step(m3, '>').1[0] =~= plain_tag_token(TagKind::StartTag, name));
    assert(spec_run(m, open_tag_text(name)).1 =~= seq![
        TokenModel::Characters(m.chars),
        plain_tag_token(TagKind::StartTag, name),
    ]);
}

/// Running a closing tag `</name>` from a clean data state: the pending
/// character run is flushed, one end tag is emitted, and the machine is
/// clean again.
proof fn lemma_close_tag_run(m: MachineModel, name: Seq<char>)
    requires
        m.state == State::Data,
        m.attr_name.len() == 0,
        m.attr_value.len() == 0,
        name.len() > 0,
        forall|i: int| 0 <= i < name.len() ==> lower_letter(#[trigger] name[i]),
    ensures
        spec_run(m, close_tag_text(name)).0 == (MachineModel {
            attr_name: m.attr_name,
            attr_value: m.attr_value,
            ..after_tag_machine(TagKind::EndTag)
        }),
        spec_run(m, close_tag_text(name)).1 == seq![
            TokenModel::Characters(m.chars),
            plain_tag_token(TagKind::EndTag, name),
        ],
{
    lemma_run_append(m, seq!['<', '/'] + name, seq!['>']);
    lemma_run_append(m, seq!['<', '/'], name);
    assert(seq!['<', '/'] =~= seq!['<'] + seq!['/']);
    lemma_run_append(m, seq!['<'], seq!['/']);
    lemma_run_one(m, '<');
    let m1 = spec_step(m, '<').0;
    assert(m1 == (MachineModel { state: State::TagOpen, chars: Seq::empty(), ..m }));
    lemma_run_one(m1, '/');
    let m1b = spec_step(m1, '/').0;
    assert(m1b == (MachineModel { state: State::EndTagOpen, ..m1 }));
    assert(spec_run(m, seq!['<', '/']).0 == m1b);
    assert(spec_run(m, seq!['<', '/']).1 =~= seq![TokenModel::Characters(m.chars)]);
    assert(name =~= seq![name[0]] + name.skip(1));
    lemma_run_append(m1b, seq![name[0]], name.skip(1));
    lemma_run_one(m1b, name[0]);
    assert(lower_letter(name[0]));
    assert(spec_lower_ascii_letter(name[0]) == Some(name[0]));
    let m2 = spec_step(m1b, name[0]).0;
    assert(m2.state == State::TagName);
    assert(m2.tag_name =~= seq![name[0]]);
    assert(forall|i: int|
        0 <= i < name.skip(1).len() ==> lower_letter(#[trigger] name.skip(1)[i]));
    lemma_name_run(m2, name.skip(1));
    let m3 = spec_run(m2, name.skip(1)).0;
    assert(m3.tag_name =~= name);
    assert(spec_run(m1b, name).0 == m3);
    assert(spec_run(m1b, name).1 =~= Seq::<TokenModel>::empty());
    lemma_run_one(m3, '>');
    assert(m3.attr_name.len() == 0);
    assert(spec_step(m3, '>').0 =~= (MachineModel {
        attr_name: m.attr_name,
        attr_value: m.attr_value,
        ..after_tag_machine(TagKind::EndTag)
    }));
    assert(spec_step(m3, '>').1[0] =~= plain_tag_token(TagKind::EndTag, name));
    assert(spec_run(m, close_tag_text(name)).1 =~= seq![
        TokenModel::Characters(m.chars),
        plain_tag_token(TagKind::EndTag, name),
    ]);
}

/// The induction behind the nesting law: from a clean data state, running
/// the rendering of a well-formed forest leaves the machine clean, and
/// folding the emitted tokens into any builder state attaches exactly the
/// forest's elements.
proof fn lemma_render_run(m: MachineModel, f: MarkupForest)
    requires
        wf_markup(f),
        m.state == State::Data,
        m.attr_name.len() == 0,
        m.attr_value.len() == 0,
    ensures
        spec_run(m, render_markup(f)).0.state == State::Data,
        spec_run(m, render_markup(f)).0.attr_name.len() == 0,
        spec_run(m, render_markup(f)).0.attr_value.len() == 0,
        forall|b: BuilderModel| #[trigger] builder_fold(b, spec_run(m, render_markup(f)).1)
            == attach_seq(b, markup_elements(f)),
    decreases f,
{
    match f {
        MarkupForest::Nil => {
            assert(spec_run(m, render_markup(f)).1 =~= Seq::<TokenModel>::empty());
            assert forall|b: BuilderModel| #[trigger] builder_fold(
                b,
                spec_run(m, render_markup(f)).1,
            ) == attach_seq(b, markup_elements(f)) by {
                assert(builder_fold(b, Seq::<TokenModel>::empty()) == b);
                assert(attach_seq(b, Seq::<NodeModel>::empty()) == b);
            }
        },
        MarkupForest::Text(t, rest) => {
            lemma_run_append(m, t, render_markup(*rest));
            lemma_text_run(m, t);
            let m1 = spec_run(m, t).0;
            lemma_render_run(m1, *rest);
            let e_rest = spec_run(m1, render_markup(*rest)).1;
            assert forall|b: BuilderModel| #[trigger] builder_fold(
                b,
                spec_run(m, render_markup(f)).1,
            ) == attach_seq(b, markup_elements(f)) by {
                assert(spec_run(m, render_markup(f)).1 =~= e_rest);
                assert(builder_fold(b, e_rest) == attach_seq(b, markup_elements(*rest)));
            }
        },
        MarkupForest::Elem(name, children, rest) => {
            let o = open_tag_text(name);
            let rc = render_markup(*children);
            let cl = close_tag_text(name);
            let rr = render_markup(*rest);
            // The rendering splits along its left-associated concatenation.
            lemma_run_append(m, o + rc + cl, rr);
            lemma_run_append(m, o + rc, cl);
            lemma_run_append(m, o, rc);
            lemma_open_tag_run(m, name);
            let m1 = spec_run(m, o).0;
            let e1 = spec_run(m, o).1;
            lemma_render_run(m1, *children);
            let m2 = spec_run(m1, rc).0;
            let e2 = spec_run(m1, rc).1;
            lemma_close_tag_run(m2, name);
            let m3 = spec_run(m2, cl).0;
            let e3 = spec_run(m2, cl).1;
            lemma_render_run(m3, *rest);
            let m4 = spec_run(m3, rr).0;
            let e4 = spec_run(m3, rr).1;
            assert(spec_run(m, render_markup(f)).0 == m4);
            assert(spec_run(m, render_markup(f)).1 == ((e1 + e2) + e3) + e4);
            let elem = NodeModel::Element {
                name,
                attrs: Seq::empty(),
                children: markup_elements(*children),
            };
            assert forall|b: BuilderModel| #[trigger] builder_fold(
                b,
                spec_run(m, render_markup(f)).1,
            ) == attach_seq(b, markup_elements(f)) by {
                lemma_builder_fold_append(b, (e1 + e2) + e3, e4);
                lemma_builder_fold_append(b, e1 + e2, e3);
                lemma_builder_fold_append(b, e1, e2);
                // The opening tag: flushes characters (ignored), pushes a
                // fresh element.
                assert(e1 =~= seq![TokenModel::Characters(m.chars)] + seq![
                    plain_tag_token(TagKind::StartTag, name),
                ]);
                lemma_builder_fold_append(
                    b,
                    seq![TokenModel::Characters(m.chars)],
                    seq![plain_tag_token(TagKind::StartTag, name)],
                );
                lemma_builder_fold_one(b, TokenModel::Characters(m.chars));
                lemma_builder_fold_one(b, plain_tag_token(TagKind::StartTag, name));
                let fresh = NodeModel::Element {
                    name,
                    attrs: Seq::empty(),
                    children: Seq::empty(),
                };
                let b1 = BuilderModel { completed: b.completed, open: b.open.push(fresh) };
                assert(builder_fold(b, e1) =~= b1);
                // The children extend the fresh element's children.
                assert(builder_fold(b1, e2) == attach_seq(b1, markup_elements(*children)));
                lemma_attach_seq_into_open(
                    b,
                    name,
                    Seq::empty(),
                    Seq::empty(),
                    markup_elements(*children),
                );
                assert(Seq::<NodeModel>::empty() + markup_elements(*children) =~= markup_elements(
                    *children,
                ));
                let b2 = BuilderModel { completed: b.completed, open: b.open.push(elem) };
                assert(builder_fold(b1, e2) =~= b2);
                // The closing tag: flushes characters (ignored), pops the
                // element and attaches it.
                assert(e3 =~= seq![TokenModel::Characters(m2.chars)] + seq![
                    plain_tag_token(TagKind::EndTag, name),
                ]);
                lemma_builder_fold_append(
                    b2,
                    seq![TokenModel::Characters(m2.chars)],
                    seq![plain_tag_token(TagKind::EndTag, name)],
                );
                lemma_builder_fold_one(b2, TokenModel::Characters(m2.chars));
                lemma_builder_fold_one(b2, plain_tag_token(TagKind::EndTag, name));
                assert(b2.open.last() == elem);
                assert(b2.open.drop_last() =~= b.open);
                let b3 = builder_fold(b2, e3);
                assert(b3 =~= super::tree_builder::attach_model(b, elem));
                // What follows the element attaches after it.
                assert(builder_fold(b3, e4) == attach_seq(b3, markup_elements(*rest)));
                assert(markup_elements(f) =~= seq![elem] + markup_elements(*rest));
                assert(attach_seq(b, markup_elements(f)) == attach_seq(
                    super::tree_builder::attach_model(b, elem),
                    markup_elements(*rest),
                )) by {
                    assert((seq![elem] + markup_elements(*rest))[0] == elem);
                    assert((seq![elem] + markup_elements(*rest)).skip(1) =~= markup_elements(
                        *rest,
                    ));
                }
            }
        },
    }
}

/// The nesting law: for every well-formed input made of properly nested
/// tag pairs and literal text, the parsed forest mirrors the nesting
/// depth and order of the tags exactly — one element per tag pair, with
/// empty attribute lists, and nothing else.
pub proof fn lemma_nested_markup_mirrors(f: MarkupForest)
    requires
        wf_markup(f),
    ensures
        spec_parse(render_markup(f)) == markup_elements(f),
{
    lemma_render_run(init_machine(), f);
    lemma_builder_run_is_fold(spec_tokenize(render_markup(f)));
    lemma_attach_seq_completed(empty_builder(), markup_elements(f));
    assert(Seq::<NodeModel>::empty() + markup_elements(f) =~= markup_elements(f));
}


} // verus!
