//! Shared vocabulary between the tokenizer and the tree builder: tokens,
//! tokenizer states, nodes, and the token-sink capability, together with
//! the mathematical models that the contracts speak of.

use vstd::prelude::*;

verus! {

broadcast use vstd::std_specs::vec::group_vec_axioms;

/// Whether a tag token came from an opening `<name ...>` or a closing
/// `</name ...>` tag.
#[derive(Debug, Copy, Clone, PartialEq, Eq, Structural)]
pub enum TagKind {
    StartTag,
    EndTag,
}

/// The three quoting styles of an attribute value.
#[derive(Debug, Copy, Clone, PartialEq, Eq, Structural)]
pub enum AttrValueKind {
    Unquoted,
    SingleQuoted,
    DoubleQuoted,
}

/// The states of the tokenizer's finite-state machine.
#[derive(Debug, Copy, Clone, PartialEq, Eq, Structural)]
pub enum State {
    Data,
    TagOpen,
    EndTagOpen,
    TagName,
    BeforeAttributeName,
    AttributeName,
    AfterAttributeName,
    BeforeAttributeValue,
    AttributeValue(AttrValueKind),
    AfterAttributeValueQuoted,
    SelfClosingStartTag,
}

/// One `name="value"` pair of a tag, already case-folded to lowercase.
#[derive(Debug, Clone, PartialEq, Eq)]
pub struct Attribute {
    pub name: Vec<char>,
    pub value: Vec<char>,
}

/// Mathematical model of an [`Attribute`].
#[verifier::ext_equal]
pub struct AttrModel {
    pub name: Seq<char>,
    pub value: Seq<char>,
}

impl View for Attribute {
    type V = AttrModel;

    open spec fn view(&self) -> AttrModel {
        AttrModel { name: self.name@, value: self.value@ }
    }
}

/// The model of an attribute list: each entry in insertion order.
pub open spec fn attrs_model(attrs: Seq<Attribute>) -> Seq<AttrModel> {
    Seq::new(attrs.len(), |i: int| attrs[i]@)
}

/// An empty attribute list has an empty model.
pub broadcast proof fn lemma_attrs_model_empty()
    ensures
        #[trigger] attrs_model(Seq::<Attribute>::empty()) == Seq::<AttrModel>::empty(),
{
    assert(attrs_model(Seq::<Attribute>::empty()) =~= Seq::<AttrModel>::empty());
}

/// Appending an attribute appends its model.
pub broadcast proof fn lemma_attrs_model_push(attrs: Seq<Attribute>, a: Attribute)
    ensures
        #[trigger] attrs_model(attrs.push(a)) == attrs_model(attrs).push(a@),
{
    assert(attrs_model(attrs.push(a)) =~= attrs_model(attrs).push(a@));
}

/// A start or end tag, with its (case-folded) name, its attribute list in
/// insertion order (duplicates kept), and its self-closing flag.
#[derive(Debug, Clone, PartialEq, Eq)]
pub struct TagToken {
    pub kind: TagKind,
    pub name: Vec<char>,
    pub self_closing: bool,
    pub attrs: Vec<Attribute>,
}

/// Mathematical model of a [`TagToken`].
#[verifier::ext_equal]
pub struct TagModel {
    pub kind: TagKind,
    pub name: Seq<char>,
    pub self_closing: bool,
    pub attrs: Seq<AttrModel>,
}

impl View for TagToken {
    type V = TagModel;

    open spec fn view(&self) -> TagModel {
        TagModel {
            kind: self.kind,
            name: self.name@,
            self_closing: self.self_closing,
            attrs: attrs_model(self.attrs@),
        }
    }
}

/// A discrete unit emitted by the tokenizer: a tag event, a run of literal
/// text, or a parse error carrying a diagnostic message.
#[derive(Debug, PartialEq, Eq)]
pub enum Token {
    Tag(TagToken),
    Characters(Vec<char>),
    ParseError(Vec<char>),
}

/// Mathematical model of a [`Token`]. A parse error's diagnostic message is
/// not part of the model: contracts promise when an error is emitted, not
/// its wording.
#[verifier::ext_equal]
pub enum TokenModel {
    Tag(TagModel),
    Characters(Seq<char>),
    ParseError,
}

impl View for Token {
    type V = TokenModel;

    open spec fn view(&self) -> TokenModel {
        match self {
            Token::Tag(t) => TokenModel::Tag(t@),
            Token::Characters(s) => TokenModel::Characters(s@),
            Token::ParseError(_) => TokenModel::ParseError,
        }
    }
}

/// The tokenizer's output capability: receive one token, react
/// synchronously. Tree construction, token-collecting tests and diagnostic
/// consumers all drive the tokenizer through this single method.
pub trait TokenSink {
    /// Well-formedness of the sink's own state; every sink operation
    /// preserves it.
    spec fn wf(&self) -> bool;

    /// The models of all tokens received so far, oldest first.
    spec fn tokens(&self) -> Seq<TokenModel>;

    /// Which tokens this sink is prepared to receive.
    spec fn accepts(t: TokenModel) -> bool;

    /// Receive one token.
    fn process_token(&mut self, token: Token)
        requires
            old(self).wf(),
            Self::accepts(token@),
        ensures
            final(self).wf(),
            final(self).tokens() == old(self).tokens().push(token@),
    ;
}

/// The models of a sequence of tokens, oldest first.
pub open spec fn tokens_model(tokens: Seq<Token>) -> Seq<TokenModel> {
    Seq::new(tokens.len(), |i: int| tokens[i]@)
}

/// A sink that keeps every received token, in order: the consumer used by
/// token-level tests and diagnostics.
pub struct TokenCollector {
    items: Vec<Token>,
}

impl TokenCollector {
    /// A fresh collector holding no tokens.
    pub fn new() -> (c: TokenCollector)
        ensures
            c.wf(),
            c.tokens() == Seq::<TokenModel>::empty(),
    {
        let c = TokenCollector { items: vec![] };
        proof {
            assert(tokens_model(c.items@) =~= Seq::<TokenModel>::empty());
        }
        c
    }

    /// Every token received so far, oldest first.
    pub fn into_tokens(self) -> (tokens: Vec<Token>)
        ensures
            tokens_model(tokens@) == self.tokens(),
    {
        self.items
    }
}

impl TokenSink for TokenCollector {
    /// A collector has no invariant of its own.
    open spec fn wf(&self) -> bool {
        true
    }

    closed spec fn tokens(&self) -> Seq<TokenModel> {
        tokens_model(self.items@)
    }

    /// A collector absorbs every kind of token.
    open spec fn accepts(t: TokenModel) -> bool {
        true
    }

    fn process_token(&mut self, token: Token) {
        proof {
            assert(tokens_model(self.items@.push(token)) =~= tokens_model(self.items@).push(
                token@,
            ));
        }
        self.items.push(token);
    }
}

/// A node of the final forest: an element with an ordered list of children,
/// or a run of literal text.
#[derive(Debug, PartialEq, Eq)]
pub struct Node {
    pub data: NodeData,
    pub children: Vec<Node>,
}

/// The payload of a [`Node`].
#[derive(Debug, PartialEq, Eq)]
pub enum NodeData {
    Element(Element),
    Text(Vec<char>),
}

/// An element's name and attribute list.
#[derive(Debug, PartialEq, Eq)]
pub struct Element {
    pub name: Vec<char>,
    pub attrs: Vec<Attribute>,
}

/// Mathematical model of a [`Node`].
#[verifier::ext_equal]
pub enum NodeModel {
    Element { name: Seq<char>, attrs: Seq<AttrModel>, children: Seq<NodeModel> },
    Text(Seq<char>),
}

/// Mathematical model of a [`Node`]: the same tree over sequences.
pub open spec fn node_model(n: Node) -> NodeModel
    decreases n,
{
    match n.data {
        NodeData::Text(t) => NodeModel::Text(t@),
        NodeData::Element(e) => NodeModel::Element {
            name: e.name@,
            attrs: attrs_model(e.attrs@),
            children: forest_model(n.children@),
        },
    }
}

/// The model of a list of nodes, kept in order.
pub open spec fn forest_model(nodes: Seq<Node>) -> Seq<NodeModel>
    decreases nodes,
{
    if nodes.len() == 0 {
        Seq::empty()
    } else {
        forest_model(nodes.drop_last()).push(node_model(nodes.last()))
    }
}

/// `forest_model` is the element-wise model of the list.
pub proof fn lemma_forest_model_index(nodes: Seq<Node>)
    ensures
        forest_model(nodes).len() == nodes.len(),
        forall|i: int| 0 <= i < nodes.len() ==> forest_model(nodes)[i] == node_model(nodes[i]),
    decreases nodes.len(),
{
    if nodes.len() > 0 {
        lemma_forest_model_index(nodes.drop_last());
    }
}

impl Node {
    /// A fresh node with the given payload and no children.
    pub fn new(data: NodeData) -> (n: Node)
        ensures
            n.data == data,
            n.children@ == Seq::<Node>::empty(),
    {
        Node { data, children: vec![] }
    }
}

} // verus!
