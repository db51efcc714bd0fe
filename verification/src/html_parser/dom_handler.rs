//! An alternative token sink: like the tree builder it keeps an
//! open-element stack, but it also materializes character runs as text
//! nodes, attached exactly as finished elements are. Parse errors are
//! fatal to this consumer, so its contract refuses them: a verified
//! caller can never hand one in.

use vstd::prelude::*;

use super::interface::{
    Attribute, Element, Node, NodeData, NodeModel, TagKind, Token, TokenModel, TokenSink,
    attrs_model, forest_model, node_model,
};
use super::tree_builder::{BuilderModel, attach_model, builder_step_model, with_child};

verus! {

broadcast use vstd::std_specs::vec::group_vec_axioms;

/// How one token changes this sink's state: character runs become text
/// nodes and are attached like finished elements; tags act exactly as in
/// the tree builder.
pub open spec fn dom_step_model(b: BuilderModel, t: TokenModel) -> BuilderModel {
    match t {
        TokenModel::Characters(text) => attach_model(b, NodeModel::Text(text)),
        TokenModel::Tag(_) => builder_step_model(b, t),
        TokenModel::ParseError => b,
    }
}

/// This sink's state after receiving a whole token sequence.
pub open spec fn dom_run_model(tokens: Seq<TokenModel>) -> BuilderModel
    decreases tokens.len(),
{
    if tokens.len() == 0 {
        BuilderModel { completed: Seq::empty(), open: Seq::empty() }
    } else {
        dom_step_model(dom_run_model(tokens.drop_last()), tokens.last())
    }
}

/// The sink that builds a forest with text nodes kept.
pub struct DOMHandler {
    nodes: Vec<Node>,
    stack: Vec<Node>,
    history: Ghost<Seq<TokenModel>>,
}

impl DOMHandler {
    /// A fresh handler: nothing completed, nothing open, nothing received.
    pub fn new() -> (h: DOMHandler)
        ensures
            h.wf(),
            h.tokens() == Seq::<TokenModel>::empty(),
    {
        let h = DOMHandler { nodes: vec![], stack: vec![], history: Ghost(Seq::empty()) };
        proof {
            assert(forest_model(h.nodes@) =~= Seq::<NodeModel>::empty());
            assert(forest_model(h.stack@) =~= Seq::<NodeModel>::empty());
        }
        h
    }

    /// The finishing accessor: the completed top-level nodes, in order.
    /// Nodes still open are dropped, never surfacing in the result.
    pub fn into_nodes(self) -> (nodes: Vec<Node>)
        requires
            self.wf(),
        ensures
            forest_model(nodes@) == dom_run_model(self.tokens()).completed,
    {
        self.nodes
    }

    /// Transfer a finished node: append it to the children of the stack's
    /// top, or to the completed list when the stack is empty.
    fn append_node(&mut self, node: Node)
        ensures
            final(self).history == old(self).history,
            forest_model(final(self).nodes@) == attach_model(
                BuilderModel {
                    completed: forest_model(old(self).nodes@),
                    open: forest_model(old(self).stack@),
                },
                node_model(node),
            ).completed,
            forest_model(final(self).stack@) == attach_model(
                BuilderModel {
                    completed: forest_model(old(self).nodes@),
                    open: forest_model(old(self).stack@),
                },
                node_model(node),
            ).open,
    {
        let ghost n = node_model(node);
        if self.stack.len() == 0 {
            proof {
                assert(forest_model(self.stack@).len() == 0);
                assert(self.nodes@.push(node).drop_last() =~= self.nodes@);
                assert(forest_model(self.nodes@.push(node)) == forest_model(self.nodes@).push(n));
            }
            self.nodes.push(node);
        } else {
            let mut parent = self.stack.pop().unwrap();
            parent.children.push(node);
            proof {
                let old_stack = old(self).stack@;
                let old_parent = old_stack.last();
                assert(node_model(parent) =~= with_child(node_model(old_parent), n)) by {
                    match old_parent.data {
                        NodeData::Element(_) => {
                            assert(parent.children@.drop_last() =~= old_parent.children@);
                            assert(forest_model(parent.children@) == forest_model(
                                old_parent.children@,
                            ).push(n));
                        },
                        NodeData::Text(_) => {},
                    }
                }
            }
            let ghost mid_stack = self.stack@;
            self.stack.push(parent);
            proof {
                let old_stack = old(self).stack@;
                let old_parent = old_stack.last();
                assert(self.stack@.drop_last() =~= mid_stack);
                assert(forest_model(self.stack@) == forest_model(mid_stack).push(
                    node_model(parent),
                ));
                assert(old_stack.drop_last() =~= mid_stack);
                assert(forest_model(old_stack) == forest_model(mid_stack).push(
                    node_model(old_parent),
                ));
                assert(forest_model(old_stack).last() == node_model(old_parent));
                assert(forest_model(old_stack).len() == forest_model(mid_stack).len() + 1);
                assert(forest_model(self.stack@) =~= forest_model(old_stack).update(
                    forest_model(old_stack).len() - 1,
                    with_child(forest_model(old_stack).last(), n),
                ));
            }
        }
    }
}

impl TokenSink for DOMHandler {
    /// The concrete lists model exactly the state that the received tokens
    /// dictate.
    closed spec fn wf(&self) -> bool {
        &&& forest_model(self.nodes@) == dom_run_model(self.history@).completed
        &&& forest_model(self.stack@) == dom_run_model(self.history@).open
    }

    closed spec fn tokens(&self) -> Seq<TokenModel> {
        self.history@
    }

    /// Parse errors are fatal to this consumer, so it refuses them.
    open spec fn accepts(t: TokenModel) -> bool {
        !(t is ParseError)
    }

    fn process_token(&mut self, token: Token) {
        proof {
            let h = self.history@;
            let t = token@;
            assert(h.push(t).drop_last() =~= h);
            assert(h.push(t).last() == t);
            assert(dom_run_model(h.push(t)) == dom_step_model(dom_run_model(h), t));
        }
        proof {
            self.history@ = self.history@.push(token@);
        }
        match token {
            Token::Characters(text) => {
                self.append_node(create_text(text));
            },
            Token::Tag(t) => match t.kind {
                TagKind::StartTag => {
                    let node = create_element(t.name, t.attrs);
                    proof {
                        assert(self.stack@.push(node).drop_last() =~= self.stack@);
                        assert(forest_model(self.stack@.push(node)) == forest_model(
                            self.stack@,
                        ).push(node_model(node)));
                    }
                    self.stack.push(node);
                },
                TagKind::EndTag => {
                    let popped = self.stack.pop();
                    match popped {
                        Some(node) => {
                            proof {
                                assert(old(self).stack@.drop_last() =~= self.stack@);
                                assert(forest_model(old(self).stack@) == forest_model(
                                    self.stack@,
                                ).push(node_model(node)));
                                assert(forest_model(self.stack@).push(
                                    node_model(node),
                                ).drop_last() =~= forest_model(self.stack@));
                                assert(forest_model(self.stack@) == forest_model(
                                    old(self).stack@,
                                ).drop_last());
                                assert(forest_model(old(self).stack@).last() == node_model(node));
                            }
                            self.append_node(node);
                        },
                        None => {
                            proof {
                                assert(forest_model(self.stack@).len() == 0);
                            }
                        },
                    }
                },
            },
            Token::ParseError(_) => {},
        }
    }
}

/// A fresh text node holding a run of literal characters.
fn create_text(text: Vec<char>) -> (n: Node)
    ensures
        node_model(n) == NodeModel::Text(text@),
{
    Node::new(NodeData::Text(text))
}

/// A fresh element node with the given (already case-folded) name and
/// attribute list and no children.
fn create_element(name: Vec<char>, attrs: Vec<Attribute>) -> (n: Node)
    ensures
        node_model(n) == (NodeModel::Element {
            name: name@,
            attrs: attrs_model(attrs@),
            children: Seq::<NodeModel>::empty(),
        }),
{
    let n = Node::new(NodeData::Element(Element { name, attrs }));
    proof {
        assert(forest_model(n.children@) =~= Seq::<NodeModel>::empty());
    }
    n
}

} // verus!
