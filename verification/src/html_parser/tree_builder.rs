//! The tree builder: the concrete token sink that maintains an
//! open-element stack and produces the final node forest.
//!
//! Stack discipline: a start tag pushes a fresh element; an end tag pops
//! the top unconditionally (no name check) and transfers ownership of the
//! popped node exactly once — to the new top's children, or to the
//! completed list when the stack has emptied. An end tag on an empty stack
//! is silently ignored. Character runs and parse errors are ignored by
//! this sink; nodes still open when input ends never surface in output.

use vstd::prelude::*;

use super::interface::{
    Attribute, Element, Node, NodeData, NodeModel, TagKind, Token, TokenModel, TokenSink,
    attrs_model, forest_model, node_model,
};

verus! {

broadcast use vstd::std_specs::vec::group_vec_axioms;

/// Mathematical model of a builder's state: the finished top-level nodes
/// and the open-element stack, most recently opened last.
#[verifier::ext_equal]
pub struct BuilderModel {
    pub completed: Seq<NodeModel>,
    pub open: Seq<NodeModel>,
}

/// A node with one more child appended (text nodes have no children and
/// stay unchanged).
pub open spec fn with_child(parent: NodeModel, child: NodeModel) -> NodeModel {
    match parent {
        NodeModel::Element { name, attrs, children } => NodeModel::Element {
            name,
            attrs,
            children: children.push(child),
        },
        NodeModel::Text(t) => NodeModel::Text(t),
    }
}

/// Transfer ownership of a finished node: to the children of the stack's
/// top when the stack is non-empty, to the completed list otherwise.
pub open spec fn attach_model(b: BuilderModel, n: NodeModel) -> BuilderModel {
    if b.open.len() == 0 {
        BuilderModel { completed: b.completed.push(n), ..b }
    } else {
        BuilderModel {
            open: b.open.update(b.open.len() - 1, with_child(b.open.last(), n)),
            ..b
        }
    }
}

/// How one token changes the builder's state. A start tag pushes a fresh
/// element; an end tag pops unconditionally and attaches the popped node
/// (a no-op on an empty stack); character runs and parse errors are
/// ignored.
pub open spec fn builder_step_model(b: BuilderModel, t: TokenModel) -> BuilderModel {
    match t {
        TokenModel::Tag(tag) => match tag.kind {
            TagKind::StartTag => BuilderModel {
                open: b.open.push(
                    NodeModel::Element { name: tag.name, attrs: tag.attrs, children: Seq::empty() },
                ),
                ..b
            },
            TagKind::EndTag => {
                if b.open.len() == 0 {
                    b
                } else {
                    attach_model(
                        BuilderModel { open: b.open.drop_last(), ..b },
                        b.open.last(),
                    )
                }
            },
        },
        TokenModel::Characters(_) => b,
        TokenModel::ParseError => b,
    }
}

/// The builder's state after receiving a whole token sequence, starting
/// from an empty completed list and an empty stack.
pub open spec fn builder_run_model(tokens: Seq<TokenModel>) -> BuilderModel
    decreases tokens.len(),
{
    if tokens.len() == 0 {
        BuilderModel { completed: Seq::empty(), open: Seq::empty() }
    } else {
        builder_step_model(builder_run_model(tokens.drop_last()), tokens.last())
    }
}

/// The token sink that builds the node forest.
pub struct TreeBuilder {
    nodes: Vec<Node>,
    stack: Vec<Node>,
    history: Ghost<Seq<TokenModel>>,
}

impl TreeBuilder {
    /// A fresh builder: nothing completed, nothing open, nothing received.
    pub fn new() -> (b: TreeBuilder)
        ensures
            b.wf(),
            b.tokens() == Seq::<TokenModel>::empty(),
    {
        let b = TreeBuilder { nodes: vec![], stack: vec![], history: Ghost(Seq::empty()) };
        proof {
            assert(forest_model(b.nodes@) =~= Seq::<NodeModel>::empty());
            assert(forest_model(b.stack@) =~= Seq::<NodeModel>::empty());
        }
        b
    }

    /// The finishing accessor: the completed top-level nodes, in order.
    /// Nodes still open are dropped, never surfacing in the result.
    pub fn into_nodes(self) -> (nodes: Vec<Node>)
        requires
            self.wf(),
        ensures
            forest_model(nodes@) == builder_run_model(self.tokens()).completed,
    {
        self.nodes
    }
}

impl TokenSink for TreeBuilder {
    /// The concrete lists model exactly the state that the received tokens
    /// dictate.
    closed spec fn wf(&self) -> bool {
        &&& forest_model(self.nodes@) == builder_run_model(self.history@).completed
        &&& forest_model(self.stack@) == builder_run_model(self.history@).open
    }

    closed spec fn tokens(&self) -> Seq<TokenModel> {
        self.history@
    }

    /// The tree builder absorbs every kind of token.
    open spec fn accepts(t: TokenModel) -> bool {
        true
    }

    fn process_token(&mut self, token: Token) {
        proof {
            let h = self.history@;
            let t = token@;
            assert(h.push(t).drop_last() =~= h);
            assert(h.push(t).last() == t);
            assert(builder_run_model(h.push(t)) == builder_step_model(builder_run_model(h), t));
        }
        let ghost b0 = builder_run_model(self.history@);
        proof {
            self.history@ = self.history@.push(token@);
        }
        match token {
            Token::Tag(t) => match t.kind {
                TagKind::StartTag => {
                    let node = create_element(t.name, t.attrs);
                    proof {
                        assert(self.stack@.push(node).drop_last() =~= self.stack@);
                        assert(forest_model(self.stack@.push(node)) == forest_model(
                            self.stack@,
                        ).push(node_model(node)));
                    }
                    self.stack.push(node);
                },
                TagKind::EndTag => {
                    let popped = self.stack.pop();
                    match popped {
                        Some(node) => {
                            proof {
                                assert(old(self).stack@.drop_last() =~= self.stack@);
                                assert(forest_model(old(self).stack@) == forest_model(
                                    self.stack@,
                                ).push(node_model(node)));
                                assert(forest_model(self.stack@).push(
                                    node_model(node),
                                ).drop_last() =~= forest_model(self.stack@));
                                assert(forest_model(self.stack@) == forest_model(
                                    old(self).stack@,
                                ).drop_last());
                                assert(forest_model(old(self).stack@).last() == node_model(node));
                            }
                            self.append_node(node);
                        },
                        None => {
                            proof {
                                assert(forest_model(self.stack@).len() == 0);
                            }
                        },
                    }
                },
            },
            Token::Characters(_) => {},
            Token::ParseError(_) => {},
        }
    }
}

impl TreeBuilder {
    /// Transfer a finished node: append it to the children of the stack's
    /// top, or to the completed list when the stack is empty.
    fn append_node(&mut self, node: Node)
        ensures
            final(self).history == old(self).history,
            forest_model(final(self).nodes@) == attach_model(
                BuilderModel {
                    completed: forest_model(old(self).nodes@),
                    open: forest_model(old(self).stack@),
                },
                node_model(node),
            ).completed,
            forest_model(final(self).stack@) == attach_model(
                BuilderModel {
                    completed: forest_model(old(self).nodes@),
                    open: forest_model(old(self).stack@),
                },
                node_model(node),
            ).open,
    {
        let ghost n = node_model(node);
        if self.stack.len() == 0 {
            proof {
                assert(forest_model(self.stack@).len() == 0);
                assert(self.nodes@.push(node).drop_last() =~= self.nodes@);
                assert(forest_model(self.nodes@.push(node)) == forest_model(self.nodes@).push(n));
            }
            self.nodes.push(node);
        } else {
            let mut parent = self.stack.pop().unwrap();
            parent.children.push(node);
            proof {
                let old_stack = old(self).stack@;
                let old_parent = old_stack.last();
                assert(node_model(parent) =~= with_child(node_model(old_parent), n)) by {
                    match old_parent.data {
                        NodeData::Element(_) => {
                            assert(parent.children@.drop_last() =~= old_parent.children@);
                            assert(forest_model(parent.children@) == forest_model(
                                old_parent.children@,
                            ).push(n));
                        },
                        NodeData::Text(_) => {},
                    }
                }
            }
            let ghost mid_stack = self.stack@;
            self.stack.push(parent);
            proof {
                let old_stack = old(self).stack@;
                let old_parent = old_stack.last();
                assert(self.stack@.drop_last() =~= mid_stack);
                assert(forest_model(self.stack@) == forest_model(mid_stack).push(
                    node_model(parent),
                ));
                assert(old_stack.drop_last() =~= mid_stack);
                assert(forest_model(old_stack) == forest_model(mid_stack).push(
                    node_model(old_parent),
                ));
                assert(forest_model(old_stack).last() == node_model(old_parent));
                assert(forest_model(old_stack).len() == forest_model(mid_stack).len() + 1);
                assert(forest_model(self.stack@) =~= forest_model(old_stack).update(
                    forest_model(old_stack).len() - 1,
                    with_child(forest_model(old_stack).last(), n),
                ));
            }
        }
    }
}

/// A fresh element node with the given (already case-folded) name and
/// attribute list and no children.
fn create_element(name: Vec<char>, attrs: Vec<Attribute>) -> (n: Node)
    ensures
        node_model(n) == (NodeModel::Element {
            name: name@,
            attrs: attrs_model(attrs@),
            children: Seq::<NodeModel>::empty(),
        }),
{
    let n = Node { data: NodeData::Element(Element { name, attrs }), children: vec![] };
    proof {
        assert(forest_model(n.children@) =~= Seq::<NodeModel>::empty());
    }
    n
}

} // verus!
