//! Character-driven markup tokenizer and stack-based tree builder.
//!
//! The pipeline is: [`buffer::Buffer`] hands the input to
//! [`tokenizer::Tokenizer`] one character at a time; the tokenizer emits
//! discrete tokens into a [`interface::TokenSink`]; the concrete sink
//! ([`tree_builder::TreeBuilder`]) maintains an open-element stack and
//! produces the final node forest.

pub mod buffer;
pub mod dom_handler;
pub mod interface;
pub mod laws;
pub mod tokenizer;
pub mod tree_builder;

use vstd::prelude::*;

use self::buffer::Buffer;
use self::interface::{Node, NodeModel, TokenModel, TokenSink, forest_model};
use self::tokenizer::{Tokenizer, spec_tokenize};
use self::tree_builder::{TreeBuilder, builder_run_model};

verus! {

/// The forest that parsing an input must produce: the completed top-level
/// nodes after the tree builder has consumed the input's full token
/// stream. Nodes still open at end of input are absent.
pub open spec fn spec_parse(input: Seq<char>) -> Seq<NodeModel> {
    builder_run_model(spec_tokenize(input)).completed
}

/// Parse a markup string into its forest of top-level nodes.
pub fn parse(input: &str) -> (nodes: Vec<Node>)
    ensures
        forest_model(nodes@) == spec_parse(input@),
{
    let tree_builder = TreeBuilder::new();
    let mut buffer = Buffer::new(input);
    let mut tokenizer = Tokenizer::new(tree_builder);

    proof {
        assert forall|i: int|
            0 <= i < spec_tokenize(input@).len() implies <TreeBuilder as TokenSink>::accepts(
            #[trigger] spec_tokenize(input@)[i],
        ) by {}
    }
    tokenizer.feed(&mut buffer);

    proof {
        assert(tokenizer.sink.tokens() =~= spec_tokenize(input@));
    }
    tokenizer.sink.into_nodes()
}

} // verus!
