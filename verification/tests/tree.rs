use markup_engine::html_parser::buffer::Buffer;
use markup_engine::html_parser::dom_handler::DOMHandler;
use markup_engine::html_parser::interface::{Attribute, Element, Node, NodeData};
use markup_engine::html_parser::parse;
use markup_engine::html_parser::tokenizer::Tokenizer;

fn chars(s: &str) -> Vec<char> {
    s.chars().collect()
}

fn element(name: &str, attrs: Vec<(&str, &str)>, children: Vec<Node>) -> Node {
    Node {
        data: NodeData::Element(Element {
            name: chars(name),
            attrs: attrs
                .into_iter()
                .map(|(n, v)| Attribute { name: chars(n), value: chars(v) })
                .collect(),
        }),
        children,
    }
}

fn text(s: &str) -> Node {
    Node { data: NodeData::Text(chars(s)), children: vec![] }
}

#[test]
fn nested_elements_mirror_tag_nesting() {
    let nodes = parse("<a><b></b></a>");
    assert_eq!(
        nodes,
        vec![element("a", vec![], vec![element("b", vec![], vec![])])]
    );
}

#[test]
fn sibling_elements_keep_order() {
    let nodes = parse("<a></a><b></b><c></c>");
    assert_eq!(
        nodes,
        vec![
            element("a", vec![], vec![]),
            element("b", vec![], vec![]),
            element("c", vec![], vec![]),
        ]
    );
}

#[test]
fn unmatched_close_pops_unconditionally() {
    // The first `</b>` pops `a` (the only open node); the second `</a>`
    // finds an empty stack and is ignored.
    let nodes = parse("<a></b></a>");
    assert_eq!(nodes, vec![element("a", vec![], vec![])]);
}

#[test]
fn unterminated_input_yields_empty_forest() {
    let nodes = parse("<a>");
    assert_eq!(nodes, vec![]);
}

#[test]
fn self_closing_tag_still_needs_a_close() {
    // A self-closing tag is flagged but still pushed as an open node, so
    // without a matching close it is dropped at end of input.
    let nodes = parse("<br/>");
    assert_eq!(nodes, vec![]);
}

#[test]
fn text_is_not_materialized_by_tree_builder() {
    let nodes = parse("<p>hi</p>");
    assert_eq!(nodes, vec![element("p", vec![], vec![])]);
}

#[test]
fn attributes_ride_along_with_duplicates() {
    let nodes = parse("<a x=\"1\" x=\"2\"></a>");
    assert_eq!(
        nodes,
        vec![element("a", vec![("x", "1"), ("x", "2")], vec![])]
    );
}

#[test]
fn close_on_empty_stack_is_ignored() {
    let nodes = parse("</a><b></b>");
    assert_eq!(nodes, vec![element("b", vec![], vec![])]);
}

#[test]
fn deeply_nested_structure() {
    let nodes = parse("<a><b><c></c><d></d></b></a>");
    assert_eq!(
        nodes,
        vec![element(
            "a",
            vec![],
            vec![element(
                "b",
                vec![],
                vec![element("c", vec![], vec![]), element("d", vec![], vec![])]
            )]
        )]
    );
}

#[test]
fn dom_handler_materializes_text_nodes() {
    let mut tokenizer = Tokenizer::new(DOMHandler::new());
    let mut buffer = Buffer::new("<p>hi</p>");
    tokenizer.feed(&mut buffer);
    let nodes = tokenizer.sink.into_nodes();
    // The run before `<p>` is empty but still becomes a text node, like
    // every character run this sink receives.
    assert_eq!(
        nodes,
        vec![text(""), element("p", vec![], vec![text("hi")])]
    );
}
