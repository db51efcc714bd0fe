//! The data model of the style-sheet mini-language: stylesheets, rules,
//! selectors, declarations and values.

use vstd::prelude::*;

verus! {

/// A whole stylesheet: its rules, in order.
#[derive(Debug, PartialEq, Eq)]
pub struct Stylesheet {
    pub rules: Vec<Rule>,
}

/// One rule: the selectors it applies to and the declarations it makes.
#[derive(Debug, PartialEq, Eq)]
pub struct Rule {
    pub selectors: Vec<Selector>,
    pub declarations: Vec<Declaration>,
}

/// A compound selector: a tag name (`*` for universal), an `#identifier`,
/// `.class` names, and optional descendant (`div h1`) or child
/// (`div > h1`) continuations.
#[derive(Debug, PartialEq, Eq)]
pub struct Selector {
    pub tag_name: Option<Vec<char>>,
    pub identifier: Option<Vec<char>>,
    pub class_names: Option<Vec<Vec<char>>>,
    pub descendant: Option<Box<Selector>>,
    pub child: Option<Box<Selector>>,
}

impl Selector {
    /// A selector with every part absent.
    pub fn new() -> (s: Selector)
        ensures
            s.tag_name is None,
            s.identifier is None,
            s.class_names is None,
            s.descendant is None,
            s.child is None,
    {
        Selector {
            tag_name: None,
            identifier: None,
            class_names: None,
            descendant: None,
            child: None,
        }
    }
}

/// One `name: value` declaration.
#[derive(Debug, PartialEq, Eq)]
pub struct Declaration {
    pub name: Vec<char>,
    pub value: CSSValue,
}

impl Declaration {
    /// A declaration with an empty name and an empty keyword value.
    pub fn new() -> (d: Declaration)
        ensures
            d.name@ == Seq::<char>::empty(),
            d.value matches CSSValue::Keyword(k) && k@ == Seq::<char>::empty(),
    {
        Declaration { name: Vec::new(), value: CSSValue::Keyword(Vec::new()) }
    }
}

/// The value of a declaration.
#[derive(Debug, PartialEq, Eq)]
pub enum CSSValue {
    Keyword(Vec<char>),
    Function(Vec<char>, Vec<CSSValue>),
    StringLiteral(Vec<char>),
    Number(Number),
    NumberWithUnit(Number, Vec<char>),
    Percentage(Number),
    Color(Vec<char>),
    List(Vec<CSSValue>),
    CommaSeparatedList(Vec<CSSValue>),
}

/// A numeric literal, kept as written.
#[derive(Debug, PartialEq, Eq)]
pub struct Number(pub Vec<char>);

} // verus!
