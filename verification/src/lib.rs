//! A small verified markup-processing library.
//!
//! The heart of the crate is `html_parser`: a character-driven tokenizer
//! (an explicit finite-state machine) paired with a stack-based tree
//! builder that together turn a raw markup string into an ordered forest
//! of element/text nodes. Beside it stand two collaborators: a character
//! cursor (`tokenizer`) and the vocabulary and tokenizer of a style-sheet
//! mini-language (`css_parser`).

pub mod css_parser;
pub mod html_parser;
pub mod tokenizer;
