//! The style-sheet mini-language's vocabulary and its tokenizer. The
//! selector/declaration grammar built on top of it is a separately scoped
//! collaborator and not part of this library's core.

pub mod interface;
pub mod tokenizer;
