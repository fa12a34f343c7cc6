//! Device-tree source documents: parse, look up, patch and write back.
pub mod model;
pub mod lex_lemmas;
pub mod parse_lemmas;
pub mod node;
pub mod laws;
pub mod patch;
