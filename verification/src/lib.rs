//! A read-only projection of a concrete syntax tree across a runtime
//! boundary: opaque handles for nodes, tokens and parse diagnostics, and a
//! byte-offset to line/column converter. The lexer and parser that build the
//! tree are an external collaborator; this crate only exposes the result.

pub mod diag;
pub mod element;
pub mod node;
pub mod text_range;

pub use diag::SynErr;
pub use node::SynNode;
pub use node::dump;
pub use text_range::TextRange;
