//! Semantic highlighting for Lisette sources: the token legend, the
//! relative encoding of tokens that the Language Server Protocol uses, and
//! the walk over a parsed file that decides which span gets which token.
pub mod ast;
pub mod builder;
pub mod highlight;
pub mod laws;
pub mod legend;
pub mod position;
pub mod snapshot;
pub mod text;
