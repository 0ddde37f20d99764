//! Bidirectional conversion between Markdown (CommonMark + GFM) and Confluence
//! Storage Format (XHTML), built around a shared document tree.
use vstd::prelude::*;

pub mod ast;
pub mod confluence;
pub mod format;
pub mod markdown;
pub mod text;
pub mod uri;

pub use ast::Document;

verus! {

} // verus!
