//! Confluence Storage Format (XHTML) ⇄ document tree.
pub mod diagram;
pub mod render;
pub mod xml;
pub mod builder;
pub mod parse;
