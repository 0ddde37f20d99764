//! Markdown (CommonMark + GFM) ⇄ document tree.
//!
//! Macros round-trip through Markdown via admonition alerts, `<details>`
//! (expand), and `<!--cf:…-->` markers; preserved Confluence markup
//! round-trips as `<!--cf-raw:…-->`; Confluence resource links and images
//! round-trip as `confluence://` URIs.
pub mod parse;
pub mod render;
pub mod tree;
pub mod walk;
