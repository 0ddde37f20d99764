//! The two formats and the conversion between them.
use vstd::prelude::*;

use crate::ast::{BlockV, Document};
use crate::confluence::parse::spec_from_confluence;
use crate::confluence::render::lemma_to_confluence_view;
use crate::markdown::render::lemma_to_markdown_view;
use crate::markdown::tree::commonmark_tree;
use crate::markdown::walk::spec_from_tree;
use crate::text::{chars_of, string_of};

verus! {

/// A document format.
#[derive(Clone, Copy, Debug, PartialEq, Eq, Structural)]
pub enum Format {
    /// Markdown (CommonMark + GFM).
    Markdown,
    /// Confluence Storage Format (XHTML).
    Confluence,
}

/// Why a conversion was refused.
#[derive(Clone, Copy, Debug, PartialEq, Eq, Structural)]
pub enum ConvertError {
    /// The source and the target format are the same.
    SameFormat,
}

impl ConvertError {
    /// The message shown for the error.
    pub fn message(&self) -> (r: String)
        ensures
            r@ == "source and target formats must differ"@,
    {
        string_of(&chars_of("source and target formats must differ"))
    }
}

impl Format {
    /// The document that `src`, written in this format, reads as.
    pub open spec fn spec_parse(self, src: Seq<char>) -> Seq<BlockV> {
        match self {
            Format::Markdown => spec_from_tree(commonmark_tree(src)),
            Format::Confluence => spec_from_confluence(src),
        }
    }

    /// The text of `doc` in this format. It depends on the document's view
    /// only (see [`Format::lemma_render_view`]).
    pub open spec fn spec_render(self, doc: Document) -> Seq<char> {
        match self {
            Format::Markdown => doc.spec_to_markdown(),
            Format::Confluence => doc.spec_to_confluence(),
        }
    }

    /// Rendering reads a document's content only: documents with the same view
    /// render the same in either format.
    pub proof fn lemma_render_view(self, d1: Document, d2: Document)
        requires
            d1@ == d2@,
        ensures
            self.spec_render(d1) == self.spec_render(d2),
    {
        lemma_to_markdown_view(d1, d2);
        lemma_to_confluence_view(d1, d2);
    }

    /// Parses `src`, written in this format.
    pub fn parse(self, src: &str) -> (d: Document)
        ensures
            d@ == self.spec_parse(src@),
    {
        match self {
            Format::Markdown => Document::from_markdown(src),
            Format::Confluence => Document::from_confluence(src),
        }
    }

    /// Renders `doc` in this format.
    pub fn render(self, doc: &Document) -> (r: String)
        ensures
            r@ == self.spec_render(*doc),
    {
        match self {
            Format::Markdown => doc.to_markdown(),
            Format::Confluence => doc.to_confluence(),
        }
    }
}

/// Converts `input` from one format to the other; refused when both are the
/// same.
pub fn convert(from: Format, to: Format, input: &str) -> (r: Result<String, ConvertError>)
    ensures
        r is Err <==> from == to,
        r matches Err(e) ==> e == ConvertError::SameFormat,
        r matches Ok(s) ==> exists|d: Document|
            #![trigger to.spec_render(d)]
            d@ == from.spec_parse(input@) && s@ == to.spec_render(d),
        r matches Ok(s) ==> forall|d: Document|
            #![trigger to.spec_render(d)]
            d@ == from.spec_parse(input@) ==> s@ == to.spec_render(d),
{
    if from == to {
        return Err(ConvertError::SameFormat);
    }
    let doc = from.parse(input);
    let out = to.render(&doc);
    assert(doc@ == from.spec_parse(input@) && out@ == to.spec_render(doc));
    assert forall|d: Document| d@ == from.spec_parse(input@) implies out@ == to.spec_render(d) by {
        to.lemma_render_view(doc, d);
    }
    Ok(out)
}

} // verus!
