//! Diagram macros: the bridge between a fenced code block and a named
//! Confluence structured-macro.
//!
//! A diagram (Mermaid, PlantUML) is an ordinary `Block::CodeBlock` whose
//! `language` names the diagram type. On the Confluence side it renders as a
//! dedicated `<ac:structured-macro>` (e.g. `mermaiddiagram`) with the source in
//! a CDATA body rather than as the generic `code` macro.
use vstd::prelude::*;

use crate::text::str_eq;

verus! {

/// One entry of the diagram-macro registry.
#[derive(Clone, Copy, PartialEq, Eq, Debug)]
pub enum DiagramMacro {
    Mermaid,
    PlantUml,
}

impl DiagramMacro {
    /// The Confluence `ac:name`.
    pub open spec fn spec_name(self) -> Seq<char> {
        match self {
            DiagramMacro::Mermaid => "mermaiddiagram"@,
            DiagramMacro::PlantUml => "plantuml"@,
        }
    }

    /// The Markdown fence language.
    pub open spec fn spec_language(self) -> Seq<char> {
        match self {
            DiagramMacro::Mermaid => "mermaid"@,
            DiagramMacro::PlantUml => "plantuml"@,
        }
    }

    /// The `ac:schema-version` emitted on render.
    pub open spec fn spec_schema_version(self) -> Seq<char> {
        "1"@
    }

    /// The `<ac:parameter>`s the macro needs to render; a Markdown fence cannot
    /// carry them, so they are fixed here and emitted on every render.
    pub open spec fn spec_params(self) -> Seq<(Seq<char>, Seq<char>)> {
        match self {
            DiagramMacro::Mermaid => seq![],
            DiagramMacro::PlantUml => seq![("atlassian-macro-output-type"@, "INLINE"@)],
        }
    }

    pub fn name(self) -> (r: &'static str)
        ensures
            r@ == self.spec_name(),
    {
        match self {
            DiagramMacro::Mermaid => "mermaiddiagram",
            DiagramMacro::PlantUml => "plantuml",
        }
    }

    pub fn language(self) -> (r: &'static str)
        ensures
            r@ == self.spec_language(),
    {
        match self {
            DiagramMacro::Mermaid => "mermaid",
            DiagramMacro::PlantUml => "plantuml",
        }
    }

    pub fn schema_version(self) -> (r: &'static str)
        ensures
            r@ == self.spec_schema_version(),
    {
        "1"
    }

    pub fn params(self) -> (r: Vec<(&'static str, &'static str)>)
        ensures
            r@.len() == self.spec_params().len(),
            forall|i: int|
                0 <= i < r@.len() ==> (#[trigger] r@[i]).0@ == self.spec_params()[i].0
                    && r@[i].1@ == self.spec_params()[i].1,
    {
        match self {
            DiagramMacro::Mermaid => Vec::new(),
            DiagramMacro::PlantUml => {
                let mut v = Vec::new();
                v.push(("atlassian-macro-output-type", "INLINE"));
                v
            },
        }
    }

    /// The registered diagram macro for a fence language.
    pub open spec fn spec_for_language(language: Seq<char>) -> Option<DiagramMacro> {
        if language == DiagramMacro::Mermaid.spec_language() {
            Some(DiagramMacro::Mermaid)
        } else if language == DiagramMacro::PlantUml.spec_language() {
            Some(DiagramMacro::PlantUml)
        } else {
            None
        }
    }

    /// The registered diagram macro for a Confluence `ac:name`.
    pub open spec fn spec_for_macro_name(name: Seq<char>) -> Option<DiagramMacro> {
        if name == DiagramMacro::Mermaid.spec_name() {
            Some(DiagramMacro::Mermaid)
        } else if name == DiagramMacro::PlantUml.spec_name() {
            Some(DiagramMacro::PlantUml)
        } else {
            None
        }
    }

    /// The registered diagram macro for a Markdown fence language, if any.
    pub fn for_language(language: &str) -> (r: Option<DiagramMacro>)
        ensures
            r == Self::spec_for_language(language@),
    {
        if str_eq(language, DiagramMacro::Mermaid.language()) {
            Some(DiagramMacro::Mermaid)
        } else if str_eq(language, DiagramMacro::PlantUml.language()) {
            Some(DiagramMacro::PlantUml)
        } else {
            None
        }
    }

    /// The registered diagram macro for a Confluence `ac:name`, if any.
    pub fn for_macro_name(name: &str) -> (r: Option<DiagramMacro>)
        ensures
            r == Self::spec_for_macro_name(name@),
    {
        if str_eq(name, DiagramMacro::Mermaid.name()) {
            Some(DiagramMacro::Mermaid)
        } else if str_eq(name, DiagramMacro::PlantUml.name()) {
            Some(DiagramMacro::PlantUml)
        } else {
            None
        }
    }
}

/// The registry is a bijection: every diagram macro is found again both by
/// its fence language and by its Confluence macro name.
pub proof fn lemma_diagram_registry_roundtrip(d: DiagramMacro)
    ensures
        DiagramMacro::spec_for_language(d.spec_language()) == Some(d),
        DiagramMacro::spec_for_macro_name(d.spec_name()) == Some(d),
{
    reveal_strlit("mermaid");
    reveal_strlit("plantuml");
    reveal_strlit("mermaiddiagram");
    assert("mermaid"@ != "plantuml"@ ) by {
        assert("mermaid"@[1] != "plantuml"@[1]);
    }
    assert("mermaiddiagram"@ != "plantuml"@) by {
        assert("mermaiddiagram"@[1] != "plantuml"@[1]);
    }
}

} // verus!
