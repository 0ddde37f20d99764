use confmark::ast::{Block, Document, Inline, LinkTarget};

fn doc(blocks: Vec<Block>) -> String {
    Document { blocks }.to_confluence()
}

fn text(s: &str) -> Inline {
    Inline::Text(s.to_string())
}

#[test]
fn preserves_unknown_block_element_verbatim() {
    let xml = "<p>a</p>\n<ac:layout><ac:layout-section/></ac:layout>\n<p>b</p>";
    let parsed = Document::from_confluence(xml);
    assert_eq!(
        parsed.blocks,
        vec![
            Block::Paragraph(vec![text("a")]),
            Block::RawConfluence("<ac:layout><ac:layout-section/></ac:layout>".into()),
            Block::Paragraph(vec![text("b")]),
        ]
    );
    assert_eq!(parsed.to_confluence(), xml);
}

#[test]
fn preserves_unknown_inline_element_verbatim() {
    let xml = "<p>a <ac:emoticon ac:name=\"smile\"/> b</p>";
    let parsed = Document::from_confluence(xml);
    assert_eq!(
        parsed.blocks,
        vec![Block::Paragraph(vec![
            text("a "),
            Inline::RawConfluence("<ac:emoticon ac:name=\"smile\"/>".into()),
            text(" b"),
        ])]
    );
    assert_eq!(parsed.to_confluence(), xml);
}

#[test]
fn parses_diagram_macro_with_extra_attrs_and_empty_param() {
    let xml = "<ac:structured-macro ac:macro-id=\"abc-123\" ac:name=\"mermaiddiagram\" ac:schema-version=\"1\">\n  <ac:parameter ac:name=\"\"/>\n  <ac:plain-text-body><![CDATA[flowchart LR\n    A --> B]]></ac:plain-text-body>\n</ac:structured-macro>";
    let parsed = Document::from_confluence(xml);
    assert_eq!(
        parsed.blocks,
        vec![Block::CodeBlock { language: Some("mermaid".into()), code: "flowchart LR\n    A --> B".into() }]
    );
}

#[test]
fn reassembles_split_cdata_diagram_body() {
    let xml = "<ac:structured-macro ac:name=\"mermaiddiagram\" ac:schema-version=\"1\">\n<ac:plain-text-body><![CDATA[A[\"]]>🔑<![CDATA[ B\"]]]></ac:plain-text-body>\n</ac:structured-macro>";
    let parsed = Document::from_confluence(xml);
    assert_eq!(
        parsed.blocks,
        vec![Block::CodeBlock { language: Some("mermaid".into()), code: "A[\"🔑 B\"]".into() }]
    );
    assert_eq!(
        parsed.to_confluence(),
        "<ac:structured-macro ac:name=\"mermaiddiagram\" ac:schema-version=\"1\">\n<ac:plain-text-body><![CDATA[A[\"🔑 B\"]]]></ac:plain-text-body>\n</ac:structured-macro>"
    );
}

#[test]
fn drops_unrepresentable_diagram_param_but_keeps_required_default() {
    let xml = "<ac:structured-macro ac:name=\"plantuml\" ac:schema-version=\"1\">\n<ac:parameter ac:name=\"theme\">dark</ac:parameter>\n<ac:plain-text-body><![CDATA[A --> B]]></ac:plain-text-body>\n</ac:structured-macro>";
    let parsed = Document::from_confluence(xml);
    assert_eq!(parsed.blocks, vec![Block::CodeBlock { language: Some("plantuml".into()), code: "A --> B".into() }]);
    assert_eq!(
        parsed.to_confluence(),
        "<ac:structured-macro ac:name=\"plantuml\" ac:schema-version=\"1\">\n<ac:parameter ac:name=\"atlassian-macro-output-type\">INLINE</ac:parameter>\n<ac:plain-text-body><![CDATA[A --> B]]></ac:plain-text-body>\n</ac:structured-macro>"
    );
}

#[test]
fn escapes_text_and_attrs() {
    let p = Block::Paragraph(vec![
        text("a < b & c"),
        Inline::Link {
            target: LinkTarget::External("https://x.test?a=1&b=2".into()),
            title: Some("t\"q".into()),
            content: vec![text("link")],
        },
    ]);
    assert_eq!(doc(vec![p]), "<p>a &lt; b &amp; c<a href=\"https://x.test?a=1&amp;b=2\" title=\"t&quot;q\">link</a></p>");
}

#[test]
fn unknown_element_with_nested_namesake_is_kept_whole() {
    let xml = "<ac:layout><ac:layout>x</ac:layout></ac:layout><p>b</p>";
    let parsed = Document::from_confluence(xml);
    assert_eq!(
        parsed.blocks,
        vec![
            Block::RawConfluence("<ac:layout><ac:layout>x</ac:layout></ac:layout>".into()),
            Block::Paragraph(vec![text("b")]),
        ]
    );
}

#[test]
fn unclosed_unknown_element_is_not_kept() {
    let parsed = Document::from_confluence("<p>a</p><ac:layout>x");
    assert_eq!(parsed.blocks, vec![Block::Paragraph(vec![text("a")])]);
}
