use confmark::ast::{Block, Document, ImageSource, Inline, LinkTarget, Macro, MacroBody, Table, Task};

fn text(s: &str) -> Inline {
    Inline::Text(s.to_string())
}

fn para(inlines: Vec<Inline>) -> Block {
    Block::Paragraph(inlines)
}

#[test]
fn confluence_entities_and_character_references() {
    let parsed = Document::from_confluence("<p>a&nbsp;b&mdash;&lt;&#65;&#x42;&bogus;</p>");
    assert_eq!(
        parsed.blocks,
        vec![para(vec![
            text("a"),
            text("\u{a0}"),
            text("b"),
            text("\u{2014}"),
            text("<"),
            text("A"),
            text("B"),
            text("&bogus;"),
        ])]
    );
}

#[test]
fn confluence_task_list() {
    let xml = "<ac:task-list>\n<ac:task>\n<ac:task-status>complete</ac:task-status>\n<ac:task-body>done</ac:task-body>\n</ac:task>\n<ac:task>\n<ac:task-status>incomplete</ac:task-status>\n<ac:task-body>todo</ac:task-body>\n</ac:task>\n</ac:task-list>";
    assert_eq!(
        Document::from_confluence(xml).blocks,
        vec![Block::TaskList(vec![
            Task { checked: true, content: vec![text("done")] },
            Task { checked: false, content: vec![text("todo")] },
        ])]
    );
}

#[test]
fn confluence_table_sections_are_transparent() {
    let xml = "<table><thead><tr><th>A</th></tr></thead><tbody><tr><td>1</td></tr></tbody></table>";
    assert_eq!(
        Document::from_confluence(xml).blocks,
        vec![Block::Table(Table { align: vec![], head: vec![vec![text("A")]], rows: vec![vec![vec![text("1")]]] })]
    );
}

#[test]
fn confluence_page_link_by_id_reads_as_content() {
    let xml = "<p><ac:link><ri:page ri:content-id=\"42\"/><ac:link-body>x</ac:link-body></ac:link></p>";
    assert_eq!(
        Document::from_confluence(xml).blocks,
        vec![para(vec![Inline::Link { target: LinkTarget::Content("42".into()), title: None, content: vec![text("x")] }])]
    );
}

#[test]
fn confluence_page_link_with_space() {
    let xml = "<p><ac:link><ri:page ri:content-title=\"Home\" ri:space-key=\"SP\"/><ac:plain-text-link-body><![CDATA[go]]></ac:plain-text-link-body></ac:link></p>";
    assert_eq!(
        Document::from_confluence(xml).blocks,
        vec![para(vec![Inline::Link {
            target: LinkTarget::Page { space: Some("SP".into()), title: "Home".into() },
            title: None,
            content: vec![text("go")],
        }])]
    );
}

#[test]
fn confluence_unclosed_element_gives_empty_document() {
    assert_eq!(Document::from_confluence("<p>hello").blocks, vec![]);
}

#[test]
fn confluence_code_macro_with_language() {
    let xml = "<ac:structured-macro ac:name=\"code\"><ac:parameter ac:name=\"language\">rust</ac:parameter><ac:plain-text-body><![CDATA[fn x() {}]]></ac:plain-text-body></ac:structured-macro>";
    assert_eq!(
        Document::from_confluence(xml).blocks,
        vec![Block::CodeBlock { language: Some("rust".into()), code: "fn x() {}".into() }]
    );
}

#[test]
fn confluence_generic_macro_with_rich_body() {
    let xml = "<ac:structured-macro ac:name=\"panel\"><ac:parameter ac:name=\"title\">T</ac:parameter><ac:rich-text-body><p>b</p></ac:rich-text-body></ac:structured-macro>";
    assert_eq!(
        Document::from_confluence(xml).blocks,
        vec![Block::Macro(Macro {
            name: "panel".into(),
            params: vec![("title".into(), "T".into())],
            body: MacroBody::RichText(vec![para(vec![text("b")])]),
        })]
    );
}

#[test]
fn confluence_inline_macro_inside_paragraph() {
    let xml = "<p>S: <ac:structured-macro ac:name=\"status\"><ac:parameter ac:name=\"colour\">Green</ac:parameter></ac:structured-macro></p>";
    assert_eq!(
        Document::from_confluence(xml).blocks,
        vec![para(vec![
            text("S: "),
            Inline::Macro(Macro { name: "status".into(), params: vec![("colour".into(), "Green".into())], body: MacroBody::Empty }),
        ])]
    );
}

#[test]
fn confluence_strike_and_plain_spans() {
    let xml = "<p><span style=\"text-decoration: line-through;\">x</span><span>a<strong>b</strong></span></p>";
    assert_eq!(
        Document::from_confluence(xml).blocks,
        vec![para(vec![Inline::Strikethrough(vec![text("x")]), text("a"), Inline::Strong(vec![text("b")])])]
    );
}

#[test]
fn confluence_images() {
    let xml = "<p><ac:image ac:alt=\"logo\"><ri:url ri:value=\"https://e.test/x.png\"/></ac:image><ac:image><ri:attachment ri:filename=\"a.png\"/></ac:image></p>";
    assert_eq!(
        Document::from_confluence(xml).blocks,
        vec![para(vec![
            Inline::Image { source: ImageSource::External("https://e.test/x.png".into()), alt: "logo".into() },
            Inline::Image { source: ImageSource::Attachment("a.png".into()), alt: "".into() },
        ])]
    );
}

#[test]
fn confluence_loose_text_becomes_a_paragraph() {
    assert_eq!(
        Document::from_confluence("<blockquote>quoted <em>x</em></blockquote>").blocks,
        vec![Block::BlockQuote(vec![para(vec![text("quoted "), Inline::Emphasis(vec![text("x")])])])]
    );
}

#[test]
fn confluence_lists_and_breaks() {
    let xml = "<ol><li><p>a</p></li><li>b<br/>c</li></ol>\n<hr/>";
    assert_eq!(
        Document::from_confluence(xml).blocks,
        vec![
            Block::List {
                ordered: true,
                items: vec![vec![para(vec![text("a")])], vec![para(vec![text("b"), Inline::HardBreak, text("c")])]],
            },
            Block::ThematicBreak,
        ]
    );
}

#[test]
fn markdown_code_without_language() {
    assert_eq!(
        Document::from_markdown("```\nx\n```").blocks,
        vec![Block::CodeBlock { language: None, code: "x".into() }]
    );
    assert_eq!(Document::from_markdown("    y").blocks, vec![Block::CodeBlock { language: None, code: "y".into() }]);
}

#[test]
fn markdown_code_info_keeps_first_word() {
    assert_eq!(
        Document::from_markdown("```rust ignore\nx\n```").blocks,
        vec![Block::CodeBlock { language: Some("rust".into()), code: "x".into() }]
    );
}

#[test]
fn markdown_breaks_and_ordered_list() {
    assert_eq!(
        Document::from_markdown("1. a  \n   b\n2. c\n   d").blocks,
        vec![Block::List {
            ordered: true,
            items: vec![
                vec![para(vec![text("a"), Inline::HardBreak, text("b")])],
                vec![para(vec![text("c"), Inline::SoftBreak, text("d")])],
            ],
        }]
    );
}

#[test]
fn markdown_image_alt_takes_nested_text() {
    assert_eq!(
        Document::from_markdown("![a *b*](x.png)").blocks,
        vec![para(vec![Inline::Image { source: ImageSource::External("x.png".into()), alt: "a b".into() }])]
    );
}

#[test]
fn markdown_other_html_is_kept() {
    assert_eq!(
        Document::from_markdown("<div>x</div>").blocks,
        vec![Block::RawConfluence("<div>x</div>".into())]
    );
    assert_eq!(
        Document::from_markdown("a <b>x</b>").blocks,
        vec![para(vec![
            text("a "),
            Inline::RawConfluence("<b>".into()),
            text("x"),
            Inline::RawConfluence("</b>".into()),
        ])]
    );
}

#[test]
fn markdown_unmatched_close_marker_changes_nothing() {
    assert_eq!(Document::from_markdown("x\n\n<!--/cf:panel-->").blocks, vec![para(vec![text("x")])]);
}

#[test]
fn markdown_mixed_list_is_not_a_task_list() {
    assert_eq!(
        Document::from_markdown("- [ ] a\n- b").blocks,
        vec![Block::List { ordered: false, items: vec![vec![para(vec![text("a")])], vec![para(vec![text("b")])]] }]
    );
}

#[test]
fn markdown_invalid_percent_encoding_is_replaced() {
    assert_eq!(LinkTarget::from_url("confluence://content?id=%FF"), LinkTarget::Content("\u{fffd}".into()));
}
