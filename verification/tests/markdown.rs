use confmark::ast::{Alignment, Block, Document, ImageSource, Inline, LinkTarget, Macro, MacroBody, Table, Task};

fn doc(blocks: Vec<Block>) -> String {
    Document { blocks }.to_markdown()
}

fn text(s: &str) -> Inline {
    Inline::Text(s.to_string())
}

fn external(url: &str) -> LinkTarget {
    LinkTarget::External(url.to_string())
}

fn para(inlines: Vec<Inline>) -> Block {
    Block::Paragraph(inlines)
}

// renders_block

#[test]
fn renders_block_heading_1() {
    assert_eq!(doc(vec![Block::Heading { level: 1, content: vec![text("Heading 1")] }]), "# Heading 1");
}

#[test]
fn renders_block_heading_3() {
    assert_eq!(doc(vec![Block::Heading { level: 3, content: vec![text("H3")] }]), "### H3");
}

#[test]
fn renders_block_paragraph() {
    assert_eq!(doc(vec![para(vec![text("plain")])]), "plain");
}

#[test]
fn renders_block_thematic_break() {
    assert_eq!(doc(vec![Block::ThematicBreak]), "---");
}

#[test]
fn renders_block_code() {
    let b = Block::CodeBlock { language: Some("rust".into()), code: "fn main() {}".into() };
    assert_eq!(doc(vec![b]), "```rust\nfn main() {}\n```");
}

// renders_inline

fn inline_doc(inline: Inline) -> String {
    doc(vec![para(vec![inline])])
}

#[test]
fn renders_inline_strong() {
    assert_eq!(inline_doc(Inline::Strong(vec![text("b")])), "**b**");
}

#[test]
fn renders_inline_emphasis() {
    assert_eq!(inline_doc(Inline::Emphasis(vec![text("i")])), "*i*");
}

#[test]
fn renders_inline_code() {
    assert_eq!(inline_doc(Inline::Code("c".into())), "`c`");
}

#[test]
fn renders_inline_link() {
    let l = Inline::Link { target: external("https://x.test"), title: None, content: vec![text("L")] };
    assert_eq!(inline_doc(l), "[L](https://x.test)");
}

#[test]
fn renders_inline_link_with_title() {
    let l = Inline::Link { target: external("https://x.test"), title: Some("T".into()), content: vec![text("L")] };
    assert_eq!(inline_doc(l), "[L](https://x.test \"T\")");
}

#[test]
fn renders_inline_image() {
    let i = Inline::Image { source: ImageSource::External("i.png".into()), alt: "a".into() };
    assert_eq!(inline_doc(i), "![a](i.png)");
}

// link_target_uri_roundtrips

fn check_link_target(target: LinkTarget, url: &str) {
    let link = Inline::Link { target: target.clone(), title: None, content: vec![text("x")] };
    assert_eq!(doc(vec![para(vec![link])]), format!("[x]({url})"));
    assert_eq!(LinkTarget::from_url(url), target);
}

#[test]
fn link_target_uri_roundtrips_page() {
    check_link_target(LinkTarget::Page { space: Some("SP".into()), title: "Home".into() }, "confluence://page?space=SP&title=Home");
}

#[test]
fn link_target_uri_roundtrips_page_without_space() {
    check_link_target(LinkTarget::Page { space: None, title: "On Track".into() }, "confluence://page?title=On%20Track");
}

#[test]
fn link_target_uri_roundtrips_content() {
    check_link_target(LinkTarget::Content("12345".into()), "confluence://content?id=12345");
}

#[test]
fn link_target_uri_roundtrips_attachment() {
    check_link_target(LinkTarget::Attachment("a.pdf".into()), "confluence://attachment?file=a.pdf");
}

#[test]
fn link_target_uri_roundtrips_anchor() {
    check_link_target(LinkTarget::Anchor("intro".into()), "confluence://anchor?name=intro");
}

#[test]
fn parses_heading_and_paragraph() {
    let parsed = Document::from_markdown("# Title\n\nA paragraph.");
    assert_eq!(
        parsed.blocks,
        vec![
            Block::Heading { level: 1, content: vec![text("Title")] },
            para(vec![text("A paragraph.")]),
        ]
    );
}

#[test]
fn parses_fenced_code_with_language() {
    let parsed = Document::from_markdown("```rust\nfn main() {}\n```");
    assert_eq!(parsed.blocks, vec![Block::CodeBlock { language: Some("rust".into()), code: "fn main() {}".into() }]);
}

#[test]
fn parses_internal_page_link() {
    let parsed = Document::from_markdown("[Home](confluence://page?space=SP&title=Home)");
    assert_eq!(
        parsed.blocks,
        vec![para(vec![Inline::Link {
            target: LinkTarget::Page { space: Some("SP".into()), title: "Home".into() },
            title: None,
            content: vec![text("Home")],
        }])]
    );
}

#[test]
fn parses_nested_tight_list() {
    let parsed = Document::from_markdown("- one\n- two\n  - nested");
    let nested = Block::List { ordered: false, items: vec![vec![para(vec![text("nested")])]] };
    assert_eq!(
        parsed.blocks,
        vec![Block::List {
            ordered: false,
            items: vec![vec![para(vec![text("one")])], vec![para(vec![text("two")]), nested]],
        }]
    );
}

#[test]
fn renders_inline_status_marker() {
    let m = Macro {
        name: "status".into(),
        params: vec![("colour".into(), "Green".into()), ("title".into(), "On track".into())],
        body: MacroBody::Empty,
    };
    let p = para(vec![text("Status: "), Inline::Macro(m)]);
    assert_eq!(doc(vec![p]), "Status: <!--cf:status colour=\"Green\" title=\"On track\"-->");
}

#[test]
fn renders_block_toc_marker() {
    let m = Macro { name: "toc".into(), params: vec![("maxLevel".into(), "3".into())], body: MacroBody::Empty };
    assert_eq!(doc(vec![Block::Macro(m)]), "<!--cf:toc maxLevel=\"3\"-->");
}

#[test]
fn renders_expand_details() {
    let m = Macro {
        name: "expand".into(),
        params: vec![("title".into(), "More".into())],
        body: MacroBody::RichText(vec![para(vec![text("hidden content")])]),
    };
    assert_eq!(doc(vec![Block::Macro(m)]), "<details><summary>More</summary>\n\nhidden content\n\n</details>");
}

#[test]
fn parses_inline_status_marker() {
    let parsed = Document::from_markdown("Status: <!--cf:status colour=\"Green\"-->");
    assert_eq!(
        parsed.blocks,
        vec![para(vec![
            text("Status: "),
            Inline::Macro(Macro {
                name: "status".into(),
                params: vec![("colour".into(), "Green".into())],
                body: MacroBody::Empty,
            }),
        ])]
    );
}

#[test]
fn parses_block_toc_marker() {
    let parsed = Document::from_markdown("<!--cf:toc maxLevel=\"3\"-->");
    assert_eq!(
        parsed.blocks,
        vec![Block::Macro(Macro { name: "toc".into(), params: vec![("maxLevel".into(), "3".into())], body: MacroBody::Empty })]
    );
}

#[test]
fn parses_expand_details() {
    let parsed = Document::from_markdown("<details><summary>More</summary>\n\nhidden content\n\n</details>");
    assert_eq!(
        parsed.blocks,
        vec![Block::Macro(Macro {
            name: "expand".into(),
            params: vec![("title".into(), "More".into())],
            body: MacroBody::RichText(vec![para(vec![text("hidden content")])]),
        })]
    );
}

#[test]
fn marker_value_escaping_roundtrips() {
    let m = Macro { name: "status".into(), params: vec![("title".into(), "a \"b\" --> c".into())], body: MacroBody::Empty };
    let parsed = Document::from_markdown(&doc(vec![Block::Macro(m.clone())]));
    assert_eq!(parsed.blocks, vec![Block::Macro(m)]);
}

#[test]
fn renders_paired_marker() {
    let m = Macro {
        name: "panel".into(),
        params: vec![("title".into(), "Notes".into())],
        body: MacroBody::RichText(vec![para(vec![text("body")])]),
    };
    assert_eq!(doc(vec![Block::Macro(m)]), "<!--cf:panel title=\"Notes\"-->\n\nbody\n\n<!--/cf:panel-->");
}

#[test]
fn titled_admonition_uses_paired_marker() {
    let m = Macro {
        name: "note".into(),
        params: vec![("title".into(), "Heads up".into())],
        body: MacroBody::RichText(vec![para(vec![text("read this")])]),
    };
    assert_eq!(doc(vec![Block::Macro(m)]), "<!--cf:note title=\"Heads up\"-->\n\nread this\n\n<!--/cf:note-->");
}

#[test]
fn parses_paired_marker_body() {
    let parsed = Document::from_markdown("<!--cf:panel title=\"Notes\"-->\n\nbody\n\n<!--/cf:panel-->");
    assert_eq!(
        parsed.blocks,
        vec![Block::Macro(Macro {
            name: "panel".into(),
            params: vec![("title".into(), "Notes".into())],
            body: MacroBody::RichText(vec![para(vec![text("body")])]),
        })]
    );
}

#[test]
fn preserves_raw_confluence_block() {
    let raw = Block::RawConfluence("<ac:placeholder>x</ac:placeholder>".into());
    let md = doc(vec![raw.clone()]);
    assert_eq!(md, "<!--cf-raw:<ac:placeholder>x</ac:placeholder>-->");
    assert_eq!(Document::from_markdown(&md).blocks, vec![raw]);
}

#[test]
fn parses_admonition_alert() {
    let parsed = Document::from_markdown("> [!WARNING]\n> careful");
    assert_eq!(
        parsed.blocks,
        vec![Block::Macro(Macro {
            name: "warning".into(),
            params: vec![],
            body: MacroBody::RichText(vec![para(vec![text("careful")])]),
        })]
    );
}

#[test]
fn plain_blockquote_is_not_an_alert() {
    let parsed = Document::from_markdown("> just a quote");
    assert_eq!(parsed.blocks, vec![Block::BlockQuote(vec![para(vec![text("just a quote")])])]);
}

#[test]
fn parses_task_list() {
    let parsed = Document::from_markdown("- [ ] todo\n- [x] done");
    assert_eq!(
        parsed.blocks,
        vec![Block::TaskList(vec![
            Task { checked: false, content: vec![text("todo")] },
            Task { checked: true, content: vec![text("done")] },
        ])]
    );
}

#[test]
fn renders_strikethrough() {
    assert_eq!(doc(vec![para(vec![Inline::Strikethrough(vec![text("gone")])])]), "~~gone~~");
}

#[test]
fn parses_strikethrough() {
    let parsed = Document::from_markdown("~~gone~~");
    assert_eq!(parsed.blocks, vec![para(vec![Inline::Strikethrough(vec![text("gone")])])]);
}

#[test]
fn autolink_normalizes_to_inline_link() {
    let parsed = Document::from_markdown("<https://example.com>");
    assert_eq!(parsed.to_markdown(), "[https://example.com](https://example.com)");
}

#[test]
fn parses_table_with_alignment() {
    let parsed = Document::from_markdown("| A | B |\n| :-- | --: |\n| 1 | 2 |");
    assert_eq!(
        parsed.blocks,
        vec![Block::Table(Table {
            align: vec![Alignment::Left, Alignment::Right],
            head: vec![vec![text("A")], vec![text("B")]],
            rows: vec![vec![vec![text("1")], vec![text("2")]]],
        })]
    );
}

#[test]
fn renders_table_alignment_delimiters() {
    let table = Block::Table(Table {
        align: vec![Alignment::Left, Alignment::Center, Alignment::Right, Alignment::Unaligned],
        head: vec![vec![text("a")], vec![text("b")], vec![text("c")], vec![text("d")]],
        rows: vec![],
    });
    assert_eq!(doc(vec![table]), "| a | b | c | d |\n| :-- | :-: | --: | --- |");
}

fn check_markdown_roundtrip(md: &str) {
    assert_eq!(Document::from_markdown(md).to_markdown(), md);
}

#[test]
fn markdown_roundtrips_headings() {
    check_markdown_roundtrip("# Heading 1\n\n## Heading 2");
}

#[test]
fn markdown_roundtrips_nested_list() {
    check_markdown_roundtrip("- one\n- two\n  - nested");
}

#[test]
fn markdown_roundtrips_blockquote() {
    check_markdown_roundtrip("> quoted text");
}

#[test]
fn markdown_roundtrips_code() {
    check_markdown_roundtrip("```rust\nfn main() {}\n```");
}

#[test]
fn markdown_roundtrips_external_link() {
    check_markdown_roundtrip("[Atlassian](https://www.atlassian.com)");
}

#[test]
fn markdown_roundtrips_page_link() {
    check_markdown_roundtrip("[Home](confluence://page?space=SP&title=Home)");
}

#[test]
fn markdown_roundtrips_attachment_link() {
    check_markdown_roundtrip("[doc](confluence://attachment?file=a.pdf)");
}

#[test]
fn escapes_inline_markdown_chars() {
    let md = doc(vec![para(vec![text("a*b_c~d`e[f]g<h")])]);
    assert_eq!(md, r"a\*b\_c\~d\`e\[f\]g\<h");
    assert_eq!(Document::from_markdown(&md).to_markdown(), md);
}

#[test]
fn library_example_round_trips() {
    assert_eq!(Document::from_markdown("# Title").to_confluence(), "<h1>Title</h1>");
    assert_eq!(Document::from_confluence("<h1>Title</h1>").to_markdown(), "# Title");
}
