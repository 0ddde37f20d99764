use confmark::ast::{Alignment, Block, Document, ImageSource, Inline, LinkTarget, Macro, MacroBody, Table};
use confmark::confluence::diagram::DiagramMacro;
use confmark::confluence::builder::{Builder, Frame};

fn text(s: &str) -> Inline {
    Inline::Text(s.to_string())
}

fn link_url_of(target: LinkTarget) -> String {
    let md = Document { blocks: vec![Block::Paragraph(vec![Inline::Link { target, title: None, content: vec![text("x")] }])] }
        .to_markdown();
    md["[x](".len()..md.len() - 1].to_string()
}

#[test]
fn link_url_round_trips_with_reserved_characters() {
    let target = LinkTarget::Page { space: Some("S P".into()), title: "a&b=c?d é".into() };
    let url = link_url_of(target.clone());
    assert_eq!(url, "confluence://page?space=S%20P&title=a%26b%3Dc%3Fd%20%C3%A9");
    assert_eq!(LinkTarget::from_url(&url), target);
}

#[test]
fn external_link_url_reads_back_as_external() {
    let target = LinkTarget::External("https://example.com/a?b=c".into());
    assert_eq!(LinkTarget::from_url(&link_url_of(target.clone())), target);
}

#[test]
fn image_url_round_trips() {
    assert_eq!(
        ImageSource::from_url("confluence://attachment?file=a%20b.png"),
        ImageSource::Attachment("a b.png".into())
    );
    assert_eq!(ImageSource::from_url("https://e.test/x.png"), ImageSource::External("https://e.test/x.png".into()));
    assert_eq!(
        ImageSource::from_url("confluence://page?title=T"),
        ImageSource::External("confluence://page?title=T".into())
    );
}

#[test]
fn diagram_registry_round_trips() {
    for d in [DiagramMacro::Mermaid, DiagramMacro::PlantUml] {
        assert_eq!(DiagramMacro::for_language(d.language()), Some(d));
        assert_eq!(DiagramMacro::for_macro_name(d.name()), Some(d));
    }
    assert_eq!(DiagramMacro::for_language("rust"), None);
}

fn admonition(name: &str) -> Block {
    Block::Macro(Macro {
        name: name.into(),
        params: vec![],
        body: MacroBody::RichText(vec![Block::Paragraph(vec![text("careful")])]),
    })
}

#[test]
fn admonitions_round_trip_through_alerts() {
    for (name, token) in [("note", "NOTE"), ("tip", "TIP"), ("warning", "WARNING"), ("info", "IMPORTANT")] {
        let md = Document { blocks: vec![admonition(name)] }.to_markdown();
        assert_eq!(md, format!("> [!{token}]\n> careful"));
        assert_eq!(Document::from_markdown(&md).blocks, vec![admonition(name)]);
    }
}

#[test]
fn caution_alert_reads_as_warning() {
    assert_eq!(Document::from_markdown("> [!CAUTION]\n> careful").blocks, vec![admonition("warning")]);
}

fn table(align: Vec<Alignment>) -> Block {
    Block::Table(Table { align, head: vec![vec![text("A")], vec![text("B")]], rows: vec![vec![vec![text("1")], vec![text("2")]]] })
}

#[test]
fn table_alignment_is_dropped_toward_confluence() {
    let aligned = Document { blocks: vec![table(vec![Alignment::Left, Alignment::Right])] }.to_confluence();
    let plain = Document { blocks: vec![table(vec![])] }.to_confluence();
    assert_eq!(aligned, plain);
}

#[test]
fn raw_markup_with_line_breaks_and_arrows_round_trips() {
    let raw = Block::RawConfluence("<ac:x>\na --> b\n</ac:x>".into());
    let md = Document { blocks: vec![raw.clone()] }.to_markdown();
    assert_eq!(md, "<!--cf-raw:<ac:x>&#10;a --&gt; b&#10;</ac:x>-->");
    assert_eq!(Document::from_markdown(&md).blocks, vec![raw]);
}

#[test]
fn raw_markup_holding_an_escape_reads_back_unescaped() {
    let md = Document { blocks: vec![Block::RawConfluence("a&#10;b".into())] }.to_markdown();
    assert_eq!(Document::from_markdown(&md).blocks, vec![Block::RawConfluence("a\nb".into())]);
}

#[test]
fn marker_with_several_parameters_round_trips() {
    let m = Block::Macro(Macro {
        name: "toc".into(),
        params: vec![("maxLevel".into(), "3".into()), ("style".into(), "say \"hi\" -->".into())],
        body: MacroBody::Empty,
    });
    let md = Document { blocks: vec![m.clone()] }.to_markdown();
    assert_eq!(md, "<!--cf:toc maxLevel=\"3\" style=\"say &quot;hi&quot; --&gt;\"-->");
    assert_eq!(Document::from_markdown(&md).blocks, vec![m]);
}

#[test]
fn traversal_visits_blocks_and_inlines_in_document_order() {
    let doc = Document::from_markdown("# T\n\n> a *b*\n\n- [x](https://e.test)");
    let kinds: Vec<&str> = doc
        .blocks()
        .iter()
        .map(|b| match b {
            Block::Heading { .. } => "heading",
            Block::BlockQuote(_) => "quote",
            Block::Paragraph(_) => "paragraph",
            Block::List { .. } => "list",
            _ => "other",
        })
        .collect();
    assert_eq!(kinds, vec!["heading", "quote", "paragraph", "list", "paragraph"]);
    let links: Vec<&Inline> = doc.inlines().into_iter().filter(|i| matches!(i, Inline::Link { .. })).collect();
    assert_eq!(links.len(), 1);
    assert_eq!(doc.inlines().len(), 6);
}

#[test]
fn blocks_lists_heading_levels() {
    let doc = Document::from_markdown("# Title\n\n## Section\n\ntext");
    let levels: Vec<u8> = doc
        .blocks()
        .into_iter()
        .filter_map(|block| match block {
            Block::Heading { level, .. } => Some(*level),
            _ => None,
        })
        .collect();
    assert_eq!(levels, [1, 2]);
}

#[test]
fn inlines_lists_link_urls() {
    let doc = Document::from_markdown("see [a](https://a.test) and [b](https://b.test)");
    let urls: Vec<&str> = doc
        .inlines()
        .into_iter()
        .filter_map(|inline| match inline {
            Inline::Link { target: LinkTarget::External(url), .. } => Some(url.as_str()),
            _ => None,
        })
        .collect();
    assert_eq!(urls, ["https://a.test", "https://b.test"]);
}

#[test]
fn documents_with_equal_content_render_alike() {
    let doc = Document {
        blocks: vec![
            Block::Heading { level: 2, content: vec![text("Title")] },
            Block::Paragraph(vec![text("a "), Inline::Strong(vec![text("b")])]),
        ],
    };
    let copy = doc.clone();
    assert_eq!(copy, doc);
    assert_eq!(copy.to_markdown(), doc.to_markdown());
    assert_eq!(copy.to_confluence(), doc.to_confluence());
    assert_eq!(doc.to_markdown(), "## Title\n\na **b**");
}

#[test]
fn image_alt_text_joins_every_text_descendant() {
    let parsed = Document::from_markdown("![*a* b](i.png)");
    assert_eq!(
        parsed.blocks,
        vec![Block::Paragraph(vec![Inline::Image {
            source: ImageSource::External("i.png".into()),
            alt: "a b".into(),
        }])]
    );
}

#[test]
fn self_closing_macro_is_kept() {
    let parsed = Document::from_confluence("<ac:structured-macro ac:name=\"toc\"/>");
    assert_eq!(
        parsed.blocks,
        vec![Block::Macro(Macro { name: "toc".into(), params: vec![], body: MacroBody::Empty })]
    );
}

#[test]
fn self_closing_paragraph_reads_as_an_empty_paragraph() {
    let parsed = Document::from_confluence("<p/><p>x</p>");
    assert_eq!(parsed.blocks, vec![Block::Paragraph(vec![]), Block::Paragraph(vec![text("x")])]);
}

#[test]
fn link_title_is_written_for_external_links_only() {
    let link = |target: LinkTarget, title: Option<String>| {
        Document { blocks: vec![Block::Paragraph(vec![Inline::Link { target, title, content: vec![text("x")] }])] }
            .to_confluence()
    };
    let page = LinkTarget::Page { space: None, title: "P".into() };
    assert_eq!(link(page.clone(), Some("t".into())), link(page, None));
    assert_eq!(
        link(LinkTarget::External("u".into()), Some("t".into())),
        "<p><a href=\"u\" title=\"t\">x</a></p>"
    );
}

#[test]
fn confluence_output_is_the_join_of_single_blocks() {
    let blocks = vec![
        Block::Paragraph(vec![text("a")]),
        Block::ThematicBreak,
        Block::RawConfluence("<ac:x/>".into()),
    ];
    let singles: Vec<String> =
        blocks.iter().map(|b| Document { blocks: vec![b.clone()] }.to_confluence()).collect();
    assert_eq!(Document { blocks }.to_confluence(), singles.join("\n"));
    assert_eq!(Document { blocks: vec![Block::RawConfluence("<ac:x/>".into())] }.to_confluence(), "<ac:x/>");
}

#[test]
fn raw_marker_is_one_line_closed_once() {
    let md = Document { blocks: vec![Block::RawConfluence("a\n-->b-".into())] }.to_markdown();
    assert!(!md.contains('\n'));
    assert_eq!(md.find("-->"), Some(md.len() - 3));
}

#[test]
fn end_tag_pops_one_frame_and_keeps_the_document_frame() {
    let mut b = Builder::new();
    b.push_frame(Frame::Para(vec![]));
    b.push_frame(Frame::Strong(vec![]));
    b.end();
    assert_eq!(b.stack.len(), 2);
    assert!(matches!(b.stack[0], Frame::Doc(_)));
    b.end();
    assert_eq!(b.stack.len(), 1);
    assert!(matches!(b.stack[0], Frame::Doc(_)));
}
