use confmark::format::{convert, ConvertError, Format};

#[test]
fn test_identical_formats_rejected() {
    let r = convert(Format::Markdown, Format::Markdown, "# Hi");
    assert_eq!(r, Err(ConvertError::SameFormat));
    assert!(r.unwrap_err().message().contains("must differ"));
}

#[test]
fn test_converts_markdown_to_confluence_from_stdin() {
    assert_eq!(convert(Format::Markdown, Format::Confluence, "# Hi"), Ok("<h1>Hi</h1>".to_string()));
}

#[test]
fn test_short_flags_parse() {
    assert_eq!(convert(Format::Markdown, Format::Confluence, "# Hi").unwrap(), "<h1>Hi</h1>");
}

#[test]
fn test_converts_confluence_to_markdown_from_stdin() {
    assert_eq!(convert(Format::Confluence, Format::Markdown, "<h1>Hi</h1>"), Ok("# Hi".to_string()));
}

#[test]
fn identical_confluence_formats_rejected() {
    assert_eq!(convert(Format::Confluence, Format::Confluence, "<p>x</p>"), Err(ConvertError::SameFormat));
}
