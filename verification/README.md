# confmark

Bidirectional converter between **Markdown** (CommonMark + GFM) and
**Confluence Storage Format** (XHTML), as a Rust library verified with Verus,
and a small command-line front end.

Both directions go through one shared document tree (`ast::Document`):

```rust
use confmark::Document;

let xml = Document::from_markdown("# Title").to_confluence();
assert_eq!(xml, "<h1>Title</h1>");

let md = Document::from_confluence("<h1>Title</h1>").to_markdown();
assert_eq!(md, "# Title");
```

## Layout

- `src/ast.rs` — the document tree, its views (`BlockV`, `InlineV`, …) and the
  depth-first traversals `Document::blocks` / `Document::inlines`.
- `src/text.rs` — the string operations both formats use (search, trimming,
  splitting, replacement), specified over `Seq<char>`.
- `src/uri.rs` — percent-encoding of `confluence://` URI components, and the
  proof that decoding undoes encoding.
- `src/markdown/` — rendering to Markdown (`render.rs`); reading Markdown:
  `comrak` parses the source (`tree.rs`), and the syntax tree is walked into
  the document (`walk.rs`, with markers and URIs read in `parse.rs`).
- `src/confluence/` — rendering to storage format (`render.rs`); reading it:
  `quick_xml` supplies the events (`xml.rs`), which a frame machine
  (`builder.rs`) folds into the document (`parse.rs`). The diagram-macro
  registry is in `diagram.rs`.
- `src/format.rs` — the two formats and `convert`.
- `app/main.rs` — the command line: `confmark --from md --to cf [INPUT] [-o OUTPUT]`,
  reading standard input and writing standard output by default (`-` names
  them explicitly).

Every function in `src/` carries its contract. The calls into `comrak`,
`quick_xml` and `percent-encoding` stand behind small trusted wrappers whose
contracts name or state what those crates return; everything around them is
proved.

## Round trips that are proved

- a Confluence resource link or attachment image survives its
  `confluence://` URI;
- preserved markup survives its `<!--cf-raw:…-->` marker, and a body-less
  macro its `<!--cf:NAME k="v"…-->` marker (outside the inputs that already
  hold the escape sequences);
- admonitions and GFM alerts correspond one to one;
- the diagram-macro registry maps each entry's language and macro name back
  to it;
- table alignment does not reach storage format.

## Other properties that are proved

- rendering reads a document's content only, and storage format is the
  line-joined rendering of the single blocks, preserved markup written back
  unchanged;
- a link title is written only for external links;
- a preserved-markup marker is one line whose only `-->` closes it;
- an end tag takes exactly one frame off the builder's stack and leaves the
  frames below the receiving one unchanged;
- the inline frames are exactly those that collect inlines directly.
