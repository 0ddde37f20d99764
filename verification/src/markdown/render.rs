//! Renderer: document tree -> Markdown (CommonMark + GFM).
use vstd::prelude::*;

use crate::ast::{
    block_v, blocks_v, cells_v, image_source_v, inline_v, inlines_v, items_v, lemma_items_v_index,
    lemma_param_value_view, lemma_push_injective, lemma_tasks_v_index, lemma_views_len,
    link_target_v, macro_v, param_value, params_v, rows_v, task_v, tasks_v, Alignment, Block,
    Document, ImageSource, Inline, LinkTarget, Macro, MacroBody, Table, Task,
};
use crate::text::{
    chars_of, decimal, join, lemma_join_push, lines, push_chars, push_decimal, push_repeat,
    push_str, repeat, replace, replace_str, split_lines, string_of, str_eq,
};
use crate::uri::{encode_uri, encode_uri_component};

verus! {

// ---------------------------------------------------------------------------
// String transforms
// ---------------------------------------------------------------------------

/// Characters escaped with a backslash in text: `\` `` ` `` `*` `_` `[` `]`
/// `~` `<` (emphasis, code, links, strikethrough, autolinks and raw HTML).
pub open spec fn md_special(c: char) -> bool {
    c == '\\' || c == '`' || c == '*' || c == '_' || c == '[' || c == ']' || c == '~' || c == '<'
}

/// Backslash-escapes the inline-significant characters so literal text
/// round-trips. Line-start-only markers (`#`, `>`, bullets) are left alone.
pub open spec fn escape_markdown(s: Seq<char>) -> Seq<char>
    decreases s.len(),
{
    if s.len() == 0 {
        seq![]
    } else {
        escape_markdown(s.drop_last()) + if md_special(s.last()) {
            seq!['\\', s.last()]
        } else {
            seq![s.last()]
        }
    }
}

/// Each line prefixed with `indent`, except empty lines and, unless
/// `indent_first`, the first one (a list item's first line carries its
/// marker instead).
pub open spec fn indent_each(ls: Seq<Seq<char>>, indent: Seq<char>, indent_first: bool) -> Seq<
    Seq<char>,
> {
    Seq::new(
        ls.len(),
        |i: int|
            if ls[i].len() == 0 || (i == 0 && !indent_first) {
                ls[i]
            } else {
                indent + ls[i]
            },
    )
}

pub open spec fn indent(s: Seq<char>, indent: Seq<char>, indent_first: bool) -> Seq<char> {
    join(indent_each(lines(s), indent, indent_first), "\n"@)
}

/// A line of a block quote or alert: `>` alone for an empty line.
pub open spec fn quote_line(l: Seq<char>) -> Seq<char> {
    if l.len() == 0 {
        ">"@
    } else {
        "> "@ + l
    }
}

pub open spec fn quote(s: Seq<char>) -> Seq<char> {
    join(lines(s).map_values(|l: Seq<char>| quote_line(l)), "\n"@)
}

/// `<!--cf-raw:…-->` for preserved Confluence markup: `-->` and newlines are
/// escaped to keep a single comment.
pub open spec fn raw_marker(markup: Seq<char>) -> Seq<char> {
    "<!--cf-raw:"@ + replace(replace(markup, "-->"@, "--&gt;"@), "\n"@, "&#10;"@) + "-->"@
}

/// A marker parameter value: `"` and `-->` escaped.
pub open spec fn marker_value(v: Seq<char>) -> Seq<char> {
    replace(replace(v, "\""@, "&quot;"@), "-->"@, "--&gt;"@)
}

// ---------------------------------------------------------------------------
// Specification of the rendering
// ---------------------------------------------------------------------------

/// Blocks join with blank lines.
pub open spec fn md_blocks(s: Seq<Block>) -> Seq<char>
    decreases s, 2nat,
{
    if s.len() == 0 {
        seq![]
    } else if s.len() == 1 {
        md_block(s[0])
    } else {
        md_blocks(s.drop_last()) + "\n\n"@ + md_block(s.last())
    }
}

/// Inlines concatenate.
pub open spec fn md_inlines(s: Seq<Inline>) -> Seq<char>
    decreases s, 2nat,
{
    if s.len() == 0 {
        seq![]
    } else {
        md_inlines(s.drop_last()) + md_inline(s.last())
    }
}

/// The bullet or number of the `i`-th list item.
pub open spec fn list_marker(ordered: bool, i: int) -> Seq<char> {
    if ordered {
        decimal((i + 1) as nat) + ". "@
    } else {
        "- "@
    }
}

/// The blocks of one list item: the first after the marker, the others on
/// their own lines, all indented under the marker.
pub open spec fn md_item(marker: Seq<char>, s: Seq<Block>) -> Seq<char>
    decreases s, 2nat,
{
    let pad = repeat(' ', marker.len());
    if s.len() == 0 {
        seq![]
    } else if s.len() == 1 {
        marker + indent(md_block(s[0]), pad, false)
    } else {
        md_item(marker, s.drop_last()) + "\n"@ + indent(md_block(s.last()), pad, true)
    }
}

pub open spec fn md_items(ordered: bool, s: Seq<Vec<Block>>) -> Seq<char>
    decreases s, 2nat,
{
    if s.len() == 0 {
        seq![]
    } else if s.len() == 1 {
        md_item(list_marker(ordered, 0), s[0]@)
    } else {
        md_items(ordered, s.drop_last()) + "\n"@ + md_item(
            list_marker(ordered, s.len() - 1),
            s.last()@,
        )
    }
}

pub open spec fn md_task(t: Task) -> Seq<char>
    decreases t, 2nat,
{
    "- ["@ + (if t.checked {
        "x"@
    } else {
        " "@
    }) + "] "@ + md_inlines(t.content@)
}

/// Tasks, one per line.
pub open spec fn md_tasks(s: Seq<Task>) -> Seq<char>
    decreases s, 2nat,
{
    if s.len() == 0 {
        seq![]
    } else if s.len() == 1 {
        md_task(s[0])
    } else {
        md_tasks(s.drop_last()) + "\n"@ + md_task(s.last())
    }
}

/// The cells of a row, `|` in cell content escaped.
pub open spec fn md_cells(s: Seq<Vec<Inline>>) -> Seq<char>
    decreases s, 2nat,
{
    if s.len() == 0 {
        seq![]
    } else if s.len() == 1 {
        replace(md_inlines(s[0]@), "|"@, "\\|"@)
    } else {
        md_cells(s.drop_last()) + " | "@ + replace(md_inlines(s.last()@), "|"@, "\\|"@)
    }
}

pub open spec fn md_row(cells: Seq<Vec<Inline>>) -> Seq<char>
    decreases cells, 3nat,
{
    "| "@ + md_cells(cells) + " |"@
}

pub open spec fn md_rows(s: Seq<Vec<Vec<Inline>>>) -> Seq<char>
    decreases s, 2nat,
{
    if s.len() == 0 {
        seq![]
    } else {
        md_rows(s.drop_last()) + "\n"@ + md_row(s.last()@)
    }
}

pub open spec fn align_token(a: Alignment) -> Seq<char> {
    match a {
        Alignment::Unaligned => "---"@,
        Alignment::Left => ":--"@,
        Alignment::Center => ":-:"@,
        Alignment::Right => "--:"@,
    }
}

/// The alignment of column `i`; a missing entry is unaligned.
pub open spec fn column_align(align: Seq<Alignment>, i: int) -> Alignment {
    if 0 <= i < align.len() {
        align[i]
    } else {
        Alignment::Unaligned
    }
}

/// The delimiter row: one alignment token per header cell.
pub open spec fn md_delim(t: Table) -> Seq<char> {
    "| "@ + join(
        Seq::new(t.head@.len(), |i: int| align_token(column_align(t.align@, i))),
        " | "@,
    ) + " |"@
}

pub open spec fn md_table(t: Table) -> Seq<char>
    decreases t, 4nat,
{
    md_row(t.head@) + "\n"@ + md_delim(t) + md_rows(t.rows@)
}

/// The GFM alert token of an admonition macro, if it is one.
pub open spec fn alert_token(name: Seq<char>) -> Option<Seq<char>> {
    if name == "note"@ {
        Some("NOTE"@)
    } else if name == "tip"@ {
        Some("TIP"@)
    } else if name == "warning"@ {
        Some("WARNING"@)
    } else if name == "info"@ {
        Some("IMPORTANT"@)
    } else {
        None
    }
}

/// The body of a macro as Markdown.
pub open spec fn md_body(m: Macro) -> Seq<char>
    decreases m, 1nat,
{
    match m.body {
        MacroBody::RichText(blocks) => md_blocks(blocks@),
        MacroBody::PlainText(text) => text@,
        MacroBody::Empty => seq![],
    }
}

/// `" k=\"v\""` for each parameter.
pub open spec fn marker_params(s: Seq<(String, String)>) -> Seq<char>
    decreases s.len(),
{
    if s.len() == 0 {
        seq![]
    } else {
        marker_params(s.drop_last()) + " "@ + s.last().0@ + "=\""@ + marker_value(s.last().1@)
            + "\""@
    }
}

/// `<!--cf:NAME k="v" …-->`.
pub open spec fn macro_marker(m: Macro) -> Seq<char> {
    "<!--cf:"@ + m.name@ + marker_params(m.params@) + "-->"@
}

/// A GFM alert: the token line, then each body line quoted.
pub open spec fn alert_lines(ls: Seq<Seq<char>>) -> Seq<char>
    decreases ls.len(),
{
    if ls.len() == 0 {
        seq![]
    } else {
        alert_lines(ls.drop_last()) + "\n"@ + quote_line(ls.last())
    }
}

pub open spec fn md_macro(m: Macro) -> Seq<char>
    decreases m, 2nat,
{
    let untitled = param_value(m.params@, "title"@) is None;
    if alert_token(m.name@) is Some && untitled {
        "> [!"@ + alert_token(m.name@)->0 + "]"@ + alert_lines(lines(md_body(m)))
    } else if m.name@ == "expand"@ {
        "<details><summary>"@ + (match param_value(m.params@, "title"@) {
            Some(t) => t,
            None => seq![],
        }) + "</summary>\n\n"@ + md_body(m) + "\n\n</details>"@
    } else if m.body is Empty {
        macro_marker(m)
    } else {
        macro_marker(m) + "\n\n"@ + md_body(m) + "\n\n<!--/cf:"@ + m.name@ + "-->"@
    }
}

pub open spec fn md_block(b: Block) -> Seq<char>
    decreases b, 5nat,
{
    match b {
        Block::Heading { level, content } => repeat('#', level as nat) + " "@ + md_inlines(
            content@,
        ),
        Block::Paragraph(content) => md_inlines(content@),
        Block::CodeBlock { language, code } => "```"@ + (match language {
            Some(l) => l@,
            None => seq![],
        }) + "\n"@ + code@ + "\n```"@,
        Block::BlockQuote(blocks) => quote(md_blocks(blocks@)),
        Block::List { ordered, items } => md_items(ordered, items@),
        Block::ThematicBreak => "---"@,
        Block::Table(t) => md_table(t),
        Block::TaskList(tasks) => md_tasks(tasks@),
        Block::Macro(m) => md_macro(m),
        Block::RawConfluence(s) => raw_marker(s@),
    }
}

/// The Markdown destination of a link target: the URL itself, or a
/// `confluence://` URI with percent-encoded query values.
pub open spec fn link_url(t: LinkTarget) -> Seq<char> {
    match t {
        LinkTarget::External(url) => url@,
        LinkTarget::Page { space, title } => "confluence://page?"@ + (match space {
            Some(s) => "space="@ + encode_uri(s@) + "&"@,
            None => seq![],
        }) + "title="@ + encode_uri(title@),
        LinkTarget::Content(id) => "confluence://content?id="@ + encode_uri(id@),
        LinkTarget::Attachment(file) => "confluence://attachment?file="@ + encode_uri(file@),
        LinkTarget::Anchor(name) => "confluence://anchor?name="@ + encode_uri(name@),
    }
}

pub open spec fn image_url(s: ImageSource) -> Seq<char> {
    match s {
        ImageSource::External(url) => url@,
        ImageSource::Attachment(file) => "confluence://attachment?file="@ + encode_uri(file@),
    }
}

pub open spec fn md_inline(i: Inline) -> Seq<char>
    decreases i, 5nat,
{
    match i {
        Inline::Text(t) => escape_markdown(t@),
        Inline::Strong(c) => "**"@ + md_inlines(c@) + "**"@,
        Inline::Emphasis(c) => "*"@ + md_inlines(c@) + "*"@,
        Inline::Strikethrough(c) => "~~"@ + md_inlines(c@) + "~~"@,
        Inline::Code(c) => "`"@ + c@ + "`"@,
        Inline::Link { target, title, content } => "["@ + md_inlines(content@) + "]("@
            + link_url(target) + match title {
            Some(t) => " \""@ + t@ + "\")"@,
            None => ")"@,
        },
        Inline::Image { source, alt } => "!["@ + alt@ + "]("@ + image_url(source) + ")"@,
        Inline::SoftBreak => "\n"@,
        Inline::HardBreak => "  \n"@,
        Inline::Macro(m) => md_macro(m),
        Inline::RawConfluence(s) => raw_marker(s@),
    }
}


// ---------------------------------------------------------------------------
// Rendering
// ---------------------------------------------------------------------------

impl Document {
    /// The Markdown of the document.
    pub open spec fn spec_to_markdown(self) -> Seq<char> {
        md_blocks(self.blocks@)
    }

    /// Renders the document to Markdown (CommonMark + GFM).
    pub fn to_markdown(&self) -> (r: String)
        ensures
            r@ == self.spec_to_markdown(),
    {
        let mut out: Vec<char> = Vec::new();
        render_blocks(&self.blocks, &mut out);
        assert(out@ =~= md_blocks(self.blocks@));
        string_of(&out)
    }
}

fn push_escaped_markdown(out: &mut Vec<char>, s: &str)
    ensures
        final(out)@ == old(out)@ + escape_markdown(s@),
{
    let ghost start = out@;
    for c in it: s.chars()
        invariant
            out@ == start + escape_markdown(it.seq().take(it.index() as int)),
    {
        proof {
            assert(it.seq().take(it.index() + 1).drop_last() =~= it.seq().take(it.index() as int));
        }
        if c == '\\' || c == '`' || c == '*' || c == '_' || c == '[' || c == ']' || c == '~' || c
            == '<' {
            out.push('\\');
        }
        out.push(c);
        proof {
            assert(out@ =~= start + escape_markdown(it.seq().take(it.index() + 1)));
        }
    }
    proof {
        assert(s@.take(s@.len() as int) =~= s@);
    }
}

/// Appends `s` with every line but empty ones (and, unless `indent_first`,
/// the first) prefixed by `pad` spaces.
fn push_indented(out: &mut Vec<char>, s: &Vec<char>, pad: usize, indent_first: bool)
    ensures
        final(out)@ == old(out)@ + indent(s@, repeat(' ', pad as nat), indent_first),
{
    let ghost start = out@;
    let ghost parts = indent_each(lines(s@), repeat(' ', pad as nat), indent_first);
    let ls = split_lines(s);
    for i in 0..ls.len()
        invariant
            ls@.len() == lines(s@).len(),
            forall|k: int| 0 <= k < ls@.len() ==> #[trigger] ls@[k]@ == lines(s@)[k],
            parts == indent_each(lines(s@), repeat(' ', pad as nat), indent_first),
            out@ == start + join(parts.take(i as int), "\n"@),
    {
        proof {
            lemma_join_push(parts.take(i as int), "\n"@, parts[i as int]);
            assert(parts.take(i + 1) =~= parts.take(i as int).push(parts[i as int]));
            assert(ls@[i as int]@ == lines(s@)[i as int]);
        }
        let ghost before = out@;
        if i > 0 {
            push_str(out, "\n");
        }
        let line = &ls[i];
        if line.len() == 0 || (i == 0 && !indent_first) {
            push_chars(out, line);
        } else {
            push_repeat(out, ' ', pad);
            push_chars(out, line);
        }
        proof {
            assert(out@ =~= start + join(parts.take(i + 1), "\n"@));
        }
    }
    proof {
        assert(parts.take(ls.len() as int) =~= parts);
    }
}

/// Appends `s` as a block quote: each line prefixed with `> `.
fn push_quoted(out: &mut Vec<char>, s: &Vec<char>)
    ensures
        final(out)@ == old(out)@ + quote(s@),
{
    let ghost start = out@;
    let ghost parts = lines(s@).map_values(|l: Seq<char>| quote_line(l));
    let ls = split_lines(s);
    for i in 0..ls.len()
        invariant
            ls@.len() == lines(s@).len(),
            forall|k: int| 0 <= k < ls@.len() ==> #[trigger] ls@[k]@ == lines(s@)[k],
            parts == lines(s@).map_values(|l: Seq<char>| quote_line(l)),
            out@ == start + join(parts.take(i as int), "\n"@),
    {
        proof {
            lemma_join_push(parts.take(i as int), "\n"@, parts[i as int]);
            assert(parts.take(i + 1) =~= parts.take(i as int).push(parts[i as int]));
            assert(ls@[i as int]@ == lines(s@)[i as int]);
        }
        if i > 0 {
            push_str(out, "\n");
        }
        let line = &ls[i];
        if line.len() == 0 {
            push_str(out, ">");
        } else {
            push_str(out, "> ");
            push_chars(out, line);
        }
        proof {
            assert(out@ =~= start + join(parts.take(i + 1), "\n"@));
        }
    }
    proof {
        assert(parts.take(ls.len() as int) =~= parts);
    }
}

/// Appends the quoted lines of an alert body, each after a newline.
fn push_alert_lines(out: &mut Vec<char>, s: &Vec<char>)
    ensures
        final(out)@ == old(out)@ + alert_lines(lines(s@)),
{
    let ghost start = out@;
    let ghost ls_spec = lines(s@);
    let ls = split_lines(s);
    for i in 0..ls.len()
        invariant
            ls_spec == lines(s@),
            ls@.len() == ls_spec.len(),
            forall|k: int| 0 <= k < ls@.len() ==> #[trigger] ls@[k]@ == ls_spec[k],
            out@ == start + alert_lines(ls_spec.take(i as int)),
    {
        proof {
            assert(ls_spec.take(i + 1).drop_last() =~= ls_spec.take(i as int));
            assert(ls@[i as int]@ == ls_spec[i as int]);
        }
        push_str(out, "\n");
        let line = &ls[i];
        if line.len() == 0 {
            push_str(out, ">");
        } else {
            push_str(out, "> ");
            push_chars(out, line);
        }
        proof {
            assert(out@ =~= start + alert_lines(ls_spec.take(i + 1)));
        }
    }
    proof {
        assert(ls_spec.take(ls.len() as int) =~= ls_spec);
    }
}

/// Appends `s` with `|` escaped.
fn push_cell_escaped(out: &mut Vec<char>, s: &Vec<char>)
    ensures
        final(out)@ == old(out)@ + replace(s@, "|"@, "\\|"@),
{
    let r = replace_str(s, "|", "\\|");
    push_chars(out, &r);
}

fn push_raw_marker(out: &mut Vec<char>, markup: &str)
    ensures
        final(out)@ == old(out)@ + raw_marker(markup@),
{
    let v = chars_of(markup);
    let a = replace_str(&v, "-->", "--&gt;");
    let b = replace_str(&a, "\n", "&#10;");
    push_str(out, "<!--cf-raw:");
    push_chars(out, &b);
    push_str(out, "-->");
    assert(out@ =~= old(out)@ + raw_marker(markup@));
}

fn render_blocks(blocks: &Vec<Block>, out: &mut Vec<char>)
    ensures
        final(out)@ == old(out)@ + md_blocks(blocks@),
    decreases blocks, 2nat,
{
    let ghost start = out@;
    for i in 0..blocks.len()
        invariant
            out@ == start + md_blocks(blocks@.take(i as int)),
    {
        proof {
            assert(blocks@.take(i + 1).drop_last() =~= blocks@.take(i as int));
            assert(blocks@.take(i + 1).last() == blocks@[i as int]);
            if i == 0 {
                assert(blocks@.take(1)[0] == blocks@[0]);
            }
        }
        if i > 0 {
            push_str(out, "\n\n");
        }
        render_block(&blocks[i], out);
        proof {
            assert(out@ =~= start + md_blocks(blocks@.take(i + 1)));
        }
    }
    proof {
        assert(blocks@.take(blocks.len() as int) =~= blocks@);
    }
}

fn render_inlines(inlines: &Vec<Inline>, out: &mut Vec<char>)
    ensures
        final(out)@ == old(out)@ + md_inlines(inlines@),
    decreases inlines, 2nat,
{
    let ghost start = out@;
    for i in 0..inlines.len()
        invariant
            out@ == start + md_inlines(inlines@.take(i as int)),
    {
        proof {
            assert(inlines@.take(i + 1).drop_last() =~= inlines@.take(i as int));
            assert(inlines@.take(i + 1).last() == inlines@[i as int]);
        }
        render_inline(&inlines[i], out);
        proof {
            assert(out@ =~= start + md_inlines(inlines@.take(i + 1)));
        }
    }
    proof {
        assert(inlines@.take(inlines.len() as int) =~= inlines@);
    }
}

fn render_item(marker: &Vec<char>, blocks: &Vec<Block>, out: &mut Vec<char>)
    ensures
        final(out)@ == old(out)@ + md_item(marker@, blocks@),
    decreases blocks, 2nat,
{
    let ghost start = out@;
    let pad = marker.len();
    for j in 0..blocks.len()
        invariant
            pad == marker@.len(),
            out@ == start + md_item(marker@, blocks@.take(j as int)),
    {
        proof {
            assert(blocks@.take(j + 1).drop_last() =~= blocks@.take(j as int));
            assert(blocks@.take(j + 1).last() == blocks@[j as int]);
            if j == 0 {
                assert(blocks@.take(1)[0] == blocks@[0]);
            }
        }
        let mut rendered: Vec<char> = Vec::new();
        render_block(&blocks[j], &mut rendered);
        if j == 0 {
            push_chars(out, marker);
            push_indented(out, &rendered, pad, false);
        } else {
            push_str(out, "\n");
            push_indented(out, &rendered, pad, true);
        }
        proof {
            assert(rendered@ =~= md_block(blocks@[j as int]));
            assert(out@ =~= start + md_item(marker@, blocks@.take(j + 1)));
        }
    }
    proof {
        assert(blocks@.take(blocks.len() as int) =~= blocks@);
    }
}

fn render_list(ordered: bool, items: &Vec<Vec<Block>>, out: &mut Vec<char>)
    ensures
        final(out)@ == old(out)@ + md_items(ordered, items@),
    decreases items, 2nat,
{
    let ghost start = out@;
    for i in 0..items.len()
        invariant
            out@ == start + md_items(ordered, items@.take(i as int)),
    {
        proof {
            assert(items@.take(i + 1).drop_last() =~= items@.take(i as int));
            assert(items@.take(i + 1).last() == items@[i as int]);
            if i == 0 {
                assert(items@.take(1)[0] == items@[0]);
            }
        }
        let mut marker: Vec<char> = Vec::new();
        if ordered {
            push_decimal(&mut marker, i + 1);
            push_str(&mut marker, ". ");
        } else {
            push_str(&mut marker, "- ");
        }
        assert(marker@ =~= list_marker(ordered, i as int));
        if i > 0 {
            push_str(out, "\n");
        }
        render_item(&marker, &items[i], out);
        proof {
            assert(out@ =~= start + md_items(ordered, items@.take(i + 1)));
        }
    }
    proof {
        assert(items@.take(items.len() as int) =~= items@);
    }
}

fn render_task(task: &Task, out: &mut Vec<char>)
    ensures
        final(out)@ == old(out)@ + md_task(*task),
    decreases task, 2nat,
{
    push_str(out, "- [");
    if task.checked {
        push_str(out, "x");
    } else {
        push_str(out, " ");
    }
    push_str(out, "] ");
    render_inlines(&task.content, out);
    assert(out@ =~= old(out)@ + md_task(*task));
}

fn render_task_list(tasks: &Vec<Task>, out: &mut Vec<char>)
    ensures
        final(out)@ == old(out)@ + md_tasks(tasks@),
    decreases tasks, 2nat,
{
    let ghost start = out@;
    for i in 0..tasks.len()
        invariant
            out@ == start + md_tasks(tasks@.take(i as int)),
    {
        proof {
            assert(tasks@.take(i + 1).drop_last() =~= tasks@.take(i as int));
            assert(tasks@.take(i + 1).last() == tasks@[i as int]);
            if i == 0 {
                assert(tasks@.take(1)[0] == tasks@[0]);
            }
        }
        if i > 0 {
            push_str(out, "\n");
        }
        render_task(&tasks[i], out);
        proof {
            assert(out@ =~= start + md_tasks(tasks@.take(i + 1)));
        }
    }
    proof {
        assert(tasks@.take(tasks.len() as int) =~= tasks@);
    }
}

fn render_row(cells: &Vec<Vec<Inline>>, out: &mut Vec<char>)
    ensures
        final(out)@ == old(out)@ + md_row(cells@),
    decreases cells, 3nat,
{
    let ghost start = out@;
    push_str(out, "| ");
    let ghost mid = out@;
    for i in 0..cells.len()
        invariant
            out@ == mid + md_cells(cells@.take(i as int)),
    {
        proof {
            assert(cells@.take(i + 1).drop_last() =~= cells@.take(i as int));
            assert(cells@.take(i + 1).last() == cells@[i as int]);
            if i == 0 {
                assert(cells@.take(1)[0] == cells@[0]);
            }
        }
        if i > 0 {
            push_str(out, " | ");
        }
        let mut cell: Vec<char> = Vec::new();
        render_inlines(&cells[i], &mut cell);
        assert(cell@ =~= md_inlines(cells@[i as int]@));
        push_cell_escaped(out, &cell);
        proof {
            assert(out@ =~= mid + md_cells(cells@.take(i + 1)));
        }
    }
    proof {
        assert(cells@.take(cells.len() as int) =~= cells@);
    }
    push_str(out, " |");
    assert(out@ =~= start + md_row(cells@));
}

fn render_delim(t: &Table, out: &mut Vec<char>)
    ensures
        final(out)@ == old(out)@ + md_delim(*t),
{
    let ghost start = out@;
    push_str(out, "| ");
    let ghost parts = Seq::new(t.head@.len(), |i: int| align_token(column_align(t.align@, i)));
    let ghost mid = out@;
    for i in 0..t.head.len()
        invariant
            parts == Seq::new(t.head@.len(), |i: int| align_token(column_align(t.align@, i))),
            out@ == mid + join(parts.take(i as int), " | "@),
    {
        proof {
            lemma_join_push(parts.take(i as int), " | "@, parts[i as int]);
            assert(parts.take(i + 1) =~= parts.take(i as int).push(parts[i as int]));
        }
        if i > 0 {
            push_str(out, " | ");
        }
        let a = if i < t.align.len() {
            t.align[i]
        } else {
            Alignment::Unaligned
        };
        match a {
            Alignment::Unaligned => push_str(out, "---"),
            Alignment::Left => push_str(out, ":--"),
            Alignment::Center => push_str(out, ":-:"),
            Alignment::Right => push_str(out, "--:"),
        }
        proof {
            assert(out@ =~= mid + join(parts.take(i + 1), " | "@));
        }
    }
    proof {
        assert(parts.take(t.head.len() as int) =~= parts);
    }
    push_str(out, " |");
    assert(out@ =~= start + md_delim(*t));
}

fn render_rows(rows: &Vec<Vec<Vec<Inline>>>, out: &mut Vec<char>)
    ensures
        final(out)@ == old(out)@ + md_rows(rows@),
    decreases rows, 2nat,
{
    let ghost start = out@;
    for r in 0..rows.len()
        invariant
            out@ == start + md_rows(rows@.take(r as int)),
    {
        proof {
            assert(rows@.take(r + 1).drop_last() =~= rows@.take(r as int));
            assert(rows@.take(r + 1).last() == rows@[r as int]);
        }
        push_str(out, "\n");
        render_row(&rows[r], out);
        proof {
            assert(out@ =~= start + md_rows(rows@.take(r + 1)));
        }
    }
    proof {
        assert(rows@.take(rows.len() as int) =~= rows@);
    }
}

fn render_table(t: &Table, out: &mut Vec<char>)
    ensures
        final(out)@ == old(out)@ + md_table(*t),
    decreases t, 4nat,
{
    render_row(&t.head, out);
    push_str(out, "\n");
    render_delim(t, out);
    render_rows(&t.rows, out);
    assert(out@ =~= old(out)@ + md_table(*t));
}

fn render_body(m: &Macro, out: &mut Vec<char>)
    ensures
        final(out)@ == old(out)@ + md_body(*m),
    decreases m, 0nat,
{
    match &m.body {
        MacroBody::RichText(blocks) => render_blocks(blocks, out),
        MacroBody::PlainText(text) => push_str(out, text.as_str()),
        MacroBody::Empty => {
            assert(out@ =~= out@ + Seq::<char>::empty());
        },
    }
}

fn render_marker(m: &Macro, out: &mut Vec<char>)
    ensures
        final(out)@ == old(out)@ + macro_marker(*m),
{
    let ghost start = out@;
    push_str(out, "<!--cf:");
    push_str(out, m.name.as_str());
    let ghost mid = out@;
    for i in 0..m.params.len()
        invariant
            out@ == mid + marker_params(m.params@.take(i as int)),
    {
        proof {
            assert(m.params@.take(i + 1).drop_last() =~= m.params@.take(i as int));
            assert(m.params@.take(i + 1).last() == m.params@[i as int]);
        }
        push_str(out, " ");
        push_str(out, m.params[i].0.as_str());
        push_str(out, "=\"");
        let v = chars_of(m.params[i].1.as_str());
        let a = replace_str(&v, "\"", "&quot;");
        let b = replace_str(&a, "-->", "--&gt;");
        push_chars(out, &b);
        push_str(out, "\"");
        proof {
            assert(out@ =~= mid + marker_params(m.params@.take(i + 1)));
        }
    }
    proof {
        assert(m.params@.take(m.params.len() as int) =~= m.params@);
    }
    push_str(out, "-->");
    assert(out@ =~= start + macro_marker(*m));
}

/// The GFM alert token of an admonition macro.
fn alert_token_of(name: &str) -> (r: Option<&'static str>)
    ensures
        r is Some <==> alert_token(name@) is Some,
        r matches Some(t) ==> t@ == alert_token(name@)->0,
{
    if str_eq(name, "note") {
        Some("NOTE")
    } else if str_eq(name, "tip") {
        Some("TIP")
    } else if str_eq(name, "warning") {
        Some("WARNING")
    } else if str_eq(name, "info") {
        Some("IMPORTANT")
    } else {
        None
    }
}

fn render_alert(m: &Macro, token: &str, out: &mut Vec<char>)
    requires
        alert_token(m.name@) == Some(token@),
    ensures
        final(out)@ == old(out)@ + "> [!"@ + alert_token(m.name@)->0 + "]"@ + alert_lines(
            lines(md_body(*m)),
        ),
    decreases m, 1nat,
{
    push_str(out, "> [!");
    push_str(out, token);
    push_str(out, "]");
    let mut body: Vec<char> = Vec::new();
    render_body(m, &mut body);
    assert(body@ =~= md_body(*m));
    push_alert_lines(out, &body);
    assert(out@ =~= old(out)@ + "> [!"@ + alert_token(m.name@)->0 + "]"@ + alert_lines(
        lines(md_body(*m)),
    ));
}

fn render_details(m: &Macro, title: Option<&str>, out: &mut Vec<char>)
    requires
        title is Some <==> param_value(m.params@, "title"@) is Some,
        title matches Some(t) ==> t@ == param_value(m.params@, "title"@)->0,
    ensures
        final(out)@ == old(out)@ + "<details><summary>"@ + (match param_value(
            m.params@,
            "title"@,
        ) {
            Some(t) => t,
            None => seq![],
        }) + "</summary>\n\n"@ + md_body(*m) + "\n\n</details>"@,
    decreases m, 1nat,
{
    push_str(out, "<details><summary>");
    match title {
        Some(t) => push_str(out, t),
        None => {},
    }
    push_str(out, "</summary>\n\n");
    render_body(m, out);
    push_str(out, "\n\n</details>");
    assert(out@ =~= old(out)@ + "<details><summary>"@ + (match param_value(m.params@, "title"@) {
        Some(t) => t,
        None => seq![],
    }) + "</summary>\n\n"@ + md_body(*m) + "\n\n</details>"@);
}

fn render_paired(m: &Macro, out: &mut Vec<char>)
    ensures
        final(out)@ == old(out)@ + macro_marker(*m) + "\n\n"@ + md_body(*m) + "\n\n<!--/cf:"@
            + m.name@ + "-->"@,
    decreases m, 1nat,
{
    render_marker(m, out);
    push_str(out, "\n\n");
    render_body(m, out);
    push_str(out, "\n\n<!--/cf:");
    push_str(out, m.name.as_str());
    push_str(out, "-->");
    assert(out@ =~= old(out)@ + macro_marker(*m) + "\n\n"@ + md_body(*m) + "\n\n<!--/cf:"@
        + m.name@ + "-->"@);
}

fn render_macro(m: &Macro, out: &mut Vec<char>)
    ensures
        final(out)@ == old(out)@ + md_macro(*m),
    decreases m, 2nat,
{
    let title = m.param("title");
    let token = alert_token_of(m.name.as_str());
    if token.is_some() && title.is_none() {
        render_alert(m, token.unwrap(), out);
    } else if str_eq(m.name.as_str(), "expand") {
        render_details(m, title, out);
    } else if matches!(m.body, MacroBody::Empty) {
        render_marker(m, out);
    } else {
        render_paired(m, out);
    }
}

fn render_heading(level: u8, content: &Vec<Inline>, out: &mut Vec<char>)
    ensures
        final(out)@ == old(out)@ + repeat('#', level as nat) + " "@ + md_inlines(content@),
    decreases content, 3nat,
{
    push_repeat(out, '#', level as usize);
    push_str(out, " ");
    render_inlines(content, out);
    assert(out@ =~= old(out)@ + repeat('#', level as nat) + " "@ + md_inlines(content@));
}

fn render_code(language: &Option<String>, code: &String, out: &mut Vec<char>)
    ensures
        final(out)@ == old(out)@ + "```"@ + (match *language {
            Some(l) => l@,
            None => seq![],
        }) + "\n"@ + code@ + "\n```"@,
{
    push_str(out, "```");
    match language {
        Some(l) => push_str(out, l.as_str()),
        None => {},
    }
    push_str(out, "\n");
    push_str(out, code.as_str());
    push_str(out, "\n```");
    assert(out@ =~= old(out)@ + "```"@ + (match *language {
        Some(l) => l@,
        None => seq![],
    }) + "\n"@ + code@ + "\n```"@);
}

fn render_block(block: &Block, out: &mut Vec<char>)
    ensures
        final(out)@ == old(out)@ + md_block(*block),
    decreases block, 5nat,
{
    match block {
        Block::Heading { level, content } => render_heading(*level, content, out),
        Block::Paragraph(content) => render_inlines(content, out),
        Block::CodeBlock { language, code } => render_code(language, code, out),
        Block::BlockQuote(blocks) => {
            let mut inner: Vec<char> = Vec::new();
            render_blocks(blocks, &mut inner);
            assert(inner@ =~= md_blocks(blocks@));
            push_quoted(out, &inner);
        },
        Block::List { ordered, items } => render_list(*ordered, items, out),
        Block::ThematicBreak => push_str(out, "---"),
        Block::Table(t) => render_table(t, out),
        Block::TaskList(tasks) => render_task_list(tasks, out),
        Block::Macro(m) => render_macro(m, out),
        Block::RawConfluence(s) => push_raw_marker(out, s.as_str()),
    }
}

fn push_link_url(out: &mut Vec<char>, target: &LinkTarget)
    ensures
        final(out)@ == old(out)@ + link_url(*target),
{
    let ghost start = out@;
    match target {
        LinkTarget::External(url) => push_str(out, url.as_str()),
        LinkTarget::Page { space, title } => {
            push_str(out, "confluence://page?");
            match space {
                Some(s) => {
                    push_str(out, "space=");
                    let e = encode_uri_component(s.as_str());
                    push_chars(out, &e);
                    push_str(out, "&");
                },
                None => {},
            }
            push_str(out, "title=");
            let e = encode_uri_component(title.as_str());
            push_chars(out, &e);
            assert(out@ =~= start + link_url(*target));
        },
        LinkTarget::Content(id) => {
            push_str(out, "confluence://content?id=");
            let e = encode_uri_component(id.as_str());
            push_chars(out, &e);
        },
        LinkTarget::Attachment(file) => {
            push_str(out, "confluence://attachment?file=");
            let e = encode_uri_component(file.as_str());
            push_chars(out, &e);
        },
        LinkTarget::Anchor(name) => {
            push_str(out, "confluence://anchor?name=");
            let e = encode_uri_component(name.as_str());
            push_chars(out, &e);
        },
    }
    assert(out@ =~= start + link_url(*target));
}

fn push_image_url(out: &mut Vec<char>, source: &ImageSource)
    ensures
        final(out)@ == old(out)@ + image_url(*source),
{
    match source {
        ImageSource::External(url) => push_str(out, url.as_str()),
        ImageSource::Attachment(file) => {
            push_str(out, "confluence://attachment?file=");
            let e = encode_uri_component(file.as_str());
            push_chars(out, &e);
            assert(out@ =~= old(out)@ + image_url(*source));
        },
    }
}

fn render_link(target: &LinkTarget, title: &Option<String>, content: &Vec<Inline>, out: &mut Vec<
    char,
>)
    ensures
        final(out)@ == old(out)@ + "["@ + md_inlines(content@) + "]("@ + link_url(*target)
            + match *title {
            Some(t) => " \""@ + t@ + "\")"@,
            None => ")"@,
        },
    decreases content, 3nat,
{
    push_str(out, "[");
    render_inlines(content, out);
    push_str(out, "](");
    push_link_url(out, target);
    match title {
        Some(t) => {
            push_str(out, " \"");
            push_str(out, t.as_str());
            push_str(out, "\")");
        },
        None => push_str(out, ")"),
    }
    assert(out@ =~= old(out)@ + "["@ + md_inlines(content@) + "]("@ + link_url(*target)
        + match *title {
        Some(t) => " \""@ + t@ + "\")"@,
        None => ")"@,
    });
}

fn render_wrapped(open: &str, content: &Vec<Inline>, close: &str, out: &mut Vec<char>)
    ensures
        final(out)@ == old(out)@ + open@ + md_inlines(content@) + close@,
    decreases content, 3nat,
{
    push_str(out, open);
    render_inlines(content, out);
    push_str(out, close);
    assert(out@ =~= old(out)@ + open@ + md_inlines(content@) + close@);
}

fn render_inline(inline: &Inline, out: &mut Vec<char>)
    ensures
        final(out)@ == old(out)@ + md_inline(*inline),
    decreases inline, 5nat,
{
    let ghost start = out@;
    match inline {
        Inline::Text(t) => push_escaped_markdown(out, t.as_str()),
        Inline::Strong(c) => render_wrapped("**", c, "**", out),
        Inline::Emphasis(c) => render_wrapped("*", c, "*", out),
        Inline::Strikethrough(c) => render_wrapped("~~", c, "~~", out),
        Inline::Code(c) => {
            push_str(out, "`");
            push_str(out, c.as_str());
            push_str(out, "`");
            assert(out@ =~= start + md_inline(*inline));
        },
        Inline::Link { target, title, content } => render_link(target, title, content, out),
        Inline::Image { source, alt } => {
            push_str(out, "![");
            push_str(out, alt.as_str());
            push_str(out, "](");
            push_image_url(out, source);
            push_str(out, ")");
            assert(out@ =~= start + md_inline(*inline));
        },
        Inline::SoftBreak => push_str(out, "\n"),
        Inline::HardBreak => push_str(out, "  \n"),
        Inline::Macro(m) => render_macro(m, out),
        Inline::RawConfluence(s) => push_raw_marker(out, s.as_str()),
    }
}

// ---------------------------------------------------------------------------
// The rendering reads the document's content only
// ---------------------------------------------------------------------------

proof fn lemma_marker_params_view(p1: Seq<(String, String)>, p2: Seq<(String, String)>)
    requires
        params_v(p1) == params_v(p2),
    ensures
        marker_params(p1) == marker_params(p2),
    decreases p1.len(),
{
    assert(params_v(p1).len() == p1.len() && params_v(p2).len() == p2.len());
    if p1.len() > 0 {
        assert(params_v(p1).last() == params_v(p2).last());
        assert(params_v(p1.drop_last()) =~= params_v(p1).drop_last());
        assert(params_v(p2.drop_last()) =~= params_v(p2).drop_last());
        lemma_marker_params_view(p1.drop_last(), p2.drop_last());
    }
}

proof fn lemma_link_url_view(t1: LinkTarget, t2: LinkTarget)
    requires
        link_target_v(t1) == link_target_v(t2),
    ensures
        link_url(t1) == link_url(t2),
{
}

proof fn lemma_image_url_view(s1: ImageSource, s2: ImageSource)
    requires
        image_source_v(s1) == image_source_v(s2),
    ensures
        image_url(s1) == image_url(s2),
{
}

proof fn lemma_md_inlines_view(s1: Seq<Inline>, s2: Seq<Inline>)
    requires
        inlines_v(s1) == inlines_v(s2),
    ensures
        md_inlines(s1) == md_inlines(s2),
    decreases s1, 1nat,
{
    lemma_views_len(Seq::<Block>::empty(), s1);
    lemma_views_len(Seq::<Block>::empty(), s2);
    if s1.len() > 0 {
        lemma_push_injective(
            inlines_v(s1.drop_last()),
            inline_v(s1.last()),
            inlines_v(s2.drop_last()),
            inline_v(s2.last()),
        );
        lemma_md_inlines_view(s1.drop_last(), s2.drop_last());
        lemma_md_inline_view(s1.last(), s2.last());
    }
}

proof fn lemma_md_inline_view(i1: Inline, i2: Inline)
    requires
        inline_v(i1) == inline_v(i2),
    ensures
        md_inline(i1) == md_inline(i2),
    decreases i1, 0nat,
{
    match (i1, i2) {
        (Inline::Strong(c1), Inline::Strong(c2)) => lemma_md_inlines_view(c1@, c2@),
        (Inline::Emphasis(c1), Inline::Emphasis(c2)) => lemma_md_inlines_view(c1@, c2@),
        (Inline::Strikethrough(c1), Inline::Strikethrough(c2)) => lemma_md_inlines_view(c1@, c2@),
        (
            Inline::Link { target: t1, content: c1, .. },
            Inline::Link { target: t2, content: c2, .. },
        ) => {
            lemma_link_url_view(t1, t2);
            lemma_md_inlines_view(c1@, c2@);
        },
        (Inline::Image { source: s1, .. }, Inline::Image { source: s2, .. }) => {
            lemma_image_url_view(s1, s2);
        },
        (Inline::Macro(m1), Inline::Macro(m2)) => lemma_md_macro_view(m1, m2),
        _ => {},
    }
}

proof fn lemma_md_macro_view(m1: Macro, m2: Macro)
    requires
        macro_v(m1) == macro_v(m2),
    ensures
        md_macro(m1) == md_macro(m2),
    decreases m1, 0nat,
{
    lemma_param_value_view(m1.params@, m2.params@, "title"@);
    lemma_marker_params_view(m1.params@, m2.params@);
    match (m1.body, m2.body) {
        (MacroBody::RichText(b1), MacroBody::RichText(b2)) => lemma_md_blocks_view(b1@, b2@),
        _ => {},
    }
    assert(md_body(m1) == md_body(m2));
}

proof fn lemma_md_blocks_view(s1: Seq<Block>, s2: Seq<Block>)
    requires
        blocks_v(s1) == blocks_v(s2),
    ensures
        md_blocks(s1) == md_blocks(s2),
    decreases s1, 1nat,
{
    lemma_views_len(s1, Seq::<Inline>::empty());
    lemma_views_len(s2, Seq::<Inline>::empty());
    if s1.len() > 0 {
        lemma_push_injective(
            blocks_v(s1.drop_last()),
            block_v(s1.last()),
            blocks_v(s2.drop_last()),
            block_v(s2.last()),
        );
        lemma_md_blocks_view(s1.drop_last(), s2.drop_last());
        lemma_md_block_view(s1.last(), s2.last());
    }
}

proof fn lemma_md_item_view(marker: Seq<char>, s1: Seq<Block>, s2: Seq<Block>)
    requires
        blocks_v(s1) == blocks_v(s2),
    ensures
        md_item(marker, s1) == md_item(marker, s2),
    decreases s1, 1nat,
{
    lemma_views_len(s1, Seq::<Inline>::empty());
    lemma_views_len(s2, Seq::<Inline>::empty());
    if s1.len() > 0 {
        lemma_push_injective(
            blocks_v(s1.drop_last()),
            block_v(s1.last()),
            blocks_v(s2.drop_last()),
            block_v(s2.last()),
        );
        lemma_md_item_view(marker, s1.drop_last(), s2.drop_last());
        lemma_md_block_view(s1.last(), s2.last());
    }
}

proof fn lemma_md_items_view(ordered: bool, s1: Seq<Vec<Block>>, s2: Seq<Vec<Block>>)
    requires
        items_v(s1) == items_v(s2),
    ensures
        md_items(ordered, s1) == md_items(ordered, s2),
    decreases s1, 1nat,
{
    lemma_items_v_index(s1);
    lemma_items_v_index(s2);
    if s1.len() > 0 {
        lemma_push_injective(
            items_v(s1.drop_last()),
            blocks_v(s1.last()@),
            items_v(s2.drop_last()),
            blocks_v(s2.last()@),
        );
        lemma_md_items_view(ordered, s1.drop_last(), s2.drop_last());
        lemma_md_item_view(list_marker(ordered, s1.len() - 1), s1.last()@, s2.last()@);
    }
}

proof fn lemma_md_tasks_view(s1: Seq<Task>, s2: Seq<Task>)
    requires
        tasks_v(s1) == tasks_v(s2),
    ensures
        md_tasks(s1) == md_tasks(s2),
    decreases s1, 1nat,
{
    lemma_tasks_v_index(s1);
    lemma_tasks_v_index(s2);
    if s1.len() > 0 {
        lemma_push_injective(
            tasks_v(s1.drop_last()),
            task_v(s1.last()),
            tasks_v(s2.drop_last()),
            task_v(s2.last()),
        );
        lemma_md_tasks_view(s1.drop_last(), s2.drop_last());
        lemma_md_inlines_view(s1.last().content@, s2.last().content@);
        assert(md_task(s1.last()) == md_task(s2.last()));
    }
}

proof fn lemma_md_cells_view(s1: Seq<Vec<Inline>>, s2: Seq<Vec<Inline>>)
    requires
        cells_v(s1) == cells_v(s2),
    ensures
        md_cells(s1) == md_cells(s2),
        s1.len() == s2.len(),
    decreases s1, 1nat,
{
    if s1.len() > 0 {
        assert(cells_v(s1) == cells_v(s1.drop_last()).push(inlines_v(s1.last()@)));
    }
    if s2.len() > 0 {
        assert(cells_v(s2) == cells_v(s2.drop_last()).push(inlines_v(s2.last()@)));
    }
    if s1.len() > 0 && s2.len() > 0 {
        lemma_push_injective(
            cells_v(s1.drop_last()),
            inlines_v(s1.last()@),
            cells_v(s2.drop_last()),
            inlines_v(s2.last()@),
        );
        lemma_md_cells_view(s1.drop_last(), s2.drop_last());
        lemma_md_inlines_view(s1.last()@, s2.last()@);
    }
}

proof fn lemma_md_rows_view(s1: Seq<Vec<Vec<Inline>>>, s2: Seq<Vec<Vec<Inline>>>)
    requires
        rows_v(s1) == rows_v(s2),
    ensures
        md_rows(s1) == md_rows(s2),
    decreases s1, 1nat,
{
    if s1.len() > 0 {
        assert(rows_v(s1) == rows_v(s1.drop_last()).push(cells_v(s1.last()@)));
    }
    if s2.len() > 0 {
        assert(rows_v(s2) == rows_v(s2.drop_last()).push(cells_v(s2.last()@)));
    }
    if s1.len() > 0 && s2.len() > 0 {
        lemma_push_injective(
            rows_v(s1.drop_last()),
            cells_v(s1.last()@),
            rows_v(s2.drop_last()),
            cells_v(s2.last()@),
        );
        lemma_md_rows_view(s1.drop_last(), s2.drop_last());
        lemma_md_cells_view(s1.last()@, s2.last()@);
        assert(md_row(s1.last()@) == md_row(s2.last()@));
    } else if s1.len() == 0 && s2.len() == 0 {
    } else {
        assert(rows_v(s1).len() != rows_v(s2).len());
    }
}

proof fn lemma_md_block_view(b1: Block, b2: Block)
    requires
        block_v(b1) == block_v(b2),
    ensures
        md_block(b1) == md_block(b2),
    decreases b1, 0nat,
{
    match (b1, b2) {
        (Block::Heading { content: c1, .. }, Block::Heading { content: c2, .. }) => {
            lemma_md_inlines_view(c1@, c2@);
        },
        (Block::Paragraph(c1), Block::Paragraph(c2)) => lemma_md_inlines_view(c1@, c2@),
        (Block::BlockQuote(c1), Block::BlockQuote(c2)) => lemma_md_blocks_view(c1@, c2@),
        (Block::List { ordered, items: c1 }, Block::List { items: c2, .. }) => {
            lemma_md_items_view(ordered, c1@, c2@);
        },
        (Block::Table(t1), Block::Table(t2)) => {
            lemma_md_cells_view(t1.head@, t2.head@);
            lemma_md_rows_view(t1.rows@, t2.rows@);
            assert(t1.align@ == t2.align@);
            assert(md_delim(t1) == md_delim(t2));
            assert(md_row(t1.head@) == md_row(t2.head@));
            assert(md_table(t1) == md_table(t2));
        },
        (Block::CodeBlock { .. }, Block::CodeBlock { .. }) => {},
        (Block::TaskList(c1), Block::TaskList(c2)) => lemma_md_tasks_view(c1@, c2@),
        (Block::Macro(m1), Block::Macro(m2)) => lemma_md_macro_view(m1, m2),
        _ => {},
    }
}

/// The Markdown of a document depends on its content only: documents with
/// the same view render the same.
pub proof fn lemma_to_markdown_view(d1: Document, d2: Document)
    requires
        d1@ == d2@,
    ensures
        d1.spec_to_markdown() == d2.spec_to_markdown(),
{
    lemma_md_blocks_view(d1.blocks@, d2.blocks@);
}

} // verus!
