//! From the CommonMark syntax tree to the document tree.
//!
//! Confluence markers and `<details>` arrive as sibling HTML blocks: an open
//! marker becomes a body-less macro, and a close marker wraps every block
//! emitted since the matching open one into that macro's rich-text body.
use vstd::prelude::*;

use super::parse::{
    spec_from_html, spec_from_url, spec_image_from_url, spec_marker, Marker, MarkerV,
};
use super::render::{
    alert_token, list_marker, md_block, md_inline, md_inlines, md_item, md_items, md_task,
};
use super::tree::{commonmark_tree, parse_commonmark, AlertKind, ListKind, MdNode, MdValue};
use crate::ast::{
    block_v, blocks_v, cells_v, inline_v, inlines_v, items_v, lemma_blocks_v_index,
    lemma_blocks_v_push, lemma_inlines_v_push, lemma_items_v_index, lemma_tasks_v_index, opt_v,
    params_v, rows_v, task_v, tasks_v, Alignment, Block, BlockV, Document, ImageSource, Inline,
    InlineV, LinkTarget, Macro, MacroBody, MacroBodyV, MacroV, Table, TableV, Task, TaskV,
};
use crate::text::{
    chars_of, decimal, digit, ends_with, find, find_char_from, push_str, repeat, slice_chars,
    string_of, strip_suffix,
};

verus! {

// ---------------------------------------------------------------------------
// What the walk produces
// ---------------------------------------------------------------------------

/// The language of a code block: the first word of a fenced block's info
/// string, if it has one.
pub open spec fn code_language(fenced: bool, info: Seq<char>) -> Option<Seq<char>> {
    if fenced && info.len() > 0 {
        Some(info.take(find(info, seq![' '])))
    } else {
        None
    }
}

/// The text of a code block, without the line break that ends it.
pub open spec fn code_text(literal: Seq<char>) -> Seq<char> {
    if ends_with(literal, "\n"@) {
        literal.drop_last()
    } else {
        literal
    }
}

/// The Confluence macro that an alert becomes.
pub open spec fn alert_name(k: AlertKind) -> Seq<char> {
    match k {
        AlertKind::Note => "note"@,
        AlertKind::Tip => "tip"@,
        AlertKind::Important => "info"@,
        AlertKind::Warning | AlertKind::Caution => "warning"@,
    }
}

/// The parameters of that macro: the alert's own title, when it has one.
pub open spec fn alert_params(title: Option<String>) -> Seq<(Seq<char>, Seq<char>)> {
    match title {
        Some(t) if t@.len() > 0 => seq![("title"@, t@)],
        _ => seq![],
    }
}

/// The marker of a GFM alert type (`> [!NOTE]` …).
pub open spec fn alert_kind_token(k: AlertKind) -> Seq<char> {
    match k {
        AlertKind::Note => "NOTE"@,
        AlertKind::Tip => "TIP"@,
        AlertKind::Important => "IMPORTANT"@,
        AlertKind::Warning => "WARNING"@,
        AlertKind::Caution => "CAUTION"@,
    }
}

/// Admonitions and GFM alerts correspond one to one: the alert that an
/// admonition is written as reads back as that admonition, and every alert
/// type but `CAUTION` (read as `warning`) is written for the admonition it
/// reads as.
pub proof fn lemma_alert_roundtrip(name: Seq<char>, k: AlertKind)
    ensures
        alert_token(name) == Some(alert_kind_token(k)) ==> alert_name(k) == name,
        k != AlertKind::Caution ==> alert_token(alert_name(k)) == Some(alert_kind_token(k)),
{
    reveal_strlit("NOTE");
    reveal_strlit("TIP");
    reveal_strlit("IMPORTANT");
    reveal_strlit("WARNING");
    reveal_strlit("CAUTION");
    reveal_strlit("note");
    reveal_strlit("tip");
    reveal_strlit("info");
    reveal_strlit("warning");
    assert("note"@[0] != "tip"@[0] && "note"@[0] != "warning"@[0] && "note"@[0] != "info"@[0]);
    assert("tip"@[0] != "warning"@[0] && "tip"@[0] != "info"@[0] && "warning"@[0] != "info"@[0]);
    assert("NOTE"@[0] != "TIP"@[0] && "NOTE"@[0] != "IMPORTANT"@[0] && "NOTE"@[0] != "WARNING"@[0]
        && "NOTE"@[0] != "CAUTION"@[0]);
    assert("TIP"@[0] != "IMPORTANT"@[0] && "TIP"@[0] != "WARNING"@[0] && "TIP"@[0] != "CAUTION"@[0]);
    assert("IMPORTANT"@[0] != "WARNING"@[0] && "IMPORTANT"@[0] != "CAUTION"@[0]);
    assert("WARNING"@[0] != "CAUTION"@[0]);
}

/// The concatenated text of the `Text` nodes among `cs` and all their
/// descendants, in document order (an image's alt text).
pub open spec fn text_content(cs: Seq<MdNode>) -> Seq<char>
    decreases cs, 0nat,
{
    if cs.len() == 0 {
        seq![]
    } else {
        text_content(cs.drop_last()) + node_text(cs.last())
    }
}

/// The text of a node: its own text, if it is a `Text` node, then that of its
/// descendants.
pub open spec fn node_text(c: MdNode) -> Seq<char>
    decreases c, 1nat,
{
    match c.value {
        MdValue::Text(t) => t@ + text_content(c.children@),
        _ => text_content(c.children@),
    }
}

/// The inlines of a run of inline nodes.
pub open spec fn fold_inlines(cs: Seq<MdNode>) -> Seq<InlineV>
    decreases cs, 0nat,
{
    if cs.len() == 0 {
        seq![]
    } else {
        inline_step(fold_inlines(cs.drop_last()), cs.last())
    }
}

/// One inline node added to the inlines read so far.
pub open spec fn inline_step(out: Seq<InlineV>, c: MdNode) -> Seq<InlineV>
    decreases c, 1nat,
{
    match c.value {
        MdValue::Text(t) => out.push(InlineV::Text(t@)),
        MdValue::SoftBreak => out.push(InlineV::SoftBreak),
        MdValue::LineBreak => out.push(InlineV::HardBreak),
        MdValue::Code(t) => out.push(InlineV::Code(t@)),
        MdValue::Emph => out.push(InlineV::Emphasis(fold_inlines(c.children@))),
        MdValue::Strong => out.push(InlineV::Strong(fold_inlines(c.children@))),
        MdValue::Strikethrough => out.push(InlineV::Strikethrough(fold_inlines(c.children@))),
        MdValue::Link { url, title } => out.push(
            InlineV::Link {
                target: spec_from_url(url@),
                title: if title@.len() > 0 {
                    Some(title@)
                } else {
                    None
                },
                content: fold_inlines(c.children@),
            },
        ),
        MdValue::Image { url, .. } => out.push(
            InlineV::Image { source: spec_image_from_url(url@), alt: text_content(c.children@) },
        ),
        MdValue::HtmlInline(h) => out.push(spec_from_html(h@)),
        _ => out,
    }
}

/// The Markdown delimiter of an emphasis, strong or strikethrough node.
pub open spec fn delimiter_of(v: MdValue) -> Seq<char> {
    match v {
        MdValue::Emph => "*"@,
        MdValue::Strong => "**"@,
        _ => "~~"@,
    }
}

/// An emphasis node reads as what Markdown writes with single `*`, a strong
/// node as what it writes with `**`, a strikethrough node as what it writes
/// with `~~`: rendering back what the reader made of such a node wraps the
/// content in the delimiter of the node's kind.
pub proof fn lemma_emphasis_reads_as_written(c: MdNode, out: Seq<InlineV>, i: Inline)
    requires
        c.value is Emph || c.value is Strong || c.value is Strikethrough,
        inline_v(i) == inline_step(out, c).last(),
    ensures
        exists|x: Seq<Inline>|
            #![trigger md_inlines(x)]
            inlines_v(x) == fold_inlines(c.children@) && md_inline(i) == delimiter_of(c.value)
                + md_inlines(x) + delimiter_of(c.value),
{
    match i {
        Inline::Emphasis(x) => {
            assert(md_inlines(x@) == md_inlines(x@));
        },
        Inline::Strong(x) => {
            assert(md_inlines(x@) == md_inlines(x@));
        },
        Inline::Strikethrough(x) => {
            assert(md_inlines(x@) == md_inlines(x@));
        },
        _ => {},
    }
}

/// A code span reads as what Markdown writes between backticks.
pub proof fn lemma_code_span_reads_as_written(c: MdNode, out: Seq<InlineV>, i: Inline)
    requires
        c.value is Code,
        inline_v(i) == inline_step(out, c).last(),
    ensures
        md_inline(i) == "`"@ + c.value->Code_0@ + "`"@,
{
}

/// A heading of level `n` reads as what Markdown writes with `n` `#` signs.
pub proof fn lemma_heading_reads_as_written(c: MdNode, out: Seq<BlockV>, b: Block)
    requires
        c.value is Heading,
        block_v(b) == block_step(out, c).last(),
    ensures
        exists|x: Seq<Inline>|
            #![trigger md_inlines(x)]
            inlines_v(x) == fold_inlines(c.children@) && md_block(b) == repeat(
                '#',
                c.value->Heading_0 as nat,
            ) + " "@ + md_inlines(x),
{
    if let Block::Heading { content, .. } = b {
        assert(md_inlines(content@) == md_inlines(content@));
    }
}

proof fn lemma_items_of_index(cs: Seq<MdNode>)
    ensures
        items_of(cs).len() == cs.len(),
        forall|i: int| 0 <= i < cs.len() ==> #[trigger] items_of(cs)[i] == fold_blocks(cs[i].children@),
    decreases cs.len(),
{
    if cs.len() > 0 {
        lemma_items_of_index(cs.drop_last());
    }
}

proof fn lemma_md_item_prefix(marker: Seq<char>, s: Seq<Block>)
    requires
        s.len() > 0,
    ensures
        md_item(marker, s).len() >= marker.len(),
        md_item(marker, s).subrange(0, marker.len() as int) == marker,
    decreases s.len(),
{
    if s.len() > 1 {
        lemma_md_item_prefix(marker, s.drop_last());
        let a = md_item(marker, s.drop_last());
        let t = md_item(marker, s);
        assert(t.subrange(0, marker.len() as int) =~= a.subrange(0, marker.len() as int));
    } else {
        let t = md_item(marker, s);
        assert(t.subrange(0, marker.len() as int) =~= marker);
    }
}

proof fn lemma_md_items_prefix(ordered: bool, s: Seq<Vec<Block>>)
    requires
        s.len() > 0,
        s[0]@.len() > 0,
    ensures
        md_items(ordered, s).len() >= list_marker(ordered, 0).len(),
        md_items(ordered, s).subrange(0, list_marker(ordered, 0).len() as int) == list_marker(
            ordered,
            0,
        ),
    decreases s.len(),
{
    let m = list_marker(ordered, 0);
    if s.len() > 1 {
        lemma_md_items_prefix(ordered, s.drop_last());
        let a = md_items(ordered, s.drop_last());
        let t = md_items(ordered, s);
        assert(t.subrange(0, m.len() as int) =~= a.subrange(0, m.len() as int));
    } else {
        lemma_md_item_prefix(m, s[0]@);
    }
}

/// A list keeps its kind through Markdown: the items of an ordered list node
/// read as a list that Markdown writes with `1.`, those of a bullet list node
/// as one written with `-` (when the list is not a task list and its first
/// item holds a block).
pub proof fn lemma_list_kind_reads_as_written(c: MdNode, out: Seq<BlockV>, b: Block)
    requires
        c.value is List,
        !all_tasks(c.children@),
        c.children@.len() > 0,
        fold_blocks(c.children@[0].children@).len() > 0,
        block_v(b) == block_step(out, c).last(),
    ensures
        md_block(b).len() >= 2,
        md_block(b).subrange(0, 2) == (if c.value->List_0 == ListKind::Ordered {
            "1."@
        } else {
            "- "@
        }),
{
    reveal_strlit("1.");
    reveal_strlit("- ");
    reveal_strlit(". ");
    lemma_items_of_index(c.children@);
    if let Block::List { ordered, items } = b {
        lemma_items_v_index(items@);
        lemma_blocks_v_index(items@[0]@);
        assert(items_v(items@)[0] == items_of(c.children@)[0]);
        lemma_md_items_prefix(ordered, items@);
        let m = list_marker(ordered, 0);
        assert(decimal(1) == seq![digit(1)]);
        if ordered {
            assert(m =~= seq!['1', '.', ' ']);
        } else {
            assert(m =~= seq!['-', ' ']);
        }
        assert(md_block(b).subrange(0, 2) =~= m.subrange(0, 2));
    }
}

/// A task's check mark survives Markdown: the character written between the
/// brackets of `- [.] `, read as a task item's mark (none for a space, as a
/// CommonMark task list reads `[ ]`), gives back whether the task is checked.
pub proof fn lemma_task_mark_reads_back(t: Task)
    ensures
        md_task(t).len() > 3,
        md_task(t) == "- ["@ + seq![md_task(t)[3]] + "] "@ + md_inlines(t.content@),
        forall|cs: Seq<MdNode>, k: int, ordered: bool|
            #![trigger list_block(cs, ordered), cs[k]]
            0 <= k < cs.len() && all_tasks(cs) && cs[k].value == MdValue::TaskItem(
                if md_task(t)[3] == ' ' {
                    None
                } else {
                    Some(md_task(t)[3])
                },
            ) ==> list_block(cs, ordered) is TaskList && list_block(cs, ordered)->TaskList_0[k].checked
                == t.checked,
{
    reveal_strlit("- [");
    reveal_strlit("] ");
    reveal_strlit("x");
    reveal_strlit(" ");
    let ch = if t.checked {
        'x'
    } else {
        ' '
    };
    assert(md_task(t) =~= "- ["@ + seq![ch] + "] "@ + md_inlines(t.content@));
    assert(md_task(t)[3] == ch);
}

/// The cells of a table row.
pub open spec fn cells_of(cs: Seq<MdNode>) -> Seq<Seq<InlineV>>
    decreases cs,
{
    if cs.len() == 0 {
        seq![]
    } else {
        cells_of(cs.drop_last()).push(fold_inlines(cs.last().children@))
    }
}

/// The header of a table: the cells of its last header row.
pub open spec fn table_head(rows: Seq<MdNode>) -> Seq<Seq<InlineV>>
    decreases rows,
{
    if rows.len() == 0 {
        seq![]
    } else if rows.last().value == MdValue::TableRow(true) {
        cells_of(rows.last().children@)
    } else {
        table_head(rows.drop_last())
    }
}

/// The body of a table: the cells of every other row, in order.
pub open spec fn table_body(rows: Seq<MdNode>) -> Seq<Seq<Seq<InlineV>>>
    decreases rows,
{
    if rows.len() == 0 {
        seq![]
    } else if rows.last().value == MdValue::TableRow(true) {
        table_body(rows.drop_last())
    } else {
        table_body(rows.drop_last()).push(cells_of(rows.last().children@))
    }
}

/// True when `b` is a macro named `name` still waiting for its body.
pub open spec fn is_open(b: BlockV, name: Seq<char>) -> bool {
    b matches BlockV::Macro(m) && m.name == name && m.body is Empty
}

/// Index of the last block of `out` that is an open macro named `name`, or -1.
pub open spec fn last_open(out: Seq<BlockV>, name: Seq<char>) -> int
    decreases out.len(),
{
    if out.len() == 0 {
        -1
    } else if is_open(out.last(), name) {
        out.len() - 1
    } else {
        last_open(out.drop_last(), name)
    }
}

/// A close marker: the blocks after the matching open macro become its body.
pub open spec fn close_macro(out: Seq<BlockV>, name: Seq<char>) -> Seq<BlockV> {
    let i = last_open(out, name);
    if i < 0 {
        out
    } else {
        let m = out[i]->Macro_0;
        out.take(i).push(
            BlockV::Macro(MacroV { name: m.name, params: m.params, body: MacroBodyV::RichText(out.skip(i + 1)) }),
        )
    }
}

/// The inlines of the first block, when it is a paragraph.
pub open spec fn first_paragraph(bs: Seq<BlockV>) -> Seq<InlineV> {
    if bs.len() > 0 && bs[0] is Paragraph {
        bs[0]->Paragraph_0
    } else {
        seq![]
    }
}

/// True when every item of a list is a task item.
pub open spec fn all_tasks(cs: Seq<MdNode>) -> bool {
    forall|i: int| 0 <= i < cs.len() ==> #[trigger] cs[i].value is TaskItem
}

/// The blocks of a run of block nodes.
pub open spec fn fold_blocks(cs: Seq<MdNode>) -> Seq<BlockV>
    decreases cs, 0nat,
{
    if cs.len() == 0 {
        seq![]
    } else {
        block_step(fold_blocks(cs.drop_last()), cs.last())
    }
}

/// The blocks of each list item.
pub open spec fn items_of(cs: Seq<MdNode>) -> Seq<Seq<BlockV>>
    decreases cs, 0nat,
{
    if cs.len() == 0 {
        seq![]
    } else {
        proof {
            assert(decreases_to!(cs => cs.last()));
        }
        items_of(cs.drop_last()).push(fold_blocks(cs.last().children@))
    }
}

/// A list: a task list when it has items and all of them are task items.
pub open spec fn list_block(cs: Seq<MdNode>, ordered: bool) -> BlockV
    decreases cs, 1nat,
{
    let items = items_of(cs);
    if cs.len() > 0 && all_tasks(cs) {
        BlockV::TaskList(
            Seq::new(
                cs.len(),
                |i: int|
                    TaskV {
                        checked: cs[i].value->TaskItem_0 is Some,
                        content: first_paragraph(items[i]),
                    },
            ),
        )
    } else {
        BlockV::List { ordered, items }
    }
}

/// One block node added to the blocks read so far.
pub open spec fn block_step(out: Seq<BlockV>, c: MdNode) -> Seq<BlockV>
    decreases c, 1nat,
{
    match c.value {
        MdValue::Paragraph => out.push(BlockV::Paragraph(fold_inlines(c.children@))),
        MdValue::Heading(level) => out.push(
            BlockV::Heading { level, content: fold_inlines(c.children@) },
        ),
        MdValue::ThematicBreak => out.push(BlockV::ThematicBreak),
        MdValue::BlockQuote => out.push(BlockV::BlockQuote(fold_blocks(c.children@))),
        MdValue::CodeBlock { fenced, info, literal } => out.push(
            BlockV::CodeBlock { language: code_language(fenced, info@), code: code_text(literal@) },
        ),
        MdValue::List(kind) => out.push(list_block(c.children@, kind == ListKind::Ordered)),
        MdValue::Table(align) => out.push(
            BlockV::Table(
                TableV {
                    align: align@,
                    head: table_head(c.children@),
                    rows: table_body(c.children@),
                },
            ),
        ),
        MdValue::Alert { kind, custom_title } => out.push(
            BlockV::Macro(
                MacroV {
                    name: alert_name(kind),
                    params: alert_params(custom_title),
                    body: MacroBodyV::RichText(fold_blocks(c.children@)),
                },
            ),
        ),
        MdValue::HtmlBlock(h) => match spec_marker(h@) {
            MarkerV::Open(m) => out.push(BlockV::Macro(m)),
            MarkerV::Close(name) => close_macro(out, name),
            MarkerV::Raw(r) => out.push(BlockV::RawConfluence(r)),
            MarkerV::Other(r) => out.push(BlockV::RawConfluence(r)),
        },
        _ => out,
    }
}

/// The document that a CommonMark syntax tree reads as: the blocks of the
/// root's children.
pub open spec fn spec_from_tree(root: MdNode) -> Seq<BlockV> {
    fold_blocks(root.children@)
}

proof fn lemma_last_open(v: Seq<BlockV>, name: Seq<char>)
    ensures
        -1 <= last_open(v, name) < v.len(),
        last_open(v, name) >= 0 ==> is_open(v[last_open(v, name)], name),
    decreases v.len(),
{
    if v.len() > 0 && !is_open(v.last(), name) {
        lemma_last_open(v.drop_last(), name);
    }
}

proof fn lemma_items_of_len(cs: Seq<MdNode>)
    ensures
        items_of(cs).len() == cs.len(),
    decreases cs.len(),
{
    if cs.len() > 0 {
        lemma_items_of_len(cs.drop_last());
    }
}

// ---------------------------------------------------------------------------
// The walk
// ---------------------------------------------------------------------------

fn push_inline(out: &mut Vec<Inline>, i: Inline)
    ensures
        inlines_v(final(out)@) == inlines_v(old(out)@).push(inline_v(i)),
{
    proof {
        lemma_inlines_v_push(out@, i);
    }
    out.push(i);
}

fn push_block(out: &mut Vec<Block>, b: Block)
    ensures
        blocks_v(final(out)@) == blocks_v(old(out)@).push(block_v(b)),
{
    proof {
        lemma_blocks_v_push(out@, b);
    }
    out.push(b);
}

fn text_content_exec(cs: &Vec<MdNode>) -> (r: String)
    ensures
        r@ == text_content(cs@),
{
    let mut out: Vec<char> = Vec::new();
    push_text_content(&mut out, cs);
    assert(out@ =~= text_content(cs@));
    string_of(&out)
}

/// Appends the text of a run of nodes and their descendants.
fn push_text_content(out: &mut Vec<char>, cs: &Vec<MdNode>)
    ensures
        final(out)@ == old(out)@ + text_content(cs@),
    decreases cs, 0nat,
{
    let ghost start = out@;
    for i in 0..cs.len()
        invariant
            out@ == start + text_content(cs@.take(i as int)),
    {
        proof {
            assert(cs@.take(i + 1).drop_last() =~= cs@.take(i as int));
            assert(cs@.take(i + 1).last() == cs@[i as int]);
        }
        push_node_text(out, &cs[i]);
        proof {
            assert(out@ =~= start + text_content(cs@.take(i + 1)));
        }
    }
    proof {
        assert(cs@.take(cs.len() as int) =~= cs@);
    }
}

/// Appends the text of a node and its descendants.
fn push_node_text(out: &mut Vec<char>, c: &MdNode)
    ensures
        final(out)@ == old(out)@ + node_text(*c),
    decreases c, 1nat,
{
    let ghost start = out@;
    if let MdValue::Text(t) = &c.value {
        push_str(out, t.as_str());
    }
    push_text_content(out, &c.children);
    assert(out@ =~= start + node_text(*c));
}

/// The inlines of a run of inline nodes.
fn inlines_of(cs: &Vec<MdNode>) -> (r: Vec<Inline>)
    ensures
        inlines_v(r@) == fold_inlines(cs@),
    decreases cs, 0nat,
{
    let mut out: Vec<Inline> = Vec::new();
    for i in 0..cs.len()
        invariant
            inlines_v(out@) == fold_inlines(cs@.take(i as int)),
    {
        proof {
            assert(cs@.take(i + 1).drop_last() =~= cs@.take(i as int));
            assert(cs@.take(i + 1).last() == cs@[i as int]);
        }
        step_inline(&mut out, &cs[i]);
    }
    proof {
        assert(cs@.take(cs.len() as int) =~= cs@);
    }
    out
}

/// Adds what one inline node reads as.
fn step_inline(out: &mut Vec<Inline>, c: &MdNode)
    ensures
        inlines_v(final(out)@) == inline_step(inlines_v(old(out)@), *c),
    decreases c, 1nat,
{
    match &c.value {
        MdValue::Text(t) => push_inline(out, Inline::Text(t.clone())),
        MdValue::SoftBreak => push_inline(out, Inline::SoftBreak),
        MdValue::LineBreak => push_inline(out, Inline::HardBreak),
        MdValue::Code(t) => push_inline(out, Inline::Code(t.clone())),
        MdValue::Emph => push_inline(out, Inline::Emphasis(inlines_of(&c.children))),
        MdValue::Strong => push_inline(out, Inline::Strong(inlines_of(&c.children))),
        MdValue::Strikethrough => push_inline(out, Inline::Strikethrough(inlines_of(&c.children))),
        MdValue::Link { url, title } => {
            let target = LinkTarget::from_url(url.as_str());
            let title = if !title.as_str().is_empty() {
                Some(title.clone())
            } else {
                None
            };
            let content = inlines_of(&c.children);
            push_inline(out, Inline::Link { target, title, content });
        },
        MdValue::Image { url, .. } => {
            let source = ImageSource::from_url(url.as_str());
            let alt = text_content_exec(&c.children);
            push_inline(out, Inline::Image { source, alt });
        },
        MdValue::HtmlInline(h) => push_inline(out, Inline::from_html(h.as_str())),
        _ => {},
    }
}

fn code_language_exec(fenced: bool, info: &String) -> (r: Option<String>)
    ensures
        opt_v(r) == code_language(fenced, info@),
{
    if fenced && !info.as_str().is_empty() {
        let v = chars_of(info.as_str());
        let k = find_char_from(&v, ' ', 0);
        assert(v@.skip(0) =~= v@);
        let w = slice_chars(&v, 0, k);
        assert(w@ =~= v@.take(k as int));
        Some(string_of(&w))
    } else {
        None
    }
}

fn code_text_exec(literal: &String) -> (r: String)
    ensures
        r@ == code_text(literal@),
{
    let v = chars_of(literal.as_str());
    match strip_suffix(&v, &chars_of("\n")) {
        Some(w) => {
            assert(w@ =~= literal@.drop_last()) by {
                reveal_strlit("\n");
            }
            string_of(&w)
        },
        None => literal.clone(),
    }
}

fn alert_name_exec(k: AlertKind) -> (r: String)
    ensures
        r@ == alert_name(k),
{
    let name = match k {
        AlertKind::Note => "note",
        AlertKind::Tip => "tip",
        AlertKind::Important => "info",
        AlertKind::Warning | AlertKind::Caution => "warning",
    };
    string_of(&chars_of(name))
}

fn alert_params_exec(title: &Option<String>) -> (r: Vec<(String, String)>)
    ensures
        params_v(r@) == alert_params(*title),
{
    let mut ps: Vec<(String, String)> = Vec::new();
    if let Some(t) = title {
        if !t.as_str().is_empty() {
            ps.push((string_of(&chars_of("title")), t.clone()));
        }
    }
    assert(params_v(ps@) =~= alert_params(*title));
    ps
}

/// The cells of a table row.
fn cells_exec(cs: &Vec<MdNode>) -> (r: Vec<Vec<Inline>>)
    ensures
        cells_v(r@) == cells_of(cs@),
{
    let mut out: Vec<Vec<Inline>> = Vec::new();
    for i in 0..cs.len()
        invariant
            cells_v(out@) == cells_of(cs@.take(i as int)),
    {
        proof {
            assert(cs@.take(i + 1).drop_last() =~= cs@.take(i as int));
            assert(cs@.take(i + 1).last() == cs@[i as int]);
        }
        let cell = inlines_of(&cs[i].children);
        let ghost before = out@;
        out.push(cell);
        assert(out@.drop_last() =~= before);
    }
    proof {
        assert(cs@.take(cs.len() as int) =~= cs@);
    }
    out
}

/// A table: its alignments, the cells of its last header row, and the cells
/// of every other row.
fn table_exec(cs: &Vec<MdNode>, align: &Vec<Alignment>) -> (r: Table)
    ensures
        r.align@ == align@,
        cells_v(r.head@) == table_head(cs@),
        rows_v(r.rows@) == table_body(cs@),
{
    let mut head: Vec<Vec<Inline>> = Vec::new();
    let mut rows: Vec<Vec<Vec<Inline>>> = Vec::new();
    for i in 0..cs.len()
        invariant
            cells_v(head@) == table_head(cs@.take(i as int)),
            rows_v(rows@) == table_body(cs@.take(i as int)),
    {
        proof {
            assert(cs@.take(i + 1).drop_last() =~= cs@.take(i as int));
            assert(cs@.take(i + 1).last() == cs@[i as int]);
        }
        let cells = cells_exec(&cs[i].children);
        match &cs[i].value {
            MdValue::TableRow(true) => {
                head = cells;
            },
            _ => {
                let ghost before = rows@;
                rows.push(cells);
                assert(rows@.drop_last() =~= before);
            },
        }
    }
    proof {
        assert(cs@.take(cs.len() as int) =~= cs@);
    }
    let mut a: Vec<Alignment> = Vec::new();
    for i in 0..align.len()
        invariant
            a@ == align@.take(i as int),
    {
        a.push(align[i]);
        assert(a@ =~= align@.take(i + 1));
    }
    assert(a@ =~= align@);
    Table { align: a, head, rows }
}

/// True when `b` is a macro named `name` still waiting for its body.
fn is_open_exec(b: &Block, name: &String) -> (r: bool)
    ensures
        r == is_open(block_v(*b), name@),
{
    match b {
        Block::Macro(m) => m.name == *name && matches!(m.body, MacroBody::Empty),
        _ => false,
    }
}

/// A close marker: the blocks after the matching open macro become its body;
/// without one, nothing changes.
fn close_macro_exec(out: &mut Vec<Block>, name: &String)
    ensures
        blocks_v(final(out)@) == close_macro(blocks_v(old(out)@), name@),
{
    let ghost v = blocks_v(out@);
    proof {
        lemma_blocks_v_index(out@);
    }
    let mut i: usize = out.len();
    assert(v.take(i as int) =~= v);
    let mut found = false;
    while i > 0
        invariant_except_break
            i <= out.len(),
            !found,
            last_open(v, name@) == last_open(v.take(i as int), name@),
        invariant
            v == blocks_v(out@),
            v.len() == out@.len(),
            forall|j: int| 0 <= j < out@.len() ==> #[trigger] v[j] == block_v(out@[j]),
        ensures
            found ==> 0 < i <= out.len() && last_open(v, name@) == i - 1,
            !found ==> last_open(v, name@) == -1,
        decreases i,
    {
        proof {
            assert(v.take(i as int).drop_last() =~= v.take(i - 1));
            assert(v.take(i as int).last() == v[i - 1]);
        }
        if is_open_exec(&out[i - 1], name) {
            found = true;
            break;
        }
        i = i - 1;
    }
    if !found {
        return;
    }
    let idx = i - 1;
    proof {
        lemma_last_open(v, name@);
    }
    let body = out.split_off(idx + 1);
    let ghost prefix = out@;
    let last = out.pop();
    proof {
        assert(body@ =~= old(out)@.skip(idx + 1));
        assert(prefix.subrange(0, idx as int) =~= old(out)@.take(idx as int));
        lemma_blocks_v_index(body@);
        lemma_blocks_v_index(old(out)@.take(idx as int));
        assert(blocks_v(body@) =~= v.skip(idx + 1));
        assert(blocks_v(out@) =~= v.take(idx as int));
    }
    match last {
        Some(Block::Macro(mac)) => {
            let Macro { name: n, params, .. } = mac;
            push_block(out, Block::Macro(Macro { name: n, params, body: MacroBody::RichText(body) }));
        },
        _ => {
            assert(false);
        },
    }
}

/// The blocks of a run of block nodes.
fn blocks_of(cs: &Vec<MdNode>) -> (r: Vec<Block>)
    ensures
        blocks_v(r@) == fold_blocks(cs@),
    decreases cs, 0nat,
{
    let mut out: Vec<Block> = Vec::new();
    for i in 0..cs.len()
        invariant
            blocks_v(out@) == fold_blocks(cs@.take(i as int)),
    {
        proof {
            assert(cs@.take(i + 1).drop_last() =~= cs@.take(i as int));
            assert(cs@.take(i + 1).last() == cs@[i as int]);
        }
        step_block(&mut out, &cs[i]);
    }
    proof {
        assert(cs@.take(cs.len() as int) =~= cs@);
    }
    out
}

/// The inlines of the first block, when it is a paragraph.
fn first_paragraph_exec(bs: Vec<Block>) -> (r: Vec<Inline>)
    ensures
        inlines_v(r@) == first_paragraph(blocks_v(bs@)),
{
    proof {
        lemma_blocks_v_index(bs@);
    }
    if bs.len() == 0 {
        return Vec::new();
    }
    let mut bs = bs;
    match bs.remove(0) {
        Block::Paragraph(inlines) => inlines,
        _ => Vec::new(),
    }
}

/// A list: a task list when it has items and every item is a task item.
fn list_exec(cs: &Vec<MdNode>, ordered: bool) -> (r: Block)
    ensures
        block_v(r) == list_block(cs@, ordered),
    decreases cs, 1nat,
{
    let mut items: Vec<Vec<Block>> = Vec::new();
    let mut checked: Vec<bool> = Vec::new();
    let mut all = true;
    for i in 0..cs.len()
        invariant
            items_v(items@) == items_of(cs@.take(i as int)),
            checked@.len() == i,
            forall|j: int|
                0 <= j < i ==> (cs@[j].value is TaskItem ==> #[trigger] checked@[j] == (
                cs@[j].value->TaskItem_0 is Some)),
            all == forall|j: int| 0 <= j < i ==> #[trigger] cs@[j].value is TaskItem,
    {
        proof {
            assert(cs@.take(i + 1).drop_last() =~= cs@.take(i as int));
            assert(cs@.take(i + 1).last() == cs@[i as int]);
        }
        let bs = blocks_of(&cs[i].children);
        let ghost before = items@;
        items.push(bs);
        assert(items@.drop_last() =~= before);
        match &cs[i].value {
            MdValue::TaskItem(sym) => checked.push(sym.is_some()),
            _ => {
                all = false;
                checked.push(false);
            },
        }
    }
    proof {
        assert(cs@.take(cs.len() as int) =~= cs@);
        lemma_items_v_index(items@);
        lemma_items_of_len(cs@);
    }
    if cs.len() == 0 || !all {
        return Block::List { ordered, items };
    }
    let ghost all_items = items@;
    let ghost iv = items_of(cs@);
    let mut tasks: Vec<Task> = Vec::new();
    let mut k: usize = 0;
    while k < checked.len()
        invariant
            k <= checked.len() == cs@.len(),
            items@ == all_items.skip(k as int),
            all_items.len() == cs@.len(),
            iv == items_v(all_items),
            forall|j: int| 0 <= j < cs@.len() ==> #[trigger] iv[j] == blocks_v(all_items[j]@),
            forall|j: int|
                0 <= j < cs@.len() ==> #[trigger] checked@[j] == (cs@[j].value->TaskItem_0 is Some),
            tasks@.len() == k,
            forall|j: int|
                0 <= j < k ==> #[trigger] task_v(tasks@[j]) == (TaskV {
                    checked: cs@[j].value->TaskItem_0 is Some,
                    content: first_paragraph(iv[j]),
                }),
        decreases checked.len() - k,
    {
        let bs = items.remove(0);
        assert(items@ =~= all_items.skip(k + 1));
        let content = first_paragraph_exec(bs);
        tasks.push(Task { checked: checked[k], content });
        k += 1;
    }
    proof {
        lemma_tasks_v_index(tasks@);
        assert(tasks_v(tasks@) =~= Seq::new(
            cs@.len(),
            |i: int|
                TaskV {
                    checked: cs@[i].value->TaskItem_0 is Some,
                    content: first_paragraph(iv[i]),
                },
        ));
    }
    Block::TaskList(tasks)
}

/// Adds what one block node reads as.
fn step_block(out: &mut Vec<Block>, c: &MdNode)
    ensures
        blocks_v(final(out)@) == block_step(blocks_v(old(out)@), *c),
    decreases c, 1nat,
{
    match &c.value {
        MdValue::Paragraph => push_block(out, Block::Paragraph(inlines_of(&c.children))),
        MdValue::Heading(level) => push_block(
            out,
            Block::Heading { level: *level, content: inlines_of(&c.children) },
        ),
        MdValue::ThematicBreak => push_block(out, Block::ThematicBreak),
        MdValue::BlockQuote => push_block(out, Block::BlockQuote(blocks_of(&c.children))),
        MdValue::CodeBlock { fenced, info, literal } => {
            let language = code_language_exec(*fenced, info);
            let code = code_text_exec(literal);
            push_block(out, Block::CodeBlock { language, code });
        },
        MdValue::List(kind) => {
            let ordered = match kind {
                ListKind::Ordered => true,
                ListKind::Bullet => false,
            };
            push_block(out, list_exec(&c.children, ordered));
        },
        MdValue::Table(align) => push_block(out, Block::Table(table_exec(&c.children, align))),
        MdValue::Alert { kind, custom_title } => {
            let name = alert_name_exec(*kind);
            let params = alert_params_exec(custom_title);
            let body = MacroBody::RichText(blocks_of(&c.children));
            push_block(out, Block::Macro(Macro { name, params, body }));
        },
        MdValue::HtmlBlock(h) => match Marker::parse(h.as_str()) {
            Marker::Open(m) => push_block(out, Block::Macro(m)),
            Marker::Close(name) => close_macro_exec(out, &name),
            Marker::Raw(r) => push_block(out, Block::RawConfluence(r)),
            Marker::Other(r) => push_block(out, Block::RawConfluence(r)),
        },
        _ => {},
    }
}

impl Document {
    /// Reads the document out of a CommonMark syntax tree.
    pub fn from_markdown_tree(root: &MdNode) -> (d: Document)
        ensures
            d@ == spec_from_tree(*root),
    {
        Document { blocks: blocks_of(&root.children) }
    }

    /// Parses Markdown (CommonMark + GFM) source into a [`Document`].
    pub fn from_markdown(src: &str) -> (d: Document)
        ensures
            d@ == spec_from_tree(commonmark_tree(src@)),
    {
        let root = parse_commonmark(src);
        Document::from_markdown_tree(&root)
    }
}

} // verus!
