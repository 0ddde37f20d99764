//! Renderer: document tree -> Confluence Storage Format (XHTML).
use vstd::prelude::*;

use super::diagram::DiagramMacro;
use crate::ast::{
    block_v, blocks_v, cells_v, inline_v, inlines_v, items_v, lemma_items_v_index,
    lemma_push_injective, lemma_tasks_v_index, lemma_views_len, macro_v, params_v, rows_v, task_v,
    tasks_v, Block, Document, ImageSource, Inline, LinkTarget, Macro, MacroBody, Table, Task,
};
use crate::text::{decimal, join, push_decimal, push_str, string_of};

verus! {

// ---------------------------------------------------------------------------
// Escaping
// ---------------------------------------------------------------------------

/// XML text escaping of one character (`&`, `<`, `>`).
pub open spec fn escape_text_char(c: char) -> Seq<char> {
    if c == '&' {
        "&amp;"@
    } else if c == '<' {
        "&lt;"@
    } else if c == '>' {
        "&gt;"@
    } else {
        seq![c]
    }
}

/// XML attribute escaping of one character: text escaping plus `"`.
pub open spec fn escape_attr_char(c: char) -> Seq<char> {
    if c == '"' {
        "&quot;"@
    } else {
        escape_text_char(c)
    }
}

/// Escapes XML text content.
pub open spec fn escape_text(s: Seq<char>) -> Seq<char>
    decreases s.len(),
{
    if s.len() == 0 {
        seq![]
    } else {
        escape_text(s.drop_last()) + escape_text_char(s.last())
    }
}

/// Escapes an XML attribute value.
pub open spec fn escape_attr(s: Seq<char>) -> Seq<char>
    decreases s.len(),
{
    if s.len() == 0 {
        seq![]
    } else {
        escape_attr(s.drop_last()) + escape_attr_char(s.last())
    }
}

/// Appends `s` escaped as XML text (`attr == false`) or as an attribute value.
fn push_escaped(out: &mut Vec<char>, s: &str, attr: bool)
    ensures
        final(out)@ == old(out)@ + if attr {
            escape_attr(s@)
        } else {
            escape_text(s@)
        },
{
    let ghost start = out@;
    let ghost f = |t: Seq<char>| if attr { escape_attr(t) } else { escape_text(t) };
    for c in it: s.chars()
        invariant
            out@ == start + f(it.seq().take(it.index() as int)),
            f == (|t: Seq<char>| if attr { escape_attr(t) } else { escape_text(t) }),
    {
        let ghost before = it.seq().take(it.index() as int);
        proof {
            assert(it.seq().take(it.index() + 1).drop_last() =~= before);
        }
        if attr && c == '"' {
            push_str(out, "&quot;");
        } else if c == '&' {
            push_str(out, "&amp;");
        } else if c == '<' {
            push_str(out, "&lt;");
        } else if c == '>' {
            push_str(out, "&gt;");
        } else {
            out.push(c);
        }
        proof {
            let t = it.seq().take(it.index() + 1);
            assert(t.last() == c);
            assert(out@ =~= start + f(t));
        }
    }
    proof {
        assert(s@.take(s@.len() as int) =~= s@);
    }
}

// ---------------------------------------------------------------------------
// Specification of the rendering
// ---------------------------------------------------------------------------

/// Blocks join with newlines.
pub open spec fn cf_blocks(s: Seq<Block>) -> Seq<char>
    decreases s, 1nat,
{
    if s.len() == 0 {
        seq![]
    } else if s.len() == 1 {
        cf_block(s[0])
    } else {
        cf_blocks(s.drop_last()) + "\n"@ + cf_block(s.last())
    }
}

/// Inlines concatenate.
pub open spec fn cf_inlines(s: Seq<Inline>) -> Seq<char>
    decreases s, 1nat,
{
    if s.len() == 0 {
        seq![]
    } else {
        cf_inlines(s.drop_last()) + cf_inline(s.last())
    }
}

/// A list item's blocks rendered tight: a paragraph drops its `<p>` wrapper.
pub open spec fn cf_tight(s: Seq<Block>) -> Seq<char>
    decreases s, 1nat,
{
    if s.len() == 0 {
        seq![]
    } else {
        cf_tight(s.drop_last()) + match s.last() {
            Block::Paragraph(content) => cf_inlines(content@),
            other => cf_block(other),
        }
    }
}

pub open spec fn cf_items(s: Seq<Vec<Block>>) -> Seq<char>
    decreases s, 1nat,
{
    if s.len() == 0 {
        seq![]
    } else {
        cf_items(s.drop_last()) + "<li>"@ + cf_tight(s.last()@) + "</li>"@
    }
}

pub open spec fn cf_task(t: Task) -> Seq<char>
    decreases t, 1nat,
{
    "<ac:task><ac:task-status>"@ + (if t.checked {
        "complete"@
    } else {
        "incomplete"@
    }) + "</ac:task-status><ac:task-body>"@ + cf_inlines(t.content@) + "</ac:task-body></ac:task>"@
}

/// Tasks join with newlines.
pub open spec fn cf_tasks(s: Seq<Task>) -> Seq<char>
    decreases s, 1nat,
{
    if s.len() == 0 {
        seq![]
    } else if s.len() == 1 {
        cf_task(s[0])
    } else {
        cf_tasks(s.drop_last()) + "\n"@ + cf_task(s.last())
    }
}

/// The cells of one row, each wrapped in `<th>` or `<td>`.
pub open spec fn cf_cells(s: Seq<Vec<Inline>>, head: bool) -> Seq<char>
    decreases s, 1nat,
{
    if s.len() == 0 {
        seq![]
    } else {
        cf_cells(s.drop_last(), head) + (if head {
            "<th>"@
        } else {
            "<td>"@
        }) + cf_inlines(s.last()@) + (if head {
            "</th>"@
        } else {
            "</td>"@
        })
    }
}

pub open spec fn cf_row(cells: Seq<Vec<Inline>>, head: bool) -> Seq<char>
    decreases cells, 2nat,
{
    "<tr>"@ + cf_cells(cells, head) + "</tr>"@
}

/// Body rows, each preceded by a newline.
pub open spec fn cf_rows(s: Seq<Vec<Vec<Inline>>>) -> Seq<char>
    decreases s, 1nat,
{
    if s.len() == 0 {
        seq![]
    } else {
        cf_rows(s.drop_last()) + "\n"@ + cf_row(s.last()@, false)
    }
}

pub open spec fn cf_table(t: Table) -> Seq<char>
    decreases t, 3nat,
{
    "<table>\n<tbody>\n"@ + cf_row(t.head@, true) + cf_rows(t.rows@) + "\n</tbody>\n</table>"@
}

/// One `<ac:parameter>` per macro parameter.
pub open spec fn cf_params(s: Seq<(String, String)>) -> Seq<char>
    decreases s.len(),
{
    if s.len() == 0 {
        seq![]
    } else {
        cf_params(s.drop_last()) + "<ac:parameter ac:name=\""@ + escape_attr(s.last().0@)
            + "\">"@ + escape_text(s.last().1@) + "</ac:parameter>"@
    }
}

pub open spec fn cf_macro(m: Macro) -> Seq<char>
    decreases m, 1nat,
{
    "<ac:structured-macro ac:name=\""@ + escape_attr(m.name@) + "\">"@ + cf_params(m.params@)
        + match m.body {
        MacroBody::Empty => seq![],
        MacroBody::PlainText(text) => "<ac:plain-text-body><![CDATA["@ + text@
            + "]]></ac:plain-text-body>"@,
        MacroBody::RichText(blocks) => "<ac:rich-text-body>"@ + cf_blocks(blocks@)
            + "</ac:rich-text-body>"@,
    } + "</ac:structured-macro>"@
}

/// The fixed parameters of a diagram macro, each on its own line.
pub open spec fn cf_diagram_params(s: Seq<(Seq<char>, Seq<char>)>) -> Seq<char>
    decreases s.len(),
{
    if s.len() == 0 {
        seq![]
    } else {
        cf_diagram_params(s.drop_last()) + "\n<ac:parameter ac:name=\""@ + escape_attr(s.last().0)
            + "\">"@ + escape_text(s.last().1) + "</ac:parameter>"@
    }
}

pub open spec fn cf_code(language: Option<String>, code: Seq<char>) -> Seq<char> {
    let diagram = match language {
        Some(l) => DiagramMacro::spec_for_language(l@),
        None => None,
    };
    match diagram {
        Some(d) => "<ac:structured-macro ac:name=\""@ + d.spec_name() + "\" ac:schema-version=\""@
            + d.spec_schema_version() + "\">"@ + cf_diagram_params(d.spec_params())
            + "\n<ac:plain-text-body><![CDATA["@ + code + "]]></ac:plain-text-body>\n</ac:structured-macro>"@,
        None => "<ac:structured-macro ac:name=\"code\">"@ + match language {
            Some(l) => "\n<ac:parameter ac:name=\"language\">"@ + escape_text(l@)
                + "</ac:parameter>"@,
            None => seq![],
        } + "\n<ac:plain-text-body><![CDATA["@ + code + "]]></ac:plain-text-body>\n</ac:structured-macro>"@,
    }
}

pub open spec fn cf_block(b: Block) -> Seq<char>
    decreases b, 0nat,
{
    match b {
        Block::Heading { level, content } => "<h"@ + decimal(level as nat) + ">"@ + cf_inlines(
            content@,
        ) + "</h"@ + decimal(level as nat) + ">"@,
        Block::Paragraph(content) => "<p>"@ + cf_inlines(content@) + "</p>"@,
        Block::CodeBlock { language, code } => cf_code(language, code@),
        Block::BlockQuote(blocks) => "<blockquote>\n"@ + cf_blocks(blocks@) + "\n</blockquote>"@,
        Block::List { ordered, items } => (if ordered {
            "<ol>"@
        } else {
            "<ul>"@
        }) + cf_items(items@) + (if ordered {
            "</ol>"@
        } else {
            "</ul>"@
        }),
        Block::ThematicBreak => "<hr/>"@,
        Block::Table(t) => cf_table(t),
        Block::TaskList(tasks) => "<ac:task-list>\n"@ + cf_tasks(tasks@) + "\n</ac:task-list>"@,
        Block::Macro(m) => cf_macro(m),
        Block::RawConfluence(s) => s@,
    }
}

pub open spec fn cf_link(target: LinkTarget, title: Option<String>, body: Seq<char>) -> Seq<
    char,
> {
    match target {
        LinkTarget::External(url) => "<a href=\""@ + escape_attr(url@) + "\""@ + match title {
            Some(t) => " title=\""@ + escape_attr(t@) + "\""@,
            None => seq![],
        } + ">"@ + body + "</a>"@,
        LinkTarget::Page { space, title: page } => "<ac:link><ri:page ri:content-title=\""@
            + escape_attr(page@) + "\""@ + match space {
            Some(s) => " ri:space-key=\""@ + escape_attr(s@) + "\""@,
            None => seq![],
        } + "/><ac:link-body>"@ + body + "</ac:link-body></ac:link>"@,
        LinkTarget::Content(id) => "<ac:link><ri:content-entity ri:content-id=\""@ + escape_attr(
            id@,
        ) + "\"/><ac:link-body>"@ + body + "</ac:link-body></ac:link>"@,
        LinkTarget::Attachment(file) => "<ac:link><ri:attachment ri:filename=\""@ + escape_attr(
            file@,
        ) + "\"/><ac:link-body>"@ + body + "</ac:link-body></ac:link>"@,
        LinkTarget::Anchor(name) => "<ac:link ac:anchor=\""@ + escape_attr(name@)
            + "\"><ac:link-body>"@ + body + "</ac:link-body></ac:link>"@,
    }
}

pub open spec fn cf_image(source: ImageSource, alt: Seq<char>) -> Seq<char> {
    "<ac:image ac:alt=\""@ + escape_attr(alt) + match source {
        ImageSource::External(url) => "\"><ri:url ri:value=\""@ + escape_attr(url@),
        ImageSource::Attachment(file) => "\"><ri:attachment ri:filename=\""@ + escape_attr(
            file@,
        ),
    } + "\"/></ac:image>"@
}

pub open spec fn cf_inline(i: Inline) -> Seq<char>
    decreases i, 0nat,
{
    match i {
        Inline::Text(t) => escape_text(t@),
        Inline::Strong(c) => "<strong>"@ + cf_inlines(c@) + "</strong>"@,
        Inline::Emphasis(c) => "<em>"@ + cf_inlines(c@) + "</em>"@,
        Inline::Strikethrough(c) => "<span style=\"text-decoration: line-through;\">"@
            + cf_inlines(c@) + "</span>"@,
        Inline::Code(c) => "<code>"@ + escape_text(c@) + "</code>"@,
        Inline::Link { target, title, content } => cf_link(target, title, cf_inlines(content@)),
        Inline::Image { source, alt } => cf_image(source, alt@),
        Inline::SoftBreak => "\n"@,
        Inline::HardBreak => "<br/>"@,
        Inline::Macro(m) => cf_macro(m),
        Inline::RawConfluence(s) => s@,
    }
}

// ---------------------------------------------------------------------------
// Rendering
// ---------------------------------------------------------------------------

impl Document {
    /// The Confluence Storage Format of the document.
    pub open spec fn spec_to_confluence(self) -> Seq<char> {
        cf_blocks(self.blocks@)
    }

    /// Renders the document to Confluence Storage Format (XHTML).
    pub fn to_confluence(&self) -> (r: String)
        ensures
            r@ == self.spec_to_confluence(),
    {
        let mut out: Vec<char> = Vec::new();
        render_blocks(&self.blocks, &mut out);
        assert(out@ =~= cf_blocks(self.blocks@));
        string_of(&out)
    }
}

fn render_blocks(blocks: &Vec<Block>, out: &mut Vec<char>)
    ensures
        final(out)@ == old(out)@ + cf_blocks(blocks@),
    decreases blocks, 1nat,
{
    let ghost start = out@;
    for i in 0..blocks.len()
        invariant
            out@ == start + cf_blocks(blocks@.take(i as int)),
    {
        proof {
            assert(blocks@.take(i + 1).drop_last() =~= blocks@.take(i as int));
            assert(blocks@.take(i + 1).last() == blocks@[i as int]);
            if i == 0 {
                assert(blocks@.take(1)[0] == blocks@[0]);
            }
        }
        if i > 0 {
            push_str(out, "\n");
        }
        render_block(&blocks[i], out);
        proof {
            if i == 0 {
                assert(out@ =~= start + cf_blocks(blocks@.take(i + 1)));
            } else {
                assert(out@ =~= start + cf_blocks(blocks@.take(i + 1)));
            }
        }
    }
    proof {
        assert(blocks@.take(blocks.len() as int) =~= blocks@);
    }
}

fn render_inlines(inlines: &Vec<Inline>, out: &mut Vec<char>)
    ensures
        final(out)@ == old(out)@ + cf_inlines(inlines@),
    decreases inlines, 1nat,
{
    let ghost start = out@;
    for i in 0..inlines.len()
        invariant
            out@ == start + cf_inlines(inlines@.take(i as int)),
    {
        proof {
            assert(inlines@.take(i + 1).drop_last() =~= inlines@.take(i as int));
            assert(inlines@.take(i + 1).last() == inlines@[i as int]);
        }
        render_inline(&inlines[i], out);
        proof {
            assert(out@ =~= start + cf_inlines(inlines@.take(i + 1)));
        }
    }
    proof {
        assert(inlines@.take(inlines.len() as int) =~= inlines@);
    }
}

/// A list item rendered tight: a standalone paragraph drops its `<p>` wrapper
/// (Confluence emits `<li>text</li>`, not `<li><p>text</p></li>`).
fn render_tight(blocks: &Vec<Block>, out: &mut Vec<char>)
    ensures
        final(out)@ == old(out)@ + cf_tight(blocks@),
    decreases blocks, 1nat,
{
    let ghost start = out@;
    for i in 0..blocks.len()
        invariant
            out@ == start + cf_tight(blocks@.take(i as int)),
    {
        proof {
            assert(blocks@.take(i + 1).drop_last() =~= blocks@.take(i as int));
            assert(blocks@.take(i + 1).last() == blocks@[i as int]);
        }
        match &blocks[i] {
            Block::Paragraph(content) => render_inlines(content, out),
            other => render_block(other, out),
        }
        proof {
            assert(out@ =~= start + cf_tight(blocks@.take(i + 1)));
        }
    }
    proof {
        assert(blocks@.take(blocks.len() as int) =~= blocks@);
    }
}

fn render_task(task: &Task, out: &mut Vec<char>)
    ensures
        final(out)@ == old(out)@ + cf_task(*task),
    decreases task, 1nat,
{
    push_str(out, "<ac:task><ac:task-status>");
    if task.checked {
        push_str(out, "complete");
    } else {
        push_str(out, "incomplete");
    }
    push_str(out, "</ac:task-status><ac:task-body>");
    render_inlines(&task.content, out);
    push_str(out, "</ac:task-body></ac:task>");
    assert(out@ =~= old(out)@ + cf_task(*task));
}

fn render_cells(cells: &Vec<Vec<Inline>>, head: bool, out: &mut Vec<char>)
    ensures
        final(out)@ == old(out)@ + cf_row(cells@, head),
    decreases cells, 2nat,
{
    let ghost start = out@;
    push_str(out, "<tr>");
    for i in 0..cells.len()
        invariant
            out@ == start + "<tr>"@ + cf_cells(cells@.take(i as int), head),
    {
        proof {
            assert(cells@.take(i + 1).drop_last() =~= cells@.take(i as int));
            assert(cells@.take(i + 1).last() == cells@[i as int]);
        }
        if head {
            push_str(out, "<th>");
        } else {
            push_str(out, "<td>");
        }
        render_inlines(&cells[i], out);
        if head {
            push_str(out, "</th>");
        } else {
            push_str(out, "</td>");
        }
        proof {
            assert(out@ =~= start + "<tr>"@ + cf_cells(cells@.take(i + 1), head));
        }
    }
    proof {
        assert(cells@.take(cells.len() as int) =~= cells@);
    }
    push_str(out, "</tr>");
    assert(out@ =~= start + cf_row(cells@, head));
}

fn render_rows(rows: &Vec<Vec<Vec<Inline>>>, out: &mut Vec<char>)
    ensures
        final(out)@ == old(out)@ + cf_rows(rows@),
    decreases rows, 1nat,
{
    let ghost start = out@;
    for r in 0..rows.len()
        invariant
            out@ == start + cf_rows(rows@.take(r as int)),
    {
        proof {
            assert(rows@.take(r + 1).drop_last() =~= rows@.take(r as int));
            assert(rows@.take(r + 1).last() == rows@[r as int]);
        }
        push_str(out, "\n");
        render_cells(&rows[r], false, out);
        proof {
            assert(out@ =~= start + cf_rows(rows@.take(r + 1)));
        }
    }
    proof {
        assert(rows@.take(rows.len() as int) =~= rows@);
    }
}

fn render_table(t: &Table, out: &mut Vec<char>)
    ensures
        final(out)@ == old(out)@ + cf_table(*t),
    decreases t, 3nat,
{
    push_str(out, "<table>\n<tbody>\n");
    render_cells(&t.head, true, out);
    render_rows(&t.rows, out);
    push_str(out, "\n</tbody>\n</table>");
    assert(out@ =~= old(out)@ + cf_table(*t));
}

fn render_macro(m: &Macro, out: &mut Vec<char>)
    ensures
        final(out)@ == old(out)@ + cf_macro(*m),
    decreases m, 1nat,
{
    let ghost start = out@;
    push_str(out, "<ac:structured-macro ac:name=\"");
    push_escaped(out, m.name.as_str(), true);
    push_str(out, "\">");
    let ghost mid = out@;
    for i in 0..m.params.len()
        invariant
            out@ == mid + cf_params(m.params@.take(i as int)),
    {
        proof {
            assert(m.params@.take(i + 1).drop_last() =~= m.params@.take(i as int));
            assert(m.params@.take(i + 1).last() == m.params@[i as int]);
        }
        push_str(out, "<ac:parameter ac:name=\"");
        push_escaped(out, m.params[i].0.as_str(), true);
        push_str(out, "\">");
        push_escaped(out, m.params[i].1.as_str(), false);
        push_str(out, "</ac:parameter>");
        proof {
            assert(out@ =~= mid + cf_params(m.params@.take(i + 1)));
        }
    }
    proof {
        assert(m.params@.take(m.params.len() as int) =~= m.params@);
    }
    match &m.body {
        MacroBody::Empty => {},
        MacroBody::PlainText(text) => {
            push_str(out, "<ac:plain-text-body><![CDATA[");
            push_str(out, text.as_str());
            push_str(out, "]]></ac:plain-text-body>");
        },
        MacroBody::RichText(blocks) => {
            push_str(out, "<ac:rich-text-body>");
            render_blocks(blocks, out);
            push_str(out, "</ac:rich-text-body>");
        },
    }
    push_str(out, "</ac:structured-macro>");
    assert(out@ =~= start + cf_macro(*m));
}

fn render_code(language: &Option<String>, code: &String, out: &mut Vec<char>)
    ensures
        final(out)@ == old(out)@ + cf_code(*language, code@),
{
    let ghost start = out@;
    let diagram = match language {
        Some(l) => DiagramMacro::for_language(l.as_str()),
        None => None,
    };
    match diagram {
        Some(d) => {
            push_str(out, "<ac:structured-macro ac:name=\"");
            push_str(out, d.name());
            push_str(out, "\" ac:schema-version=\"");
            push_str(out, d.schema_version());
            push_str(out, "\">");
            let params = d.params();
            let ghost mid = out@;
            for i in 0..params.len()
                invariant
                    out@ == mid + cf_diagram_params(d.spec_params().take(i as int)),
                    params@.len() == d.spec_params().len(),
                    forall|j: int|
                        0 <= j < params@.len() ==> (#[trigger] params@[j]).0@
                            == d.spec_params()[j].0 && params@[j].1@ == d.spec_params()[j].1,
            {
                proof {
                    assert(d.spec_params().take(i + 1).drop_last() =~= d.spec_params().take(
                        i as int,
                    ));
                    assert(d.spec_params().take(i + 1).last() == d.spec_params()[i as int]);
                    assert(params@[i as int].0@ == d.spec_params()[i as int].0);
                }
                push_str(out, "\n<ac:parameter ac:name=\"");
                push_escaped(out, params[i].0, true);
                push_str(out, "\">");
                push_escaped(out, params[i].1, false);
                push_str(out, "</ac:parameter>");
                proof {
                    assert(out@ =~= mid + cf_diagram_params(d.spec_params().take(i + 1)));
                }
            }
            proof {
                assert(d.spec_params().take(params.len() as int) =~= d.spec_params());
            }
            push_str(out, "\n<ac:plain-text-body><![CDATA[");
            push_str(out, code.as_str());
            push_str(out, "]]></ac:plain-text-body>\n</ac:structured-macro>");
        },
        None => {
            push_str(out, "<ac:structured-macro ac:name=\"code\">");
            match language {
                Some(l) => {
                    push_str(out, "\n<ac:parameter ac:name=\"language\">");
                    push_escaped(out, l.as_str(), false);
                    push_str(out, "</ac:parameter>");
                },
                None => {},
            }
            push_str(out, "\n<ac:plain-text-body><![CDATA[");
            push_str(out, code.as_str());
            push_str(out, "]]></ac:plain-text-body>\n</ac:structured-macro>");
        },
    }
    assert(out@ =~= start + cf_code(*language, code@));
}

fn render_list(ordered: bool, items: &Vec<Vec<Block>>, out: &mut Vec<char>)
    ensures
        final(out)@ == old(out)@ + (if ordered {
            "<ol>"@
        } else {
            "<ul>"@
        }) + cf_items(items@) + (if ordered {
            "</ol>"@
        } else {
            "</ul>"@
        }),
    decreases items, 1nat,
{
    let ghost start = out@;
    if ordered {
        push_str(out, "<ol>");
    } else {
        push_str(out, "<ul>");
    }
    let ghost mid = out@;
    for i in 0..items.len()
        invariant
            out@ == mid + cf_items(items@.take(i as int)),
    {
        proof {
            assert(items@.take(i + 1).drop_last() =~= items@.take(i as int));
            assert(items@.take(i + 1).last() == items@[i as int]);
        }
        push_str(out, "<li>");
        render_tight(&items[i], out);
        push_str(out, "</li>");
        proof {
            assert(out@ =~= mid + cf_items(items@.take(i + 1)));
        }
    }
    proof {
        assert(items@.take(items.len() as int) =~= items@);
    }
    if ordered {
        push_str(out, "</ol>");
    } else {
        push_str(out, "</ul>");
    }
    assert(out@ =~= start + (if ordered {
        "<ol>"@
    } else {
        "<ul>"@
    }) + cf_items(items@) + (if ordered {
        "</ol>"@
    } else {
        "</ul>"@
    }));
}

fn render_task_list(tasks: &Vec<Task>, out: &mut Vec<char>)
    ensures
        final(out)@ == old(out)@ + "<ac:task-list>\n"@ + cf_tasks(tasks@) + "\n</ac:task-list>"@,
    decreases tasks, 1nat,
{
    let ghost start = out@;
    push_str(out, "<ac:task-list>\n");
    let ghost mid = out@;
    for i in 0..tasks.len()
        invariant
            out@ == mid + cf_tasks(tasks@.take(i as int)),
    {
        proof {
            assert(tasks@.take(i + 1).drop_last() =~= tasks@.take(i as int));
            assert(tasks@.take(i + 1).last() == tasks@[i as int]);
            if i == 0 {
                assert(tasks@.take(1)[0] == tasks@[0]);
            }
        }
        if i > 0 {
            push_str(out, "\n");
        }
        render_task(&tasks[i], out);
        proof {
            assert(out@ =~= mid + cf_tasks(tasks@.take(i + 1)));
        }
    }
    proof {
        assert(tasks@.take(tasks.len() as int) =~= tasks@);
    }
    push_str(out, "\n</ac:task-list>");
    assert(out@ =~= start + "<ac:task-list>\n"@ + cf_tasks(tasks@) + "\n</ac:task-list>"@);
}

fn render_block(block: &Block, out: &mut Vec<char>)
    ensures
        final(out)@ == old(out)@ + cf_block(*block),
    decreases block, 0nat,
{
    let ghost start = out@;
    match block {
        Block::Heading { level, content } => {
            push_str(out, "<h");
            push_decimal(out, *level as usize);
            push_str(out, ">");
            render_inlines(content, out);
            push_str(out, "</h");
            push_decimal(out, *level as usize);
            push_str(out, ">");
            assert(out@ =~= start + cf_block(*block));
        },
        Block::Paragraph(content) => {
            push_str(out, "<p>");
            render_inlines(content, out);
            push_str(out, "</p>");
            assert(out@ =~= start + cf_block(*block));
        },
        Block::CodeBlock { language, code } => render_code(language, code, out),
        Block::BlockQuote(blocks) => {
            push_str(out, "<blockquote>\n");
            render_blocks(blocks, out);
            push_str(out, "\n</blockquote>");
            assert(out@ =~= start + cf_block(*block));
        },
        Block::List { ordered, items } => render_list(*ordered, items, out),
        Block::ThematicBreak => push_str(out, "<hr/>"),
        Block::Table(t) => render_table(t, out),
        Block::TaskList(tasks) => render_task_list(tasks, out),
        Block::Macro(m) => render_macro(m, out),
        Block::RawConfluence(s) => push_str(out, s.as_str()),
    }
}

fn render_link(target: &LinkTarget, title: &Option<String>, content: &Vec<Inline>, out: &mut Vec<
    char,
>)
    ensures
        final(out)@ == old(out)@ + cf_link(*target, *title, cf_inlines(content@)),
    decreases content, 2nat,
{
    let ghost start = out@;
    match target {
        LinkTarget::External(url) => {
            push_str(out, "<a href=\"");
            push_escaped(out, url.as_str(), true);
            push_str(out, "\"");
            match title {
                Some(t) => {
                    push_str(out, " title=\"");
                    push_escaped(out, t.as_str(), true);
                    push_str(out, "\"");
                },
                None => {},
            }
            push_str(out, ">");
            render_inlines(content, out);
            push_str(out, "</a>");
            assert(out@ =~= start + cf_link(*target, *title, cf_inlines(content@)));
        },
        LinkTarget::Page { space, title: page } => {
            push_str(out, "<ac:link><ri:page ri:content-title=\"");
            push_escaped(out, page.as_str(), true);
            push_str(out, "\"");
            match space {
                Some(s) => {
                    push_str(out, " ri:space-key=\"");
                    push_escaped(out, s.as_str(), true);
                    push_str(out, "\"");
                },
                None => {},
            }
            push_str(out, "/><ac:link-body>");
            render_inlines(content, out);
            push_str(out, "</ac:link-body></ac:link>");
            assert(out@ =~= start + cf_link(*target, *title, cf_inlines(content@)));
        },
        LinkTarget::Content(id) => {
            push_str(out, "<ac:link><ri:content-entity ri:content-id=\"");
            push_escaped(out, id.as_str(), true);
            push_str(out, "\"/><ac:link-body>");
            render_inlines(content, out);
            push_str(out, "</ac:link-body></ac:link>");
            assert(out@ =~= start + cf_link(*target, *title, cf_inlines(content@)));
        },
        LinkTarget::Attachment(file) => {
            push_str(out, "<ac:link><ri:attachment ri:filename=\"");
            push_escaped(out, file.as_str(), true);
            push_str(out, "\"/><ac:link-body>");
            render_inlines(content, out);
            push_str(out, "</ac:link-body></ac:link>");
            assert(out@ =~= start + cf_link(*target, *title, cf_inlines(content@)));
        },
        LinkTarget::Anchor(name) => {
            push_str(out, "<ac:link ac:anchor=\"");
            push_escaped(out, name.as_str(), true);
            push_str(out, "\"><ac:link-body>");
            render_inlines(content, out);
            push_str(out, "</ac:link-body></ac:link>");
            assert(out@ =~= start + cf_link(*target, *title, cf_inlines(content@)));
        },
    }
}

fn render_image(source: &ImageSource, alt: &String, out: &mut Vec<char>)
    ensures
        final(out)@ == old(out)@ + cf_image(*source, alt@),
{
    let ghost start = out@;
    push_str(out, "<ac:image ac:alt=\"");
    push_escaped(out, alt.as_str(), true);
    match source {
        ImageSource::External(url) => {
            push_str(out, "\"><ri:url ri:value=\"");
            push_escaped(out, url.as_str(), true);
        },
        ImageSource::Attachment(file) => {
            push_str(out, "\"><ri:attachment ri:filename=\"");
            push_escaped(out, file.as_str(), true);
        },
    }
    push_str(out, "\"/></ac:image>");
    assert(out@ =~= start + cf_image(*source, alt@));
}

fn render_inline(inline: &Inline, out: &mut Vec<char>)
    ensures
        final(out)@ == old(out)@ + cf_inline(*inline),
    decreases inline, 0nat,
{
    let ghost start = out@;
    match inline {
        Inline::Text(t) => push_escaped(out, t.as_str(), false),
        Inline::Strong(c) => {
            push_str(out, "<strong>");
            render_inlines(c, out);
            push_str(out, "</strong>");
        },
        Inline::Emphasis(c) => {
            push_str(out, "<em>");
            render_inlines(c, out);
            push_str(out, "</em>");
        },
        Inline::Strikethrough(c) => {
            push_str(out, "<span style=\"text-decoration: line-through;\">");
            render_inlines(c, out);
            push_str(out, "</span>");
        },
        Inline::Code(c) => {
            push_str(out, "<code>");
            push_escaped(out, c.as_str(), false);
            push_str(out, "</code>");
        },
        Inline::Link { target, title, content } => render_link(target, title, content, out),
        Inline::Image { source, alt } => render_image(source, alt, out),
        Inline::SoftBreak => push_str(out, "\n"),
        Inline::HardBreak => push_str(out, "<br/>"),
        Inline::Macro(m) => render_macro(m, out),
        Inline::RawConfluence(s) => push_str(out, s.as_str()),
    }
    assert(out@ =~= start + cf_inline(*inline));
}

/// Storage format has no per-column alignment: two tables that differ only
/// in their alignments render the same.
pub proof fn lemma_table_alignment_dropped(t1: Table, t2: Table)
    requires
        t1.head@ == t2.head@,
        t1.rows@ == t2.rows@,
    ensures
        cf_block(Block::Table(t1)) == cf_block(Block::Table(t2)),
{
}

/// A link title is written only for an external link (as its `title`
/// attribute); every other target renders the same with or without one.
pub proof fn lemma_link_title_external_only(target: LinkTarget, t: String, content: Vec<Inline>)
    ensures
        !(target is External) ==> cf_inline(Inline::Link { target, title: Some(t), content })
            == cf_inline(Inline::Link { target, title: None, content }),
        target matches LinkTarget::External(u) ==> cf_inline(
            Inline::Link { target, title: Some(t), content },
        ) == "<a href=\""@ + escape_attr(u@) + "\" title=\""@ + escape_attr(t@) + "\">"@
            + cf_inlines(content@) + "</a>"@,
{
    if let LinkTarget::External(u) = target {
        reveal_strlit("\" title=\"");
        reveal_strlit("\"");
        reveal_strlit(" title=\"");
        reveal_strlit("\">");
        reveal_strlit(">");
        assert(cf_inline(Inline::Link { target, title: Some(t), content }) =~= "<a href=\""@
            + escape_attr(u@) + "\" title=\""@ + escape_attr(t@) + "\">"@ + cf_inlines(content@)
            + "</a>"@);
    }
}

/// Blocks render one by one, joined by line breaks: a document renders as
/// the documents of its single blocks, joined with `\n`.
pub proof fn lemma_to_confluence_blockwise(d: Document, singles: Seq<Document>)
    requires
        singles.len() == d.blocks@.len(),
        forall|i: int| 0 <= i < singles.len() ==> #[trigger] singles[i].blocks@ == seq![d.blocks@[i]],
    ensures
        d.spec_to_confluence() == join(
            Seq::new(singles.len(), |i: int| singles[i].spec_to_confluence()),
            "\n"@,
        ),
{
    lemma_cf_blocks_join(d.blocks@);
    assert forall|i: int| 0 <= i < singles.len() implies #[trigger] singles[i].spec_to_confluence()
        == cf_block(d.blocks@[i]) by {
        assert(singles[i].blocks@.len() == 1);
    }
    assert(Seq::new(singles.len(), |i: int| singles[i].spec_to_confluence()) =~= Seq::new(
        d.blocks@.len(),
        |i: int| cf_block(d.blocks@[i]),
    ));
}

/// Preserved markup is written back unchanged.
pub proof fn lemma_raw_confluence_verbatim(d: Document, markup: String)
    requires
        d.blocks@ == seq![Block::RawConfluence(markup)],
    ensures
        d.spec_to_confluence() == markup@,
{
    assert(d.blocks@[0] == Block::RawConfluence(markup));
    assert(d.blocks@.len() == 1);
    assert(cf_block(Block::RawConfluence(markup)) == markup@);
    assert(cf_blocks(d.blocks@) == cf_block(d.blocks@[0]));
}

proof fn lemma_cf_blocks_join(s: Seq<Block>)
    ensures
        cf_blocks(s) == join(Seq::new(s.len(), |i: int| cf_block(s[i])), "\n"@),
    decreases s.len(),
{
    let parts = Seq::new(s.len(), |i: int| cf_block(s[i]));
    if s.len() > 1 {
        lemma_cf_blocks_join(s.drop_last());
        assert(parts.drop_last() =~= Seq::new(
            s.drop_last().len(),
            |i: int| cf_block(s.drop_last()[i]),
        ));
    }
}

// ---------------------------------------------------------------------------
// The rendering reads the document's content only
// ---------------------------------------------------------------------------

proof fn lemma_cf_params_view(p1: Seq<(String, String)>, p2: Seq<(String, String)>)
    requires
        params_v(p1) == params_v(p2),
    ensures
        cf_params(p1) == cf_params(p2),
    decreases p1.len(),
{
    assert(params_v(p1).len() == p1.len() && params_v(p2).len() == p2.len());
    if p1.len() > 0 {
        assert(params_v(p1).last() == params_v(p2).last());
        assert(params_v(p1.drop_last()) =~= params_v(p1).drop_last());
        assert(params_v(p2.drop_last()) =~= params_v(p2).drop_last());
        lemma_cf_params_view(p1.drop_last(), p2.drop_last());
    }
}

proof fn lemma_cf_inlines_view(s1: Seq<Inline>, s2: Seq<Inline>)
    requires
        inlines_v(s1) == inlines_v(s2),
    ensures
        cf_inlines(s1) == cf_inlines(s2),
    decreases s1, 1nat,
{
    lemma_views_len(Seq::<Block>::empty(), s1);
    lemma_views_len(Seq::<Block>::empty(), s2);
    if s1.len() > 0 {
        lemma_push_injective(
            inlines_v(s1.drop_last()),
            inline_v(s1.last()),
            inlines_v(s2.drop_last()),
            inline_v(s2.last()),
        );
        lemma_cf_inlines_view(s1.drop_last(), s2.drop_last());
        lemma_cf_inline_view(s1.last(), s2.last());
    }
}

proof fn lemma_cf_inline_view(i1: Inline, i2: Inline)
    requires
        inline_v(i1) == inline_v(i2),
    ensures
        cf_inline(i1) == cf_inline(i2),
    decreases i1, 0nat,
{
    match (i1, i2) {
        (Inline::Strong(c1), Inline::Strong(c2)) => lemma_cf_inlines_view(c1@, c2@),
        (Inline::Emphasis(c1), Inline::Emphasis(c2)) => lemma_cf_inlines_view(c1@, c2@),
        (Inline::Strikethrough(c1), Inline::Strikethrough(c2)) => lemma_cf_inlines_view(c1@, c2@),
        (
            Inline::Link { target: t1, title: l1, content: c1 },
            Inline::Link { target: t2, title: l2, content: c2 },
        ) => {
            lemma_cf_inlines_view(c1@, c2@);
            assert(cf_link(t1, l1, cf_inlines(c1@)) == cf_link(t2, l2, cf_inlines(c2@)));
        },
        (Inline::Image { source: s1, alt: a1 }, Inline::Image { source: s2, alt: a2 }) => {
            assert(cf_image(s1, a1@) == cf_image(s2, a2@));
        },
        (Inline::Macro(m1), Inline::Macro(m2)) => lemma_cf_macro_view(m1, m2),
        _ => {},
    }
}

proof fn lemma_cf_macro_view(m1: Macro, m2: Macro)
    requires
        macro_v(m1) == macro_v(m2),
    ensures
        cf_macro(m1) == cf_macro(m2),
    decreases m1, 0nat,
{
    lemma_cf_params_view(m1.params@, m2.params@);
    match (m1.body, m2.body) {
        (MacroBody::RichText(b1), MacroBody::RichText(b2)) => lemma_cf_blocks_view(b1@, b2@),
        _ => {},
    }
}

proof fn lemma_cf_blocks_view(s1: Seq<Block>, s2: Seq<Block>)
    requires
        blocks_v(s1) == blocks_v(s2),
    ensures
        cf_blocks(s1) == cf_blocks(s2),
        cf_tight(s1) == cf_tight(s2),
    decreases s1, 1nat,
{
    lemma_views_len(s1, Seq::<Inline>::empty());
    lemma_views_len(s2, Seq::<Inline>::empty());
    if s1.len() > 0 {
        lemma_push_injective(
            blocks_v(s1.drop_last()),
            block_v(s1.last()),
            blocks_v(s2.drop_last()),
            block_v(s2.last()),
        );
        lemma_cf_blocks_view(s1.drop_last(), s2.drop_last());
        lemma_cf_block_view(s1.last(), s2.last());
        match (s1.last(), s2.last()) {
            (Block::Paragraph(c1), Block::Paragraph(c2)) => lemma_cf_inlines_view(c1@, c2@),
            _ => {},
        }
    }
}

proof fn lemma_cf_items_view(s1: Seq<Vec<Block>>, s2: Seq<Vec<Block>>)
    requires
        items_v(s1) == items_v(s2),
    ensures
        cf_items(s1) == cf_items(s2),
    decreases s1, 1nat,
{
    lemma_items_v_index(s1);
    lemma_items_v_index(s2);
    if s1.len() > 0 {
        lemma_push_injective(
            items_v(s1.drop_last()),
            blocks_v(s1.last()@),
            items_v(s2.drop_last()),
            blocks_v(s2.last()@),
        );
        lemma_cf_items_view(s1.drop_last(), s2.drop_last());
        lemma_cf_blocks_view(s1.last()@, s2.last()@);
    }
}

proof fn lemma_cf_tasks_view(s1: Seq<Task>, s2: Seq<Task>)
    requires
        tasks_v(s1) == tasks_v(s2),
    ensures
        cf_tasks(s1) == cf_tasks(s2),
    decreases s1, 1nat,
{
    lemma_tasks_v_index(s1);
    lemma_tasks_v_index(s2);
    if s1.len() > 0 {
        lemma_push_injective(
            tasks_v(s1.drop_last()),
            task_v(s1.last()),
            tasks_v(s2.drop_last()),
            task_v(s2.last()),
        );
        lemma_cf_tasks_view(s1.drop_last(), s2.drop_last());
        lemma_cf_inlines_view(s1.last().content@, s2.last().content@);
        assert(cf_task(s1.last()) == cf_task(s2.last()));
    }
}

proof fn lemma_cf_cells_view(s1: Seq<Vec<Inline>>, s2: Seq<Vec<Inline>>, head: bool)
    requires
        cells_v(s1) == cells_v(s2),
    ensures
        cf_cells(s1, head) == cf_cells(s2, head),
    decreases s1, 1nat,
{
    if s1.len() > 0 {
        assert(cells_v(s1) == cells_v(s1.drop_last()).push(inlines_v(s1.last()@)));
    }
    if s2.len() > 0 {
        assert(cells_v(s2) == cells_v(s2.drop_last()).push(inlines_v(s2.last()@)));
    }
    if s1.len() > 0 && s2.len() > 0 {
        lemma_push_injective(
            cells_v(s1.drop_last()),
            inlines_v(s1.last()@),
            cells_v(s2.drop_last()),
            inlines_v(s2.last()@),
        );
        lemma_cf_cells_view(s1.drop_last(), s2.drop_last(), head);
        lemma_cf_inlines_view(s1.last()@, s2.last()@);
    } else if s1.len() == 0 && s2.len() == 0 {
    } else {
        assert(cells_v(s1).len() != cells_v(s2).len());
    }
}

proof fn lemma_cf_rows_view(s1: Seq<Vec<Vec<Inline>>>, s2: Seq<Vec<Vec<Inline>>>)
    requires
        rows_v(s1) == rows_v(s2),
    ensures
        cf_rows(s1) == cf_rows(s2),
    decreases s1, 1nat,
{
    if s1.len() > 0 {
        assert(rows_v(s1) == rows_v(s1.drop_last()).push(cells_v(s1.last()@)));
    }
    if s2.len() > 0 {
        assert(rows_v(s2) == rows_v(s2.drop_last()).push(cells_v(s2.last()@)));
    }
    if s1.len() > 0 && s2.len() > 0 {
        lemma_push_injective(
            rows_v(s1.drop_last()),
            cells_v(s1.last()@),
            rows_v(s2.drop_last()),
            cells_v(s2.last()@),
        );
        lemma_cf_rows_view(s1.drop_last(), s2.drop_last());
        lemma_cf_cells_view(s1.last()@, s2.last()@, false);
        assert(cf_row(s1.last()@, false) == cf_row(s2.last()@, false));
    } else if s1.len() == 0 && s2.len() == 0 {
    } else {
        assert(rows_v(s1).len() != rows_v(s2).len());
    }
}

#[verifier::spinoff_prover]
proof fn lemma_cf_block_view(b1: Block, b2: Block)
    requires
        block_v(b1) == block_v(b2),
    ensures
        cf_block(b1) == cf_block(b2),
    decreases b1, 0nat,
{
    match (b1, b2) {
        (Block::Heading { content: c1, .. }, Block::Heading { content: c2, .. }) => {
            lemma_cf_inlines_view(c1@, c2@);
        },
        (Block::Paragraph(c1), Block::Paragraph(c2)) => lemma_cf_inlines_view(c1@, c2@),
        (Block::CodeBlock { language: l1, code: c1 }, Block::CodeBlock { language: l2, code: c2 }) => {
            assert(cf_code(l1, c1@) == cf_code(l2, c2@));
        },
        (Block::BlockQuote(c1), Block::BlockQuote(c2)) => lemma_cf_blocks_view(c1@, c2@),
        (Block::List { items: c1, .. }, Block::List { items: c2, .. }) => {
            lemma_cf_items_view(c1@, c2@);
        },
        (Block::Table(t1), Block::Table(t2)) => {
            lemma_cf_cells_view(t1.head@, t2.head@, true);
            lemma_cf_rows_view(t1.rows@, t2.rows@);
            assert(cf_row(t1.head@, true) == cf_row(t2.head@, true));
            assert(cf_table(t1) == cf_table(t2));
        },
        (Block::TaskList(c1), Block::TaskList(c2)) => lemma_cf_tasks_view(c1@, c2@),
        (Block::Macro(m1), Block::Macro(m2)) => lemma_cf_macro_view(m1, m2),
        _ => {},
    }
}

/// The storage format of a document depends on its content only: documents
/// with the same view render the same.
pub proof fn lemma_to_confluence_view(d1: Document, d2: Document)
    requires
        d1@ == d2@,
    ensures
        d1.spec_to_confluence() == d2.spec_to_confluence(),
{
    lemma_cf_blocks_view(d1.blocks@, d2.blocks@);
}

} // verus!
