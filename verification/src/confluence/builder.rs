//! The stack machine that folds XML events into the document tree: one frame
//! per open element, each collecting its children.
use vstd::prelude::*;

use super::diagram::DiagramMacro;
use super::xml::XmlTag;
use crate::ast::{
    block_v, blocks_v, body_v, cells_v, image_source_v, inline_v, inlines_v, items_v,
    lemma_blocks_v_push, lemma_inlines_v_index, lemma_inlines_v_push, lemma_views_len,
    link_target_v, opt_v, params_v, rows_v, task_v, tasks_v, Alignment, Block, BlockV, Document,
    ImageSource, ImageSourceV, Inline, InlineV, LinkTarget, LinkTargetV, Macro, MacroBody,
    MacroBodyV, MacroV, Table, TableV, Task, TaskV,
};
use crate::text::{
    all_ws, chars_eq, chars_of, find, find_from, is_blank, str_eq, string_of, trim, trim_chars,
};

verus! {

// ---------------------------------------------------------------------------
// The model
// ---------------------------------------------------------------------------

/// Block children and a run of trailing inlines not yet wrapped in a
/// paragraph.
pub ghost struct ContainerV {
    pub blocks: Seq<BlockV>,
    pub pending: Seq<InlineV>,
}

/// An element being read, with what it has collected so far.
pub ghost enum FrameV {
    Doc(ContainerV),
    Quote(ContainerV),
    Item(ContainerV),
    List { ordered: bool, items: Seq<Seq<BlockV>> },
    Para(Seq<InlineV>),
    Heading { level: u8, content: Seq<InlineV> },
    Strong(Seq<InlineV>),
    Emphasis(Seq<InlineV>),
    Strike(Seq<InlineV>),
    Span(Seq<InlineV>),
    Code(Seq<char>),
    ExtLink { href: Seq<char>, title: Option<Seq<char>>, content: Seq<InlineV> },
    AcLink { target: Option<LinkTargetV>, content: Seq<InlineV> },
    LinkBody(Seq<InlineV>),
    AcImage { source: Option<ImageSourceV>, alt: Seq<char> },
    CodeMacro { language: Option<Seq<char>>, code: Seq<char> },
    Param { name: Seq<char>, value: Seq<char> },
    PlainBody(Seq<char>),
    Macro { name: Seq<char>, params: Seq<(Seq<char>, Seq<char>)>, body: MacroBodyV },
    RichBody(ContainerV),
    TaskList(Seq<TaskV>),
    Task { checked: bool, content: Seq<InlineV> },
    TaskStatus(Seq<char>),
    TaskBody(Seq<InlineV>),
    Table { head: Seq<Seq<InlineV>>, rows: Seq<Seq<Seq<InlineV>>> },
    Row { is_head: bool, cells: Seq<Seq<InlineV>> },
    Cell { header: bool, content: Seq<InlineV> },
}

pub open spec fn empty_container() -> ContainerV {
    ContainerV { blocks: seq![], pending: seq![] }
}

/// Loose inlines become a paragraph.
pub open spec fn flush_v(c: ContainerV) -> ContainerV {
    if c.pending.len() > 0 {
        ContainerV { blocks: c.blocks.push(BlockV::Paragraph(c.pending)), pending: seq![] }
    } else {
        c
    }
}

/// The blocks of a finished container.
pub open spec fn finish_v(c: ContainerV) -> Seq<BlockV> {
    flush_v(c).blocks
}

/// A block appended to a container, after its loose inlines.
pub open spec fn container_push_block(c: ContainerV, b: BlockV) -> ContainerV {
    ContainerV { blocks: flush_v(c).blocks.push(b), pending: seq![] }
}

/// Frames that collect inline children directly.
pub open spec fn is_inline_frame(f: FrameV) -> bool {
    ||| f is Para
    ||| f is Heading
    ||| f is Strong
    ||| f is Emphasis
    ||| f is Strike
    ||| f is Span
    ||| f is ExtLink
    ||| f is AcLink
    ||| f is LinkBody
    ||| f is Cell
    ||| f is TaskBody
}

/// A frame with one more inline child: inline frames take it directly, block
/// containers as a loose inline, other frames drop it.
pub open spec fn frame_push_inline(f: FrameV, i: InlineV) -> FrameV {
    match f {
        FrameV::Para(v) => FrameV::Para(v.push(i)),
        FrameV::Heading { level, content } => FrameV::Heading { level, content: content.push(i) },
        FrameV::Strong(v) => FrameV::Strong(v.push(i)),
        FrameV::Emphasis(v) => FrameV::Emphasis(v.push(i)),
        FrameV::Strike(v) => FrameV::Strike(v.push(i)),
        FrameV::Span(v) => FrameV::Span(v.push(i)),
        FrameV::ExtLink { href, title, content } => FrameV::ExtLink {
            href,
            title,
            content: content.push(i),
        },
        FrameV::AcLink { target, content } => FrameV::AcLink { target, content: content.push(i) },
        FrameV::LinkBody(v) => FrameV::LinkBody(v.push(i)),
        FrameV::Cell { header, content } => FrameV::Cell { header, content: content.push(i) },
        FrameV::TaskBody(v) => FrameV::TaskBody(v.push(i)),
        FrameV::Doc(c) => FrameV::Doc(ContainerV { blocks: c.blocks, pending: c.pending.push(i) }),
        FrameV::Quote(c) => FrameV::Quote(ContainerV { blocks: c.blocks, pending: c.pending.push(i) }),
        FrameV::Item(c) => FrameV::Item(ContainerV { blocks: c.blocks, pending: c.pending.push(i) }),
        FrameV::RichBody(c) => FrameV::RichBody(
            ContainerV { blocks: c.blocks, pending: c.pending.push(i) },
        ),
        _ => f,
    }
}

/// A frame with one more block child: a list takes it as a new item, block
/// containers append it, other frames drop it.
pub open spec fn frame_push_block(f: FrameV, b: BlockV) -> FrameV {
    match f {
        FrameV::List { ordered, items } => FrameV::List { ordered, items: items.push(seq![b]) },
        FrameV::Doc(c) => FrameV::Doc(container_push_block(c, b)),
        FrameV::Quote(c) => FrameV::Quote(container_push_block(c, b)),
        FrameV::Item(c) => FrameV::Item(container_push_block(c, b)),
        FrameV::RichBody(c) => FrameV::RichBody(container_push_block(c, b)),
        _ => f,
    }
}

/// The stack with its top frame replaced.
pub open spec fn with_top(s: Seq<FrameV>, f: FrameV) -> Seq<FrameV> {
    s.drop_last().push(f)
}

pub open spec fn top_is_inline(s: Seq<FrameV>) -> bool {
    s.len() > 0 && is_inline_frame(s.last())
}

pub open spec fn push_inline_v(s: Seq<FrameV>, i: InlineV) -> Seq<FrameV> {
    if s.len() == 0 {
        s
    } else {
        with_top(s, frame_push_inline(s.last(), i))
    }
}

pub open spec fn push_inlines_v(s: Seq<FrameV>, v: Seq<InlineV>) -> Seq<FrameV>
    decreases v.len(),
{
    if v.len() == 0 {
        s
    } else {
        push_inline_v(push_inlines_v(s, v.drop_last()), v.last())
    }
}

pub open spec fn push_block_v(s: Seq<FrameV>, b: BlockV) -> Seq<FrameV> {
    if s.len() == 0 {
        s
    } else {
        with_top(s, frame_push_block(s.last(), b))
    }
}

/// Markup kept verbatim: inline inside an inline frame, a block elsewhere.
pub open spec fn raw_v(s: Seq<FrameV>, markup: Seq<char>) -> Seq<FrameV> {
    if top_is_inline(s) {
        push_inline_v(s, InlineV::RawConfluence(markup))
    } else {
        push_block_v(s, BlockV::RawConfluence(markup))
    }
}

/// Character data: appended to a frame that collects text, else an inline
/// `Text` (whitespace between blocks is dropped).
pub open spec fn text_v(s: Seq<FrameV>, t: Seq<char>) -> Seq<FrameV> {
    if s.len() > 0 && s.last() is Code {
        with_top(s, FrameV::Code(s.last()->Code_0 + t))
    } else if s.len() > 0 && s.last() is PlainBody {
        with_top(s, FrameV::PlainBody(s.last()->PlainBody_0 + t))
    } else if s.len() > 0 && s.last() is TaskStatus {
        with_top(s, FrameV::TaskStatus(s.last()->TaskStatus_0 + t))
    } else if s.len() > 0 && s.last() is Param {
        with_top(s, FrameV::Param { name: s.last()->Param_name, value: s.last()->Param_value + t })
    } else if all_ws(t) && !top_is_inline(s) {
        s
    } else {
        push_inline_v(s, InlineV::Text(t))
    }
}

/// A CDATA section: the text of a plain-text body or of a link body.
pub open spec fn cdata_v(s: Seq<FrameV>, t: Seq<char>) -> Seq<FrameV> {
    if s.len() > 0 && s.last() is PlainBody {
        with_top(s, FrameV::PlainBody(s.last()->PlainBody_0 + t))
    } else if s.len() > 0 && s.last() is LinkBody {
        with_top(s, FrameV::LinkBody(s.last()->LinkBody_0.push(InlineV::Text(t))))
    } else {
        s
    }
}

pub open spec fn set_link_target_v(s: Seq<FrameV>, t: LinkTargetV) -> Seq<FrameV> {
    if s.len() > 0 && s.last() is AcLink {
        with_top(s, FrameV::AcLink { target: Some(t), content: s.last()->AcLink_content })
    } else {
        s
    }
}

pub open spec fn set_attachment_v(s: Seq<FrameV>, file: Seq<char>) -> Seq<FrameV> {
    if s.len() > 0 && s.last() is AcLink {
        with_top(
            s,
            FrameV::AcLink {
                target: Some(LinkTargetV::Attachment(file)),
                content: s.last()->AcLink_content,
            },
        )
    } else if s.len() > 0 && s.last() is AcImage {
        with_top(
            s,
            FrameV::AcImage {
                source: Some(ImageSourceV::Attachment(file)),
                alt: s.last()->AcImage_alt,
            },
        )
    } else {
        s
    }
}

/// The value of the first attribute named `key`.
pub open spec fn attr_of(attrs: Seq<(String, Option<String>)>, key: Seq<char>) -> Option<Seq<char>>
    decreases attrs.len(),
{
    if attrs.len() == 0 {
        None
    } else if attrs[0].0@ == key {
        opt_v(attrs[0].1)
    } else {
        attr_of(attrs.drop_first(), key)
    }
}

pub open spec fn attr_v(tag: XmlTag, key: Seq<char>) -> Option<Seq<char>> {
    attr_of(tag.attrs@, key)
}

pub open spec fn or_empty(o: Option<Seq<char>>) -> Seq<char> {
    match o {
        Some(s) => s,
        None => seq![],
    }
}

/// The link target of an `<ri:page>`: a content id when it has an id and no
/// title, else a page.
pub open spec fn page_target(tag: XmlTag) -> LinkTargetV {
    match (attr_v(tag, "ri:content-title"@), attr_v(tag, "ri:content-id"@)) {
        (None, Some(id)) => LinkTargetV::Content(id),
        (title, _) => LinkTargetV::Page {
            space: attr_v(tag, "ri:space-key"@),
            title: or_empty(title),
        },
    }
}

/// A self-closing element that is not a frame: `(stack, handled)`.
pub open spec fn empty_v(s: Seq<FrameV>, tag: XmlTag) -> (Seq<FrameV>, bool) {
    let name = tag.name@;
    if name == "hr"@ {
        (push_block_v(s, BlockV::ThematicBreak), true)
    } else if name == "br"@ {
        (push_inline_v(s, InlineV::HardBreak), true)
    } else if name == "ri:page"@ {
        (set_link_target_v(s, page_target(tag)), true)
    } else if name == "ri:content-entity"@ {
        (set_link_target_v(s, LinkTargetV::Content(or_empty(attr_v(tag, "ri:content-id"@)))), true)
    } else if name == "ri:attachment"@ {
        (set_attachment_v(s, or_empty(attr_v(tag, "ri:filename"@))), true)
    } else if name == "ri:url"@ {
        (
            if s.len() > 0 && s.last() is AcImage {
                with_top(
                    s,
                    FrameV::AcImage {
                        source: Some(ImageSourceV::External(or_empty(attr_v(tag, "ri:value"@)))),
                        alt: s.last()->AcImage_alt,
                    },
                )
            } else {
                s
            },
            true,
        )
    } else {
        (s, false)
    }
}

/// The heading level of `h1` … `h6`.
pub open spec fn heading_level(name: Seq<char>) -> Option<u8> {
    if name == "h1"@ {
        Some(1)
    } else if name == "h2"@ {
        Some(2)
    } else if name == "h3"@ {
        Some(3)
    } else if name == "h4"@ {
        Some(4)
    } else if name == "h5"@ {
        Some(5)
    } else if name == "h6"@ {
        Some(6)
    } else {
        None
    }
}

/// The frame that an `<ac:structured-macro>` opens: `code` and the diagram
/// macros read as code blocks, any other as a generic macro.
pub open spec fn macro_frame(name: Option<Seq<char>>) -> FrameV {
    if name == Some("code"@) {
        FrameV::CodeMacro { language: None, code: seq![] }
    } else if name is Some && DiagramMacro::spec_for_macro_name(name->0) is Some {
        FrameV::CodeMacro {
            language: Some(DiagramMacro::spec_for_macro_name(name->0)->0.spec_language()),
            code: seq![],
        }
    } else {
        FrameV::Macro { name: or_empty(name), params: seq![], body: MacroBodyV::Empty }
    }
}

/// The frame that a start (or self-closing) tag opens; `None` for an element
/// that is kept verbatim.
pub open spec fn frame_from_start_v(tag: XmlTag) -> Option<FrameV> {
    let n = tag.name@;
    if n == "p"@ {
        Some(FrameV::Para(seq![]))
    } else if heading_level(n) is Some {
        Some(FrameV::Heading { level: heading_level(n)->0, content: seq![] })
    } else if n == "strong"@ {
        Some(FrameV::Strong(seq![]))
    } else if n == "em"@ {
        Some(FrameV::Emphasis(seq![]))
    } else if n == "span"@ {
        let style = attr_v(tag, "style"@);
        if style is Some && find(style->0, "line-through"@) < style->0.len() {
            Some(FrameV::Strike(seq![]))
        } else {
            Some(FrameV::Span(seq![]))
        }
    } else if n == "code"@ {
        Some(FrameV::Code(seq![]))
    } else if n == "blockquote"@ {
        Some(FrameV::Quote(empty_container()))
    } else if n == "ul"@ {
        Some(FrameV::List { ordered: false, items: seq![] })
    } else if n == "ol"@ {
        Some(FrameV::List { ordered: true, items: seq![] })
    } else if n == "li"@ {
        Some(FrameV::Item(empty_container()))
    } else if n == "a"@ {
        Some(
            FrameV::ExtLink {
                href: or_empty(attr_v(tag, "href"@)),
                title: attr_v(tag, "title"@),
                content: seq![],
            },
        )
    } else if n == "ac:link"@ {
        Some(
            FrameV::AcLink {
                target: match attr_v(tag, "ac:anchor"@) {
                    Some(a) => Some(LinkTargetV::Anchor(a)),
                    None => None,
                },
                content: seq![],
            },
        )
    } else if n == "ac:link-body"@ || n == "ac:plain-text-link-body"@ {
        Some(FrameV::LinkBody(seq![]))
    } else if n == "ac:image"@ {
        Some(FrameV::AcImage { source: None, alt: or_empty(attr_v(tag, "ac:alt"@)) })
    } else if n == "ac:structured-macro"@ {
        Some(macro_frame(attr_v(tag, "ac:name"@)))
    } else if n == "ac:parameter"@ {
        Some(FrameV::Param { name: or_empty(attr_v(tag, "ac:name"@)), value: seq![] })
    } else if n == "ac:plain-text-body"@ {
        Some(FrameV::PlainBody(seq![]))
    } else if n == "ac:rich-text-body"@ {
        Some(FrameV::RichBody(empty_container()))
    } else if n == "ac:task-list"@ {
        Some(FrameV::TaskList(seq![]))
    } else if n == "ac:task"@ {
        Some(FrameV::Task { checked: false, content: seq![] })
    } else if n == "ac:task-status"@ {
        Some(FrameV::TaskStatus(seq![]))
    } else if n == "ac:task-body"@ {
        Some(FrameV::TaskBody(seq![]))
    } else if n == "table"@ {
        Some(FrameV::Table { head: seq![], rows: seq![] })
    } else if n == "tr"@ {
        Some(FrameV::Row { is_head: false, cells: seq![] })
    } else if n == "th"@ {
        Some(FrameV::Cell { header: true, content: seq![] })
    } else if n == "td"@ {
        Some(FrameV::Cell { header: false, content: seq![] })
    } else {
        None
    }
}

/// What closing the top frame hands to the frame below it.
pub open spec fn close_into(r: Seq<FrameV>, f: FrameV) -> Seq<FrameV> {
    match f {
        FrameV::Para(c) => push_block_v(r, BlockV::Paragraph(c)),
        FrameV::Heading { level, content } => push_block_v(r, BlockV::Heading { level, content }),
        FrameV::Quote(c) => push_block_v(r, BlockV::BlockQuote(finish_v(c))),
        FrameV::List { ordered, items } => push_block_v(r, BlockV::List { ordered, items }),
        FrameV::Item(c) => if r.len() > 0 && r.last() is List {
            with_top(
                r,
                FrameV::List {
                    ordered: r.last()->List_ordered,
                    items: r.last()->List_items.push(finish_v(c)),
                },
            )
        } else {
            r
        },
        FrameV::Strong(c) => push_inline_v(r, InlineV::Strong(c)),
        FrameV::Emphasis(c) => push_inline_v(r, InlineV::Emphasis(c)),
        FrameV::Strike(c) => push_inline_v(r, InlineV::Strikethrough(c)),
        FrameV::Span(content) => push_inlines_v(r, content),
        FrameV::Code(t) => push_inline_v(r, InlineV::Code(t)),
        FrameV::ExtLink { href, title, content } => push_inline_v(
            r,
            InlineV::Link { target: LinkTargetV::External(href), title, content },
        ),
        FrameV::AcLink { target, content } => push_inline_v(
            r,
            InlineV::Link {
                target: match target {
                    Some(t) => t,
                    None => LinkTargetV::External(seq![]),
                },
                title: None,
                content,
            },
        ),
        FrameV::LinkBody(v) => if r.len() > 0 && r.last() is AcLink {
            with_top(
                r,
                FrameV::AcLink {
                    target: r.last()->AcLink_target,
                    content: r.last()->AcLink_content + v,
                },
            )
        } else {
            r
        },
        FrameV::AcImage { source, alt } => push_inline_v(
            r,
            InlineV::Image {
                source: match source {
                    Some(s) => s,
                    None => ImageSourceV::External(seq![]),
                },
                alt,
            },
        ),
        FrameV::CodeMacro { language, code } => push_block_v(r, BlockV::CodeBlock { language, code }),
        FrameV::Param { name, value } => if r.len() > 0 && r.last() is CodeMacro && name
            == "language"@ {
            with_top(r, FrameV::CodeMacro { language: Some(value), code: r.last()->CodeMacro_code })
        } else if r.len() > 0 && r.last() is Macro {
            with_top(
                r,
                FrameV::Macro {
                    name: r.last()->Macro_name,
                    params: r.last()->Macro_params.push((name, value)),
                    body: r.last()->Macro_body,
                },
            )
        } else {
            r
        },
        FrameV::PlainBody(t) => if r.len() > 0 && r.last() is CodeMacro {
            with_top(r, FrameV::CodeMacro { language: r.last()->CodeMacro_language, code: t })
        } else if r.len() > 0 && r.last() is Macro {
            with_top(
                r,
                FrameV::Macro {
                    name: r.last()->Macro_name,
                    params: r.last()->Macro_params,
                    body: MacroBodyV::PlainText(t),
                },
            )
        } else {
            r
        },
        FrameV::RichBody(c) => if r.len() > 0 && r.last() is Macro {
            with_top(
                r,
                FrameV::Macro {
                    name: r.last()->Macro_name,
                    params: r.last()->Macro_params,
                    body: MacroBodyV::RichText(finish_v(c)),
                },
            )
        } else {
            r
        },
        FrameV::Macro { name, params, body } => {
            let m = MacroV { name, params, body };
            if top_is_inline(r) {
                push_inline_v(r, InlineV::Macro(m))
            } else {
                push_block_v(r, BlockV::Macro(m))
            }
        },
        FrameV::Cell { header, content } => if r.len() > 0 && r.last() is Row {
            with_top(
                r,
                FrameV::Row {
                    is_head: r.last()->Row_is_head || header,
                    cells: r.last()->Row_cells.push(content),
                },
            )
        } else {
            r
        },
        FrameV::Row { is_head, cells } => if r.len() > 0 && r.last() is Table {
            if is_head {
                with_top(r, FrameV::Table { head: cells, rows: r.last()->Table_rows })
            } else {
                with_top(
                    r,
                    FrameV::Table { head: r.last()->Table_head, rows: r.last()->Table_rows.push(cells) },
                )
            }
        } else {
            r
        },
        FrameV::Table { head, rows } => push_block_v(
            r,
            BlockV::Table(TableV { align: seq![], head, rows }),
        ),
        FrameV::TaskStatus(st) => if r.len() > 0 && r.last() is Task {
            with_top(
                r,
                FrameV::Task { checked: trim(st) == "complete"@, content: r.last()->Task_content },
            )
        } else {
            r
        },
        FrameV::TaskBody(v) => if r.len() > 0 && r.last() is Task {
            with_top(r, FrameV::Task { checked: r.last()->Task_checked, content: v })
        } else {
            r
        },
        FrameV::Task { checked, content } => if r.len() > 0 && r.last() is TaskList {
            with_top(r, FrameV::TaskList(r.last()->TaskList_0.push(TaskV { checked, content })))
        } else {
            r
        },
        FrameV::TaskList(ts) => push_block_v(r, BlockV::TaskList(ts)),
        FrameV::Doc(_) => r,
    }
}

/// An end tag: the top frame closes into the one below it.
pub open spec fn end_v(s: Seq<FrameV>) -> Seq<FrameV> {
    if s.len() == 0 {
        s
    } else {
        close_into(s.drop_last(), s.last())
    }
}

/// The document of the final stack: the blocks of the document frame when it
/// is on top, else nothing.
pub open spec fn finish_doc(s: Seq<FrameV>) -> Seq<BlockV> {
    if s.len() > 0 && s.last() is Doc {
        finish_v(s.last()->Doc_0)
    } else {
        seq![]
    }
}

/// The stack a document starts with.
pub open spec fn start_stack() -> Seq<FrameV> {
    seq![FrameV::Doc(empty_container())]
}

// ---------------------------------------------------------------------------
// Laws of the model
// ---------------------------------------------------------------------------

/// The inline children that a frame collects directly, for the frames that
/// take inlines as their own content.
pub open spec fn inline_sink(f: FrameV) -> Option<Seq<InlineV>> {
    match f {
        FrameV::Para(v) => Some(v),
        FrameV::Heading { content, .. } => Some(content),
        FrameV::Strong(v) => Some(v),
        FrameV::Emphasis(v) => Some(v),
        FrameV::Strike(v) => Some(v),
        FrameV::Span(v) => Some(v),
        FrameV::ExtLink { content, .. } => Some(content),
        FrameV::AcLink { content, .. } => Some(content),
        FrameV::LinkBody(v) => Some(v),
        FrameV::Cell { content, .. } => Some(content),
        FrameV::TaskBody(v) => Some(v),
        _ => None,
    }
}

/// The block container of the frames that collect blocks plus loose inlines.
pub open spec fn block_container(f: FrameV) -> Option<ContainerV> {
    match f {
        FrameV::Doc(c) => Some(c),
        FrameV::Quote(c) => Some(c),
        FrameV::Item(c) => Some(c),
        FrameV::RichBody(c) => Some(c),
        _ => None,
    }
}

/// The inline frames are exactly those with an inline sink, no frame has both
/// an inline sink and a block container, and an inline goes to the sink, or
/// else to the container's pending run.
pub proof fn lemma_inline_frame_is_sink(f: FrameV, i: InlineV)
    ensures
        is_inline_frame(f) <==> inline_sink(f) is Some,
        !(inline_sink(f) is Some && block_container(f) is Some),
        inline_sink(f) matches Some(v) ==> inline_sink(frame_push_inline(f, i)) == Some(v.push(i)),
        block_container(f) matches Some(c) ==> block_container(frame_push_inline(f, i)) == Some(
            ContainerV { blocks: c.blocks, pending: c.pending.push(i) },
        ),
{
}

/// `t` is `s` with at most its top frame rewritten, and that frame keeps
/// being the document frame, or not.
pub open spec fn keeps_below(s: Seq<FrameV>, t: Seq<FrameV>) -> bool {
    &&& t.len() == s.len()
    &&& forall|j: int| 0 <= j < s.len() - 1 ==> #[trigger] t[j] == s[j]
    &&& s.len() > 0 ==> (t.last() is Doc <==> s.last() is Doc)
}

proof fn lemma_keeps_below_trans(a: Seq<FrameV>, b: Seq<FrameV>, c: Seq<FrameV>)
    requires
        keeps_below(a, b),
        keeps_below(b, c),
    ensures
        keeps_below(a, c),
{
    assert forall|j: int| 0 <= j < a.len() - 1 implies #[trigger] c[j] == a[j] by {
        assert(b[j] == a[j]);
    }
}

proof fn lemma_with_top_keeps_below(s: Seq<FrameV>, f: FrameV)
    requires
        s.len() > 0,
        f is Doc <==> s.last() is Doc,
    ensures
        keeps_below(s, with_top(s, f)),
{
}

proof fn lemma_push_inlines_keeps_below(s: Seq<FrameV>, v: Seq<InlineV>)
    ensures
        keeps_below(s, push_inlines_v(s, v)),
    decreases v.len(),
{
    if v.len() > 0 {
        let r = push_inlines_v(s, v.drop_last());
        lemma_push_inlines_keeps_below(s, v.drop_last());
        if r.len() > 0 {
            lemma_with_top_keeps_below(r, frame_push_inline(r.last(), v.last()));
        }
        lemma_keeps_below_trans(s, r, push_inlines_v(s, v));
    }
}

proof fn lemma_close_into_keeps_below(r: Seq<FrameV>, f: FrameV)
    ensures
        keeps_below(r, close_into(r, f)),
{
    if r.len() > 0 {
        assert forall|g: FrameV, i: InlineV, b: BlockV|
            (#[trigger] frame_push_inline(g, i) is Doc <==> g is Doc) && (
            #[trigger] frame_push_block(g, b) is Doc <==> g is Doc) by {}
    }
    match f {
        FrameV::Span(content) => lemma_push_inlines_keeps_below(r, content),
        _ => {},
    }
}

/// An end tag takes exactly one frame off the stack: the frames below the one
/// that receives the closed element stay as they were, and that frame is the
/// document frame after the call exactly when it was before.
pub proof fn lemma_end_keeps_lower_frames(s: Seq<FrameV>)
    requires
        s.len() > 0,
    ensures
        end_v(s).len() == s.len() - 1,
        forall|j: int| 0 <= j < s.len() - 2 ==> #[trigger] end_v(s)[j] == s[j],
        s.len() >= 2 ==> (end_v(s).last() is Doc <==> s[s.len() - 2] is Doc),
{
    lemma_close_into_keeps_below(s.drop_last(), s.last());
}

// ---------------------------------------------------------------------------
// The machine
// ---------------------------------------------------------------------------

/// Block children plus a run of trailing inlines not yet wrapped in a
/// paragraph: loose inlines become a paragraph when a block is appended or
/// the container is finished.
pub struct BlockContainer {
    pub blocks: Vec<Block>,
    pub pending: Vec<Inline>,
}

/// An in-progress node while folding XML events into the document tree.
pub enum Frame {
    Doc(BlockContainer),
    Quote(BlockContainer),
    Item(BlockContainer),
    List { ordered: bool, items: Vec<Vec<Block>> },
    Para(Vec<Inline>),
    Heading { level: u8, content: Vec<Inline> },
    Strong(Vec<Inline>),
    Emphasis(Vec<Inline>),
    Strike(Vec<Inline>),
    Span(Vec<Inline>),
    Code(String),
    ExtLink { href: String, title: Option<String>, content: Vec<Inline> },
    AcLink { target: Option<LinkTarget>, content: Vec<Inline> },
    LinkBody(Vec<Inline>),
    AcImage { source: Option<ImageSource>, alt: String },
    CodeMacro { language: Option<String>, code: String },
    Param { name: String, value: String },
    PlainBody(String),
    Macro { name: String, params: Vec<(String, String)>, body: MacroBody },
    RichBody(BlockContainer),
    TaskList(Vec<Task>),
    Task { checked: bool, content: Vec<Inline> },
    TaskStatus(String),
    TaskBody(Vec<Inline>),
    Table { head: Vec<Vec<Inline>>, rows: Vec<Vec<Vec<Inline>>> },
    Row { is_head: bool, cells: Vec<Vec<Inline>> },
    Cell { header: bool, content: Vec<Inline> },
}

pub open spec fn container_v(c: BlockContainer) -> ContainerV {
    ContainerV { blocks: blocks_v(c.blocks@), pending: inlines_v(c.pending@) }
}

pub open spec fn frame_v(f: Frame) -> FrameV {
    match f {
        Frame::Doc(c) => FrameV::Doc(container_v(c)),
        Frame::Quote(c) => FrameV::Quote(container_v(c)),
        Frame::Item(c) => FrameV::Item(container_v(c)),
        Frame::List { ordered, items } => FrameV::List { ordered, items: items_v(items@) },
        Frame::Para(v) => FrameV::Para(inlines_v(v@)),
        Frame::Heading { level, content } => FrameV::Heading { level, content: inlines_v(content@) },
        Frame::Strong(v) => FrameV::Strong(inlines_v(v@)),
        Frame::Emphasis(v) => FrameV::Emphasis(inlines_v(v@)),
        Frame::Strike(v) => FrameV::Strike(inlines_v(v@)),
        Frame::Span(v) => FrameV::Span(inlines_v(v@)),
        Frame::Code(t) => FrameV::Code(t@),
        Frame::ExtLink { href, title, content } => FrameV::ExtLink {
            href: href@,
            title: opt_v(title),
            content: inlines_v(content@),
        },
        Frame::AcLink { target, content } => FrameV::AcLink {
            target: match target {
                Some(t) => Some(link_target_v(t)),
                None => None,
            },
            content: inlines_v(content@),
        },
        Frame::LinkBody(v) => FrameV::LinkBody(inlines_v(v@)),
        Frame::AcImage { source, alt } => FrameV::AcImage {
            source: match source {
                Some(s) => Some(image_source_v(s)),
                None => None,
            },
            alt: alt@,
        },
        Frame::CodeMacro { language, code } => FrameV::CodeMacro {
            language: opt_v(language),
            code: code@,
        },
        Frame::Param { name, value } => FrameV::Param { name: name@, value: value@ },
        Frame::PlainBody(t) => FrameV::PlainBody(t@),
        Frame::Macro { name, params, body } => FrameV::Macro {
            name: name@,
            params: params_v(params@),
            body: body_v(body),
        },
        Frame::RichBody(c) => FrameV::RichBody(container_v(c)),
        Frame::TaskList(ts) => FrameV::TaskList(tasks_v(ts@)),
        Frame::Task { checked, content } => FrameV::Task { checked, content: inlines_v(content@) },
        Frame::TaskStatus(t) => FrameV::TaskStatus(t@),
        Frame::TaskBody(v) => FrameV::TaskBody(inlines_v(v@)),
        Frame::Table { head, rows } => FrameV::Table { head: cells_v(head@), rows: rows_v(rows@) },
        Frame::Row { is_head, cells } => FrameV::Row { is_head, cells: cells_v(cells@) },
        Frame::Cell { header, content } => FrameV::Cell { header, content: inlines_v(content@) },
    }
}

pub open spec fn stack_v(s: Seq<Frame>) -> Seq<FrameV> {
    s.map_values(|f: Frame| frame_v(f))
}

proof fn lemma_stack_v(s: Seq<Frame>)
    ensures
        stack_v(s).len() == s.len(),
        s.len() > 0 ==> stack_v(s.drop_last()) == stack_v(s).drop_last(),
        s.len() > 0 ==> stack_v(s).last() == frame_v(s.last()),
{
    if s.len() > 0 {
        assert(stack_v(s.drop_last()) =~= stack_v(s).drop_last());
    }
}

proof fn lemma_stack_v_push(s: Seq<Frame>, f: Frame)
    ensures
        stack_v(s.push(f)) == stack_v(s).push(frame_v(f)),
{
    assert(stack_v(s.push(f)) =~= stack_v(s).push(frame_v(f)));
}

fn inlines_push(v: Vec<Inline>, i: Inline) -> (r: Vec<Inline>)
    ensures
        inlines_v(r@) == inlines_v(v@).push(inline_v(i)),
{
    let mut v = v;
    proof {
        lemma_inlines_v_push(v@, i);
    }
    v.push(i);
    v
}

fn container_push_inline(c: BlockContainer, i: Inline) -> (r: BlockContainer)
    ensures
        container_v(r) == (ContainerV {
            blocks: container_v(c).blocks,
            pending: container_v(c).pending.push(inline_v(i)),
        }),
{
    BlockContainer { blocks: c.blocks, pending: inlines_push(c.pending, i) }
}

/// Loose inlines become a paragraph.
fn flush(c: BlockContainer) -> (r: BlockContainer)
    ensures
        container_v(r) == flush_v(container_v(c)),
{
    proof {
        lemma_views_len(c.blocks@, c.pending@);
    }
    if c.pending.len() > 0 {
        let BlockContainer { mut blocks, pending } = c;
        let b = Block::Paragraph(pending);
        proof {
            lemma_blocks_v_push(blocks@, b);
        }
        blocks.push(b);
        BlockContainer { blocks, pending: Vec::new() }
    } else {
        assert(inlines_v(c.pending@) =~= Seq::<InlineV>::empty());
        c
    }
}

/// The blocks of a finished container.
fn finish(c: BlockContainer) -> (r: Vec<Block>)
    ensures
        blocks_v(r@) == finish_v(container_v(c)),
{
    flush(c).blocks
}

fn container_push_block_exec(c: BlockContainer, b: Block) -> (r: BlockContainer)
    ensures
        container_v(r) == container_push_block(container_v(c), block_v(b)),
{
    let BlockContainer { mut blocks, .. } = flush(c);
    proof {
        lemma_blocks_v_push(blocks@, b);
    }
    blocks.push(b);
    BlockContainer { blocks, pending: Vec::new() }
}

fn is_inline_frame_exec(f: &Frame) -> (r: bool)
    ensures
        r == is_inline_frame(frame_v(*f)),
{
    match f {
        Frame::Para(_) | Frame::Heading { .. } | Frame::Strong(_) | Frame::Emphasis(_)
        | Frame::Strike(_) | Frame::Span(_) | Frame::ExtLink { .. } | Frame::AcLink { .. }
        | Frame::LinkBody(_) | Frame::Cell { .. } | Frame::TaskBody(_) => true,
        _ => false,
    }
}

/// A frame with one more inline child.
fn frame_push_inline_exec(f: Frame, i: Inline) -> (r: Frame)
    ensures
        frame_v(r) == frame_push_inline(frame_v(f), inline_v(i)),
{
    match f {
        Frame::Para(v) => Frame::Para(inlines_push(v, i)),
        Frame::Heading { level, content } => Frame::Heading { level, content: inlines_push(content, i) },
        Frame::Strong(v) => Frame::Strong(inlines_push(v, i)),
        Frame::Emphasis(v) => Frame::Emphasis(inlines_push(v, i)),
        Frame::Strike(v) => Frame::Strike(inlines_push(v, i)),
        Frame::Span(v) => Frame::Span(inlines_push(v, i)),
        Frame::ExtLink { href, title, content } => Frame::ExtLink {
            href,
            title,
            content: inlines_push(content, i),
        },
        Frame::AcLink { target, content } => Frame::AcLink { target, content: inlines_push(content, i) },
        Frame::LinkBody(v) => Frame::LinkBody(inlines_push(v, i)),
        Frame::Cell { header, content } => Frame::Cell { header, content: inlines_push(content, i) },
        Frame::TaskBody(v) => Frame::TaskBody(inlines_push(v, i)),
        Frame::Doc(c) => Frame::Doc(container_push_inline(c, i)),
        Frame::Quote(c) => Frame::Quote(container_push_inline(c, i)),
        Frame::Item(c) => Frame::Item(container_push_inline(c, i)),
        Frame::RichBody(c) => Frame::RichBody(container_push_inline(c, i)),
        other => other,
    }
}

/// A frame with one more block child.
fn frame_push_block_exec(f: Frame, b: Block) -> (r: Frame)
    ensures
        frame_v(r) == frame_push_block(frame_v(f), block_v(b)),
{
    match f {
        Frame::List { ordered, mut items } => {
            let ghost before = items@;
            let mut item: Vec<Block> = Vec::new();
            proof {
                lemma_blocks_v_push(item@, b);
            }
            item.push(b);
            assert(blocks_v(item@) =~= seq![block_v(b)]);
            items.push(item);
            assert(items@.drop_last() =~= before);
            Frame::List { ordered, items }
        },
        Frame::Doc(c) => Frame::Doc(container_push_block_exec(c, b)),
        Frame::Quote(c) => Frame::Quote(container_push_block_exec(c, b)),
        Frame::Item(c) => Frame::Item(container_push_block_exec(c, b)),
        Frame::RichBody(c) => Frame::RichBody(container_push_block_exec(c, b)),
        other => other,
    }
}

/// The frames of the elements being read, innermost last.
pub struct Builder {
    pub stack: Vec<Frame>,
}

impl Builder {
    pub open spec fn view(&self) -> Seq<FrameV> {
        stack_v(self.stack@)
    }

    pub fn new() -> (b: Builder)
        ensures
            b.view() == start_stack(),
    {
        let mut stack: Vec<Frame> = Vec::new();
        stack.push(Frame::Doc(BlockContainer { blocks: Vec::new(), pending: Vec::new() }));
        let b = Builder { stack };
        assert(b.view() =~= start_stack());
        b
    }

    pub fn top_is_inline(&self) -> (r: bool)
        ensures
            r == top_is_inline(self.view()),
    {
        proof {
            lemma_stack_v(self.stack@);
        }
        if self.stack.len() == 0 {
            false
        } else {
            is_inline_frame_exec(&self.stack[self.stack.len() - 1])
        }
    }

    /// Takes the top frame off the stack.
    pub fn pop_frame(&mut self) -> (r: Option<Frame>)
        ensures
            old(self).stack@.len() == 0 ==> r is None && final(self).view() == old(self).view(),
            old(self).stack@.len() > 0 ==> r == Some(old(self).stack@.last()) && final(self).view()
                == old(self).view().drop_last() && frame_v(old(self).stack@.last()) == old(
                self,
            ).view().last(),
    {
        proof {
            lemma_stack_v(self.stack@);
        }
        self.stack.pop()
    }

    /// Puts a frame on top of the stack.
    pub fn push_frame(&mut self, f: Frame)
        ensures
            final(self).view() == old(self).view().push(frame_v(f)),
    {
        proof {
            lemma_stack_v_push(self.stack@, f);
        }
        self.stack.push(f);
    }

    pub fn push_inline(&mut self, i: Inline)
        ensures
            final(self).view() == push_inline_v(old(self).view(), inline_v(i)),
    {
        let ghost s = self.stack@;
        match self.stack.pop() {
            Some(f) => {
                proof {
                    lemma_stack_v(s);
                }
                let f2 = frame_push_inline_exec(f, i);
                proof {
                    lemma_stack_v_push(self.stack@, f2);
                }
                self.stack.push(f2);
            },
            None => {},
        }
    }

    pub fn push_block(&mut self, b: Block)
        ensures
            final(self).view() == push_block_v(old(self).view(), block_v(b)),
    {
        let ghost s = self.stack@;
        match self.stack.pop() {
            Some(f) => {
                proof {
                    lemma_stack_v(s);
                }
                let f2 = frame_push_block_exec(f, b);
                proof {
                    lemma_stack_v_push(self.stack@, f2);
                }
                self.stack.push(f2);
            },
            None => {},
        }
    }
}

/// `a` followed by `b`.
fn append_str(a: String, b: &str) -> (r: String)
    ensures
        r@ == a@ + b@,
{
    let ghost a0 = a@;
    let mut a = a;
    let v = chars_of(b);
    for k in 0..v.len()
        invariant
            a@ == a0 + v@.take(k as int),
            v@ == b@,
    {
        a.push(v[k]);
        assert(a@ =~= a0 + v@.take(k + 1));
    }
    assert(v@.take(v.len() as int) =~= v@);
    a
}

/// The value of the first attribute named `key`.
pub fn attr(tag: &XmlTag, key: &str) -> (r: Option<String>)
    ensures
        opt_v(r) == attr_v(*tag, key@),
{
    let attrs = &tag.attrs;
    let mut i: usize = 0;
    assert(attrs@.skip(0) =~= attrs@);
    while i < attrs.len()
        invariant
            i <= attrs.len(),
            attrs@ == tag.attrs@,
            attr_v(*tag, key@) == attr_of(attrs@.skip(i as int), key@),
        decreases attrs.len() - i,
    {
        proof {
            assert(attrs@.skip(i as int).drop_first() =~= attrs@.skip(i + 1));
            assert(attrs@.skip(i as int)[0] == attrs@[i as int]);
        }
        if str_eq(attrs[i].0.as_str(), key) {
            return match &attrs[i].1 {
                Some(v) => Some(v.clone()),
                None => None,
            };
        }
        i += 1;
    }
    None
}

fn or_empty_exec(o: Option<String>) -> (r: String)
    ensures
        r@ == or_empty(opt_v(o)),
{
    match o {
        Some(s) => s,
        None => String::new(),
    }
}

impl Builder {
    /// Markup kept verbatim: inline inside an inline frame, a block elsewhere.
    pub fn raw(&mut self, markup: String)
        ensures
            final(self).view() == raw_v(old(self).view(), markup@),
    {
        if self.top_is_inline() {
            self.push_inline(Inline::RawConfluence(markup));
        } else {
            self.push_block(Block::RawConfluence(markup));
        }
    }

    /// Character data.
    pub fn text(&mut self, t: &str)
        ensures
            final(self).view() == text_v(old(self).view(), t@),
    {
        let ghost s = self.view();
        match self.pop_frame() {
            Some(Frame::Code(x)) => {
                self.push_frame(Frame::Code(append_str(x, t)));
                return;
            },
            Some(Frame::PlainBody(x)) => {
                self.push_frame(Frame::PlainBody(append_str(x, t)));
                return;
            },
            Some(Frame::TaskStatus(x)) => {
                self.push_frame(Frame::TaskStatus(append_str(x, t)));
                return;
            },
            Some(Frame::Param { name, value }) => {
                self.push_frame(Frame::Param { name, value: append_str(value, t) });
                return;
            },
            Some(other) => {
                self.push_frame(other);
                assert(self.view() =~= s);
            },
            None => {},
        }
        if is_blank(t) && !self.top_is_inline() {
            return;
        }
        self.push_inline(Inline::Text(string_of(&chars_of(t))));
    }

    /// A CDATA section.
    pub fn cdata(&mut self, t: String)
        ensures
            final(self).view() == cdata_v(old(self).view(), t@),
    {
        let ghost s = self.view();
        match self.pop_frame() {
            Some(Frame::PlainBody(x)) => {
                self.push_frame(Frame::PlainBody(append_str(x, t.as_str())));
            },
            Some(Frame::LinkBody(v)) => {
                self.push_frame(Frame::LinkBody(inlines_push(v, Inline::Text(t))));
            },
            Some(other) => {
                self.push_frame(other);
                assert(self.view() =~= s);
            },
            None => {},
        }
    }

    pub fn set_link_target(&mut self, target: LinkTarget)
        ensures
            final(self).view() == set_link_target_v(old(self).view(), link_target_v(target)),
    {
        let ghost s = self.view();
        match self.pop_frame() {
            Some(Frame::AcLink { content, .. }) => {
                self.push_frame(Frame::AcLink { target: Some(target), content });
            },
            Some(other) => {
                self.push_frame(other);
                assert(self.view() =~= s);
            },
            None => {},
        }
    }

    pub fn set_attachment(&mut self, file: String)
        ensures
            final(self).view() == set_attachment_v(old(self).view(), file@),
    {
        let ghost s = self.view();
        match self.pop_frame() {
            Some(Frame::AcLink { content, .. }) => {
                self.push_frame(Frame::AcLink { target: Some(LinkTarget::Attachment(file)), content });
            },
            Some(Frame::AcImage { alt, .. }) => {
                self.push_frame(Frame::AcImage { source: Some(ImageSource::Attachment(file)), alt });
            },
            Some(other) => {
                self.push_frame(other);
                assert(self.view() =~= s);
            },
            None => {},
        }
    }

    fn set_image_url(&mut self, url: String)
        ensures
            final(self).view() == (if old(self).view().len() > 0 && old(self).view().last() is AcImage {
                with_top(
                    old(self).view(),
                    FrameV::AcImage {
                        source: Some(ImageSourceV::External(url@)),
                        alt: old(self).view().last()->AcImage_alt,
                    },
                )
            } else {
                old(self).view()
            }),
    {
        let ghost s = self.view();
        match self.pop_frame() {
            Some(Frame::AcImage { alt, .. }) => {
                self.push_frame(Frame::AcImage { source: Some(ImageSource::External(url)), alt });
            },
            Some(other) => {
                self.push_frame(other);
                assert(self.view() =~= s);
            },
            None => {},
        }
    }

    /// A self-closing element that is not a frame; `false` when it means
    /// nothing here.
    pub fn empty(&mut self, tag: &XmlTag) -> (handled: bool)
        ensures
            (final(self).view(), handled) == empty_v(old(self).view(), *tag),
    {
        let n = tag.name.as_str();
        if str_eq(n, "hr") {
            self.push_block(Block::ThematicBreak);
        } else if str_eq(n, "br") {
            self.push_inline(Inline::HardBreak);
        } else if str_eq(n, "ri:page") {
            let title = attr(tag, "ri:content-title");
            let id = attr(tag, "ri:content-id");
            let target = match (title, id) {
                (None, Some(id)) => LinkTarget::Content(id),
                (title, _) => LinkTarget::Page {
                    space: attr(tag, "ri:space-key"),
                    title: or_empty_exec(title),
                },
            };
            self.set_link_target(target);
        } else if str_eq(n, "ri:content-entity") {
            let id = or_empty_exec(attr(tag, "ri:content-id"));
            self.set_link_target(LinkTarget::Content(id));
        } else if str_eq(n, "ri:attachment") {
            let file = or_empty_exec(attr(tag, "ri:filename"));
            self.set_attachment(file);
        } else if str_eq(n, "ri:url") {
            let url = or_empty_exec(attr(tag, "ri:value"));
            self.set_image_url(url);
        } else {
            return false;
        }
        true
    }
}

fn new_container() -> (r: BlockContainer)
    ensures
        container_v(r) == empty_container(),
{
    let r = BlockContainer { blocks: Vec::new(), pending: Vec::new() };
    assert(container_v(r) =~= empty_container());
    r
}

fn heading_level_exec(n: &str) -> (r: Option<u8>)
    ensures
        r == heading_level(n@),
{
    if str_eq(n, "h1") {
        Some(1)
    } else if str_eq(n, "h2") {
        Some(2)
    } else if str_eq(n, "h3") {
        Some(3)
    } else if str_eq(n, "h4") {
        Some(4)
    } else if str_eq(n, "h5") {
        Some(5)
    } else if str_eq(n, "h6") {
        Some(6)
    } else {
        None
    }
}

fn macro_frame_exec(name: Option<String>) -> (r: Frame)
    ensures
        frame_v(r) == macro_frame(opt_v(name)),
{
    let is_code = match &name {
        Some(n) => str_eq(n.as_str(), "code"),
        None => false,
    };
    if is_code {
        assert(opt_v(name) == Some("code"@));
        return Frame::CodeMacro { language: None, code: String::new() };
    }
    let diagram = match &name {
        Some(n) => DiagramMacro::for_macro_name(n.as_str()),
        None => None,
    };
    match diagram {
        Some(d) => Frame::CodeMacro {
            language: Some(string_of(&chars_of(d.language()))),
            code: String::new(),
        },
        None => {
            let params: Vec<(String, String)> = Vec::new();
            assert(params_v(params@) =~= Seq::<(Seq<char>, Seq<char>)>::empty());
            Frame::Macro { name: or_empty_exec(name), params, body: MacroBody::Empty }
        },
    }
}

fn contains_exec(s: &str, p: &str) -> (r: bool)
    requires
        p@.len() > 0,
    ensures
        r == (find(s@, p@) < s@.len()),
{
    let v = chars_of(s);
    let w = chars_of(p);
    assert(v@.skip(0) =~= v@);
    find_from(&v, &w, 0) < v.len()
}

/// The frame that a start (or self-closing) tag opens; `None` for an element
/// that is kept verbatim.
pub fn frame_from_start(tag: &XmlTag) -> (r: Option<Frame>)
    ensures
        match r {
            Some(f) => frame_from_start_v(*tag) == Some(frame_v(f)),
            None => frame_from_start_v(*tag) is None,
        },
{
    let n = tag.name.as_str();
    let f = if str_eq(n, "p") {
        Frame::Para(Vec::new())
    } else if let Some(level) = heading_level_exec(n) {
        Frame::Heading { level, content: Vec::new() }
    } else if str_eq(n, "strong") {
        Frame::Strong(Vec::new())
    } else if str_eq(n, "em") {
        Frame::Emphasis(Vec::new())
    } else if str_eq(n, "span") {
        let strike = match attr(tag, "style") {
            Some(style) => {
                proof {
                    reveal_strlit("line-through");
                }
                contains_exec(style.as_str(), "line-through")
            },
            None => false,
        };
        if strike {
            Frame::Strike(Vec::new())
        } else {
            Frame::Span(Vec::new())
        }
    } else if str_eq(n, "code") {
        Frame::Code(String::new())
    } else if str_eq(n, "blockquote") {
        Frame::Quote(new_container())
    } else if str_eq(n, "ul") {
        Frame::List { ordered: false, items: Vec::new() }
    } else if str_eq(n, "ol") {
        Frame::List { ordered: true, items: Vec::new() }
    } else if str_eq(n, "li") {
        Frame::Item(new_container())
    } else if str_eq(n, "a") {
        Frame::ExtLink {
            href: or_empty_exec(attr(tag, "href")),
            title: attr(tag, "title"),
            content: Vec::new(),
        }
    } else if str_eq(n, "ac:link") {
        let target = match attr(tag, "ac:anchor") {
            Some(a) => Some(LinkTarget::Anchor(a)),
            None => None,
        };
        Frame::AcLink { target, content: Vec::new() }
    } else if str_eq(n, "ac:link-body") || str_eq(n, "ac:plain-text-link-body") {
        Frame::LinkBody(Vec::new())
    } else if str_eq(n, "ac:image") {
        Frame::AcImage { source: None, alt: or_empty_exec(attr(tag, "ac:alt")) }
    } else if str_eq(n, "ac:structured-macro") {
        macro_frame_exec(attr(tag, "ac:name"))
    } else if str_eq(n, "ac:parameter") {
        Frame::Param { name: or_empty_exec(attr(tag, "ac:name")), value: String::new() }
    } else if str_eq(n, "ac:plain-text-body") {
        Frame::PlainBody(String::new())
    } else if str_eq(n, "ac:rich-text-body") {
        Frame::RichBody(new_container())
    } else if str_eq(n, "ac:task-list") {
        Frame::TaskList(Vec::new())
    } else if str_eq(n, "ac:task") {
        Frame::Task { checked: false, content: Vec::new() }
    } else if str_eq(n, "ac:task-status") {
        Frame::TaskStatus(String::new())
    } else if str_eq(n, "ac:task-body") {
        Frame::TaskBody(Vec::new())
    } else if str_eq(n, "table") {
        Frame::Table { head: Vec::new(), rows: Vec::new() }
    } else if str_eq(n, "tr") {
        Frame::Row { is_head: false, cells: Vec::new() }
    } else if str_eq(n, "th") {
        Frame::Cell { header: true, content: Vec::new() }
    } else if str_eq(n, "td") {
        Frame::Cell { header: false, content: Vec::new() }
    } else {
        return None;
    };
    proof {
        assert(inlines_v(Seq::<Inline>::empty()) =~= Seq::<InlineV>::empty());
        assert(items_v(Seq::<Vec<Block>>::empty()) =~= Seq::<Seq<BlockV>>::empty());
        assert(tasks_v(Seq::<Task>::empty()) =~= Seq::<TaskV>::empty());
        assert(cells_v(Seq::<Vec<Inline>>::empty()) =~= Seq::<Seq<InlineV>>::empty());
        assert(rows_v(Seq::<Vec<Vec<Inline>>>::empty()) =~= Seq::<Seq<Seq<InlineV>>>::empty());
    }
    Some(f)
}

impl Builder {
    /// Each inline in turn.
    fn push_inlines(&mut self, content: Vec<Inline>)
        ensures
            final(self).view() == push_inlines_v(old(self).view(), inlines_v(content@)),
    {
        let ghost s0 = self.view();
        let ghost w = inlines_v(content@);
        proof {
            lemma_inlines_v_index(content@);
        }
        let ghost all = content@;
        let mut rest = content;
        let n = rest.len();
        let mut k: usize = 0;
        assert(w.take(0) =~= Seq::<InlineV>::empty());
        while k < n
            invariant
                k <= n == all.len(),
                rest@ == all.skip(k as int),
                w == inlines_v(all),
                w.len() == all.len(),
                forall|j: int| 0 <= j < all.len() ==> #[trigger] w[j] == inline_v(all[j]),
                self.view() == push_inlines_v(s0, w.take(k as int)),
            decreases n - k,
        {
            let i = rest.remove(0);
            assert(rest@ =~= all.skip(k + 1));
            self.push_inline(i);
            proof {
                assert(w.take(k + 1).drop_last() =~= w.take(k as int));
                assert(w.take(k + 1).last() == w[k as int]);
            }
            k += 1;
        }
        assert(w.take(n as int) =~= w);
    }

    fn close_item(&mut self, c: BlockContainer)
        ensures
            final(self).view() == close_into(old(self).view(), FrameV::Item(container_v(c))),
    {
        let ghost s = self.view();
        match self.pop_frame() {
            Some(Frame::List { ordered, mut items }) => {
                let ghost before = items@;
                items.push(finish(c));
                assert(items@.drop_last() =~= before);
                self.push_frame(Frame::List { ordered, items });
            },
            Some(other) => {
                self.push_frame(other);
                assert(self.view() =~= s);
            },
            None => {},
        }
    }

    fn close_link_body(&mut self, v: Vec<Inline>)
        ensures
            final(self).view() == close_into(old(self).view(), FrameV::LinkBody(inlines_v(v@))),
    {
        let ghost s = self.view();
        match self.pop_frame() {
            Some(Frame::AcLink { target, mut content }) => {
                let ghost c0 = content@;
                let mut v = v;
                let ghost v0 = v@;
                content.append(&mut v);
                proof {
                    lemma_inlines_v_index(c0);
                    lemma_inlines_v_index(v0);
                    lemma_inlines_v_index(content@);
                    assert(inlines_v(content@) =~= inlines_v(c0) + inlines_v(v0));
                }
                self.push_frame(Frame::AcLink { target, content });
            },
            Some(other) => {
                self.push_frame(other);
                assert(self.view() =~= s);
            },
            None => {},
        }
    }

    fn close_param(&mut self, name: String, value: String)
        ensures
            final(self).view() == close_into(
                old(self).view(),
                FrameV::Param { name: name@, value: value@ },
            ),
    {
        let ghost s = self.view();
        let is_language = str_eq(name.as_str(), "language");
        match self.pop_frame() {
            Some(Frame::CodeMacro { language, code }) => {
                if is_language {
                    self.push_frame(Frame::CodeMacro { language: Some(value), code });
                } else {
                    self.push_frame(Frame::CodeMacro { language, code });
                    assert(self.view() =~= s);
                }
            },
            Some(Frame::Macro { name: n, mut params, body }) => {
                let ghost p0 = params@;
                params.push((name, value));
                assert(params_v(params@) =~= params_v(p0).push((name@, value@)));
                self.push_frame(Frame::Macro { name: n, params, body });
            },
            Some(other) => {
                self.push_frame(other);
                assert(self.view() =~= s);
            },
            None => {},
        }
    }

    fn close_plain_body(&mut self, t: String)
        ensures
            final(self).view() == close_into(old(self).view(), FrameV::PlainBody(t@)),
    {
        let ghost s = self.view();
        match self.pop_frame() {
            Some(Frame::CodeMacro { language, .. }) => {
                self.push_frame(Frame::CodeMacro { language, code: t });
            },
            Some(Frame::Macro { name, params, .. }) => {
                self.push_frame(Frame::Macro { name, params, body: MacroBody::PlainText(t) });
            },
            Some(other) => {
                self.push_frame(other);
                assert(self.view() =~= s);
            },
            None => {},
        }
    }

    fn close_rich_body(&mut self, c: BlockContainer)
        ensures
            final(self).view() == close_into(old(self).view(), FrameV::RichBody(container_v(c))),
    {
        let ghost s = self.view();
        match self.pop_frame() {
            Some(Frame::Macro { name, params, .. }) => {
                let blocks = finish(c);
                self.push_frame(Frame::Macro { name, params, body: MacroBody::RichText(blocks) });
            },
            Some(other) => {
                self.push_frame(other);
                assert(self.view() =~= s);
            },
            None => {},
        }
    }

    fn close_cell(&mut self, header: bool, content: Vec<Inline>)
        ensures
            final(self).view() == close_into(
                old(self).view(),
                FrameV::Cell { header, content: inlines_v(content@) },
            ),
    {
        let ghost s = self.view();
        match self.pop_frame() {
            Some(Frame::Row { is_head, mut cells }) => {
                let ghost c0 = cells@;
                cells.push(content);
                assert(cells@.drop_last() =~= c0);
                self.push_frame(Frame::Row { is_head: is_head || header, cells });
            },
            Some(other) => {
                self.push_frame(other);
                assert(self.view() =~= s);
            },
            None => {},
        }
    }

    fn close_row(&mut self, is_head: bool, cells: Vec<Vec<Inline>>)
        ensures
            final(self).view() == close_into(
                old(self).view(),
                FrameV::Row { is_head, cells: cells_v(cells@) },
            ),
    {
        let ghost s = self.view();
        match self.pop_frame() {
            Some(Frame::Table { head, mut rows }) => {
                if is_head {
                    self.push_frame(Frame::Table { head: cells, rows });
                } else {
                    let ghost r0 = rows@;
                    rows.push(cells);
                    assert(rows@.drop_last() =~= r0);
                    self.push_frame(Frame::Table { head, rows });
                }
            },
            Some(other) => {
                self.push_frame(other);
                assert(self.view() =~= s);
            },
            None => {},
        }
    }

    fn close_task_status(&mut self, st: String)
        ensures
            final(self).view() == close_into(old(self).view(), FrameV::TaskStatus(st@)),
    {
        let ghost s = self.view();
        let t = trim_chars(&chars_of(st.as_str()));
        let checked = chars_eq(&t, &chars_of("complete"));
        match self.pop_frame() {
            Some(Frame::Task { content, .. }) => {
                self.push_frame(Frame::Task { checked, content });
            },
            Some(other) => {
                self.push_frame(other);
                assert(self.view() =~= s);
            },
            None => {},
        }
    }

    fn close_task_body(&mut self, v: Vec<Inline>)
        ensures
            final(self).view() == close_into(old(self).view(), FrameV::TaskBody(inlines_v(v@))),
    {
        let ghost s = self.view();
        match self.pop_frame() {
            Some(Frame::Task { checked, .. }) => {
                self.push_frame(Frame::Task { checked, content: v });
            },
            Some(other) => {
                self.push_frame(other);
                assert(self.view() =~= s);
            },
            None => {},
        }
    }

    fn close_task(&mut self, checked: bool, content: Vec<Inline>)
        ensures
            final(self).view() == close_into(
                old(self).view(),
                FrameV::Task { checked, content: inlines_v(content@) },
            ),
    {
        let ghost s = self.view();
        match self.pop_frame() {
            Some(Frame::TaskList(mut tasks)) => {
                let ghost t0 = tasks@;
                let ghost cv = inlines_v(content@);
                let t = Task { checked, content };
                assert(task_v(t) == TaskV { checked, content: cv });
                tasks.push(t);
                assert(tasks@.drop_last() =~= t0);
                assert(tasks_v(tasks@) == tasks_v(t0).push(TaskV { checked, content: cv }));
                self.push_frame(Frame::TaskList(tasks));
            },
            Some(other) => {
                self.push_frame(other);
                assert(self.view() =~= s);
            },
            None => {},
        }
    }

    /// Closes a frame into the one below it.
    fn close(&mut self, f: Frame)
        ensures
            final(self).view() == close_into(old(self).view(), frame_v(f)),
    {
        match f {
            Frame::Para(c) => self.push_block(Block::Paragraph(c)),
            Frame::Heading { level, content } => self.push_block(Block::Heading { level, content }),
            Frame::Quote(c) => {
                let blocks = finish(c);
                self.push_block(Block::BlockQuote(blocks));
            },
            Frame::List { ordered, items } => self.push_block(Block::List { ordered, items }),
            Frame::Strong(c) => self.push_inline(Inline::Strong(c)),
            Frame::Emphasis(c) => self.push_inline(Inline::Emphasis(c)),
            Frame::Strike(c) => self.push_inline(Inline::Strikethrough(c)),
            Frame::Span(content) => self.push_inlines(content),
            Frame::Code(t) => self.push_inline(Inline::Code(t)),
            Frame::ExtLink { href, title, content } => self.push_inline(
                Inline::Link { target: LinkTarget::External(href), title, content },
            ),
            Frame::AcLink { target, content } => {
                let target = match target {
                    Some(t) => t,
                    None => LinkTarget::External(String::new()),
                };
                self.push_inline(Inline::Link { target, title: None, content });
            },
            Frame::AcImage { source, alt } => {
                let source = match source {
                    Some(s) => s,
                    None => ImageSource::External(String::new()),
                };
                self.push_inline(Inline::Image { source, alt });
            },
            Frame::CodeMacro { language, code } => self.push_block(Block::CodeBlock { language, code }),
            Frame::Macro { name, params, body } => {
                let m = Macro { name, params, body };
                if self.top_is_inline() {
                    self.push_inline(Inline::Macro(m));
                } else {
                    self.push_block(Block::Macro(m));
                }
            },
            Frame::Table { head, rows } => {
                let align: Vec<Alignment> = Vec::new();
                assert(align@ =~= Seq::<Alignment>::empty());
                self.push_block(Block::Table(Table { align, head, rows }));
            },
            Frame::TaskList(tasks) => self.push_block(Block::TaskList(tasks)),
            Frame::Item(c) => self.close_item(c),
            Frame::LinkBody(v) => self.close_link_body(v),
            Frame::Param { name, value } => self.close_param(name, value),
            Frame::PlainBody(t) => self.close_plain_body(t),
            Frame::RichBody(c) => self.close_rich_body(c),
            Frame::Cell { header, content } => self.close_cell(header, content),
            Frame::Row { is_head, cells } => self.close_row(is_head, cells),
            Frame::TaskStatus(st) => self.close_task_status(st),
            Frame::TaskBody(v) => self.close_task_body(v),
            Frame::Task { checked, content } => self.close_task(checked, content),
            Frame::Doc(_) => {},
        }
    }

    /// An end tag: the top frame closes into the one below it.
    pub fn end(&mut self)
        ensures
            final(self).view() == end_v(old(self).view()),
    {
        match self.pop_frame() {
            Some(f) => self.close(f),
            None => {},
        }
    }

    /// The document: the blocks of the document frame when it is on top.
    pub fn finish(self) -> (d: Document)
        ensures
            d@ == finish_doc(self.view()),
    {
        let mut b = self;
        match b.pop_frame() {
            Some(Frame::Doc(c)) => Document { blocks: finish(c) },
            _ => Document { blocks: Vec::new() },
        }
    }
}

} // verus!
