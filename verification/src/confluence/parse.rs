//! Parser: Confluence Storage Format (XHTML) -> document tree.
//!
//! The reader's events are folded into the tree by the frame machine of
//! [`super::builder`]. An element that opens no frame is kept verbatim as
//! `RawConfluence`, sliced from the source by the byte span the reader covered
//! while skipping it.
use vstd::prelude::*;

use super::builder::{
    empty_v, end_v, finish_doc, frame_from_start, frame_from_start_v, frame_push_inline,
    heading_level, push_block_v, push_inline_v, push_inlines_v, raw_v, start_stack, text_v,
    cdata_v, close_into, with_top, Builder, FrameV,
};
use super::render::{cf_block, cf_inline, cf_inlines, cf_items, cf_task};
use super::xml::{
    buffer_position, char_ref, predefined_entity, read_event, read_to_end, resolve_char_ref,
    xml_entity, xml_event, xml_offset, xml_read_to_end, XmlEvent, XmlReader, XmlTag,
};
use crate::ast::{
    block_v, inline_v, inlines_v, opt_v, Block, BlockV, Document, Inline, InlineV, Task,
};
use crate::text::{
    chars_of, decimal, digit, is_ws, push_str, str_eq, string_of, trim_end, trim_start,
};
use vstd::string::StringSliceAdditionalSpecFns;
use vstd::utf8::{decode_utf8, encode_utf8, is_char_boundary};

verus! {

broadcast use vstd::utf8::encode_utf8_decode_utf8, vstd::utf8::encode_utf8_valid_utf8;

// ---------------------------------------------------------------------------
// The model
// ---------------------------------------------------------------------------

/// The length of `src` in UTF-8 bytes.
pub open spec fn xml_len(src: Seq<char>) -> int {
    encode_utf8(src).len() as int
}

/// Wrapper elements with no node of their own: their children go to the
/// enclosing frame.
pub open spec fn is_transparent(name: Seq<char>) -> bool {
    name == "thead"@ || name == "tbody"@
}

/// The HTML entities that Confluence writes besides the five of XML.
pub open spec fn extra_entity(name: Seq<char>) -> Option<Seq<char>> {
    if name == "nbsp"@ {
        Some(seq!['\u{a0}'])
    } else if name == "mdash"@ {
        Some(seq!['\u{2014}'])
    } else if name == "ndash"@ {
        Some(seq!['\u{2013}'])
    } else if name == "hellip"@ {
        Some(seq!['\u{2026}'])
    } else if name == "copy"@ {
        Some(seq!['\u{a9}'])
    } else if name == "reg"@ {
        Some(seq!['\u{ae}'])
    } else if name == "trade"@ {
        Some(seq!['\u{2122}'])
    } else {
        None
    }
}

/// The text of a reference: its character, the entity's replacement, or the
/// reference as written when it names nothing known.
pub open spec fn ref_text(name: Seq<char>) -> Seq<char> {
    match char_ref(name) {
        Some(Some(c)) => seq![c],
        _ => match xml_entity(name) {
            Some(s) => s,
            None => match extra_entity(name) {
                Some(s) => s,
                None => "&"@ + name + ";"@,
            },
        },
    }
}

/// The characters of `src` between two byte offsets, when both fall between
/// characters.
pub open spec fn byte_slice(src: Seq<char>, a: int, b: int) -> Option<Seq<char>> {
    let bytes = encode_utf8(src);
    if 0 <= a <= b <= bytes.len() && is_char_boundary(bytes, b) && is_char_boundary(
        bytes.take(b),
        a,
    ) {
        Some(decode_utf8(bytes.subrange(a, b)))
    } else {
        None
    }
}

/// Markup kept verbatim, sliced from the source.
pub open spec fn raw_slice(st: Seq<FrameV>, src: Seq<char>, a: int, b: int) -> Seq<FrameV> {
    match byte_slice(src, a, b) {
        Some(m) => raw_v(st, m),
        None => st,
    }
}

/// One event: the number of events read after it, the stack, and whether
/// reading goes on.
pub open spec fn step(src: Seq<char>, k: nat, st: Seq<FrameV>) -> (nat, Seq<FrameV>, bool) {
    let start = xml_offset(src, k) as int;
    match xml_event(src, k) {
        XmlEvent::Start(t) => if is_transparent(t.name@) {
            (k + 1, st, true)
        } else {
            match frame_from_start_v(t) {
                Some(f) => (k + 1, st.push(f), true),
                None => {
                    let (found, k2) = xml_read_to_end(src, k + 1, t.name@);
                    (
                        k2,
                        if found {
                            raw_slice(st, src, start, xml_offset(src, k2) as int)
                        } else {
                            st
                        },
                        true,
                    )
                },
            }
        },
        XmlEvent::Empty(t) => {
            let (st2, handled) = empty_v(st, t);
            (
                k + 1,
                if handled {
                    st2
                } else {
                    match frame_from_start_v(t) {
                        Some(f) => end_v(st2.push(f)),
                        None => if is_transparent(t.name@) {
                            st2
                        } else {
                            raw_slice(st2, src, start, xml_offset(src, k + 1) as int)
                        },
                    }
                },
                true,
            )
        },
        XmlEvent::End(n) => (k + 1, if is_transparent(n@) {
            st
        } else {
            end_v(st)
        }, true),
        XmlEvent::Text(t) => (k + 1, text_v(st, t@), true),
        XmlEvent::GeneralRef(n) => (k + 1, text_v(st, ref_text(n@)), true),
        XmlEvent::CData(t) => (k + 1, cdata_v(st, t@), true),
        XmlEvent::Other => (k + 1, st, true),
        XmlEvent::Eof | XmlEvent::Error => (k + 1, st, false),
    }
}

/// Reading from the `k`-th event on: the stack when reading stops, at the end,
/// at an error, or where the reader no longer moves forward.
pub open spec fn run(src: Seq<char>, k: nat, st: Seq<FrameV>) -> Seq<FrameV>
    decreases xml_len(src) - xml_offset(src, k),
{
    let (k2, st2, go) = step(src, k, st);
    if go && xml_offset(src, k) < xml_offset(src, k2) && xml_offset(src, k2) <= xml_len(src) {
        run(src, k2, st2)
    } else {
        st2
    }
}

/// The document that a Confluence Storage Format fragment reads as.
pub open spec fn spec_from_confluence(src: Seq<char>) -> Seq<BlockV> {
    finish_doc(run(src, 0, start_stack()))
}

// ---------------------------------------------------------------------------
// Laws
// ---------------------------------------------------------------------------

/// A list keeps its kind through storage format: the element that a list is
/// written in, read back, opens a list frame with the same `ordered` flag (a
/// bullet list is written as `<ul>`, a numbered one as `<ol>`).
pub proof fn lemma_list_element_reads_back(ordered: bool, items: Vec<Vec<Block>>)
    ensures
        exists|n: Seq<char>|
            #![trigger n.len()]
            cf_block(Block::List { ordered, items }) == "<"@ + n + ">"@ + cf_items(items@) + "</"@
                + n + ">"@ && forall|t: XmlTag|
                #![trigger frame_from_start_v(t)]
                t.name@ == n ==> frame_from_start_v(t) == Some(
                    FrameV::List { ordered, items: seq![] },
                ),
{
    reveal_strlit("ul");
    reveal_strlit("ol");
    reveal_strlit("<ul>");
    reveal_strlit("</ul>");
    reveal_strlit("<ol>");
    reveal_strlit("</ol>");
    reveal_strlit("<");
    reveal_strlit(">");
    reveal_strlit("</");
    reveal_strlit("p");
    reveal_strlit("h1");
    reveal_strlit("h2");
    reveal_strlit("h3");
    reveal_strlit("h4");
    reveal_strlit("h5");
    reveal_strlit("h6");
    reveal_strlit("strong");
    reveal_strlit("em");
    reveal_strlit("span");
    reveal_strlit("code");
    reveal_strlit("blockquote");
    let n = if ordered {
        "ol"@
    } else {
        "ul"@
    };
    assert(cf_block(Block::List { ordered, items }) =~= "<"@ + n + ">"@ + cf_items(items@) + "</"@
        + n + ">"@);
    assert forall|t: XmlTag| t.name@ == n implies frame_from_start_v(t) == Some(
        FrameV::List { ordered, items: seq![] },
    ) by {
        assert(n.len() == 2);
        assert(n != "p"@);
        assert(n[0] != "h1"@[0]);
        assert(heading_level(n) is None);
        assert(n != "strong"@ && n != "span"@ && n != "code"@ && n != "blockquote"@);
        assert(n[0] != "em"@[0]);
        if ordered {
            assert(n != "ul"@) by {
                assert(n[0] != "ul"@[0]);
            }
        }
    }
    assert(n.len() == 2);
}

/// A frame with a run of inlines added one by one.
pub open spec fn frame_push_inlines(f: FrameV, v: Seq<InlineV>) -> FrameV
    decreases v.len(),
{
    if v.len() == 0 {
        f
    } else {
        frame_push_inline(frame_push_inlines(f, v.drop_last()), v.last())
    }
}

proof fn lemma_push_inlines_on_top(r: Seq<FrameV>, f: FrameV, v: Seq<InlineV>)
    ensures
        push_inlines_v(r.push(f), v) == r.push(frame_push_inlines(f, v)),
        f matches FrameV::Para(a) ==> frame_push_inlines(f, v) == FrameV::Para(a + v),
        f matches FrameV::Strong(a) ==> frame_push_inlines(f, v) == FrameV::Strong(a + v),
        f matches FrameV::Emphasis(a) ==> frame_push_inlines(f, v) == FrameV::Emphasis(a + v),
        f is Heading ==> frame_push_inlines(f, v) == (FrameV::Heading {
            level: f->Heading_level,
            content: f->Heading_content + v,
        }),
    decreases v.len(),
{
    if v.len() > 0 {
        lemma_push_inlines_on_top(r, f, v.drop_last());
        let g = frame_push_inlines(f, v.drop_last());
        assert(r.push(g).drop_last() =~= r);
        assert(with_top(r.push(g), frame_push_inline(g, v.last())) =~= r.push(
            frame_push_inline(g, v.last()),
        ));
        assert(v.drop_last().push(v.last()) =~= v);
        match f {
            FrameV::Para(a) => assert(a + v.drop_last().push(v.last()) =~= a + v),
            FrameV::Strong(a) => assert(a + v.drop_last().push(v.last()) =~= a + v),
            FrameV::Emphasis(a) => assert(a + v.drop_last().push(v.last()) =~= a + v),
            FrameV::Heading { content, .. } => assert(content + v.drop_last().push(v.last())
                =~= content + v),
            _ => {},
        }
    }
}

/// Strong and emphasised text keep their kind through storage format: the
/// element such an inline is written in, read back as a start tag, the
/// content and the end tag, gives the same inline to the enclosing frame.
pub proof fn lemma_inline_element_reads_back(i: Inline, r: Seq<FrameV>)
    requires
        r.len() > 0,
        i is Strong || i is Emphasis,
    ensures
        exists|n: Seq<char>, c: Seq<Inline>|
            #![trigger cf_inlines(c), n.len()]
            cf_inline(i) == "<"@ + n + ">"@ + cf_inlines(c) + "</"@ + n + ">"@ && forall|t: XmlTag|
                #![trigger frame_from_start_v(t)]
                t.name@ == n ==> frame_from_start_v(t) is Some && end_v(
                    push_inlines_v(r.push(frame_from_start_v(t)->0), inlines_v(c)),
                ) == push_inline_v(r, inline_v(i)),
{
    reveal_strlit("<strong>");
    reveal_strlit("</strong>");
    reveal_strlit("<em>");
    reveal_strlit("</em>");
    reveal_strlit("strong");
    reveal_strlit("em");
    reveal_strlit("<");
    reveal_strlit(">");
    reveal_strlit("</");
    reveal_strlit("p");
    reveal_strlit("h1");
    reveal_strlit("h2");
    reveal_strlit("h3");
    reveal_strlit("h4");
    reveal_strlit("h5");
    reveal_strlit("h6");
    let (n, c) = match i {
        Inline::Strong(c) => ("strong"@, c@),
        Inline::Emphasis(c) => ("em"@, c@),
        _ => (seq![], seq![]),
    };
    assert(cf_inline(i) =~= "<"@ + n + ">"@ + cf_inlines(c) + "</"@ + n + ">"@);
    assert forall|t: XmlTag| t.name@ == n implies frame_from_start_v(t) is Some && end_v(
        push_inlines_v(r.push(frame_from_start_v(t)->0), inlines_v(c)),
    ) == push_inline_v(r, inline_v(i)) by {
        assert(n != "p"@);
        assert(n[0] != "h1"@[0]);
        assert(heading_level(n) is None);
        if i is Emphasis {
            assert(n != "strong"@);
        }
        let f = frame_from_start_v(t)->0;
        lemma_push_inlines_on_top(r, f, inlines_v(c));
        assert(seq![] + inlines_v(c) =~= inlines_v(c));
        let st = r.push(frame_push_inlines(f, inlines_v(c)));
        assert(st.drop_last() =~= r);
    }
    assert(n.len() > 0);
}

/// Paragraphs and headings (of levels 1 to 6) keep their kind and level
/// through storage format: the element such a block is written in, read back
/// as a start tag, the content and the end tag, gives the same block to the
/// enclosing frame.
pub proof fn lemma_text_block_element_reads_back(b: Block, r: Seq<FrameV>)
    requires
        r.len() > 0,
        b is Paragraph || (b is Heading && 1 <= b->Heading_level <= 6),
    ensures
        exists|n: Seq<char>, c: Seq<Inline>|
            #![trigger cf_inlines(c), n.len()]
            cf_block(b) == "<"@ + n + ">"@ + cf_inlines(c) + "</"@ + n + ">"@ && forall|t: XmlTag|
                #![trigger frame_from_start_v(t)]
                t.name@ == n ==> frame_from_start_v(t) is Some && end_v(
                    push_inlines_v(r.push(frame_from_start_v(t)->0), inlines_v(c)),
                ) == push_block_v(r, block_v(b)),
{
    reveal_strlit("<p>");
    reveal_strlit("</p>");
    reveal_strlit("<h");
    reveal_strlit("</h");
    reveal_strlit("<");
    reveal_strlit(">");
    reveal_strlit("</");
    reveal_strlit("p");
    reveal_strlit("h1");
    reveal_strlit("h2");
    reveal_strlit("h3");
    reveal_strlit("h4");
    reveal_strlit("h5");
    reveal_strlit("h6");
    let (n, c) = match b {
        Block::Paragraph(c) => ("p"@, c@),
        Block::Heading { level, content } => (seq!['h'] + decimal(level as nat), content@),
        _ => (seq![], seq![]),
    };
    if let Block::Heading { level, .. } = b {
        assert(decimal(level as nat) == seq![digit(level as nat)]);
        if level == 1 {
            assert(n =~= "h1"@);
        } else if level == 2 {
            assert(n =~= "h2"@);
            assert(n[1] != "h1"@[1]);
        } else if level == 3 {
            assert(n =~= "h3"@);
            assert(n[1] != "h1"@[1] && n[1] != "h2"@[1]);
        } else if level == 4 {
            assert(n =~= "h4"@);
            assert(n[1] != "h1"@[1] && n[1] != "h2"@[1] && n[1] != "h3"@[1]);
        } else if level == 5 {
            assert(n =~= "h5"@);
            assert(n[1] != "h1"@[1] && n[1] != "h2"@[1] && n[1] != "h3"@[1] && n[1] != "h4"@[1]);
        } else {
            assert(n =~= "h6"@);
            assert(n[1] != "h1"@[1] && n[1] != "h2"@[1] && n[1] != "h3"@[1] && n[1] != "h4"@[1] && n[1] != "h5"@[1]);
        }
        assert(heading_level(n) == Some(level));
        assert(n != "p"@);
    }
    assert(cf_block(b) =~= "<"@ + n + ">"@ + cf_inlines(c) + "</"@ + n + ">"@);
    assert forall|t: XmlTag| t.name@ == n implies frame_from_start_v(t) is Some && end_v(
        push_inlines_v(r.push(frame_from_start_v(t)->0), inlines_v(c)),
    ) == push_block_v(r, block_v(b)) by {
        let f = frame_from_start_v(t)->0;
        lemma_push_inlines_on_top(r, f, inlines_v(c));
        assert(seq![] + inlines_v(c) =~= inlines_v(c));
        let st = r.push(frame_push_inlines(f, inlines_v(c)));
        assert(st.drop_last() =~= r);
    }
    assert(n.len() > 0);
}

/// A task's state keeps through storage format: the status text written for
/// a task, closed into the task frame it is read in, gives back whether the
/// task is checked.
pub proof fn lemma_task_status_reads_back(t: Task, r: Seq<FrameV>)
    requires
        r.len() > 0,
        r.last() is Task,
    ensures
        exists|st: Seq<char>|
            #![trigger close_into(r, FrameV::TaskStatus(st))]
            cf_task(t) == "<ac:task><ac:task-status>"@ + st + "</ac:task-status><ac:task-body>"@
                + cf_inlines(t.content@) + "</ac:task-body></ac:task>"@ && close_into(
                r,
                FrameV::TaskStatus(st),
            ) == r.drop_last().push(
                FrameV::Task { checked: t.checked, content: r.last()->Task_content },
            ),
{
    reveal_strlit("complete");
    reveal_strlit("incomplete");
    let st = if t.checked {
        "complete"@
    } else {
        "incomplete"@
    };
    assert(!is_ws(st[0]) && !is_ws(st.last()));
    assert(trim_start(st) == st);
    assert(trim_end(st) == st);
    assert(st.len() != "complete"@.len() ==> st != "complete"@);
    assert(close_into(r, FrameV::TaskStatus(st)) == r.drop_last().push(
        FrameV::Task { checked: t.checked, content: r.last()->Task_content },
    ));
}

/// A thematic break and a hard line break keep through storage format: each
/// is written as a self-closing element which, read back, gives the same node
/// to the enclosing frame.
pub proof fn lemma_break_elements_read_back(r: Seq<FrameV>)
    ensures
        exists|n: Seq<char>|
            #![trigger n.len()]
            cf_block(Block::ThematicBreak) == "<"@ + n + "/>"@ && forall|t: XmlTag|
                #![trigger empty_v(r, t)]
                t.name@ == n ==> empty_v(r, t) == (push_block_v(r, BlockV::ThematicBreak), true),
        exists|n: Seq<char>|
            #![trigger n.len()]
            cf_inline(Inline::HardBreak) == "<"@ + n + "/>"@ && forall|t: XmlTag|
                #![trigger empty_v(r, t)]
                t.name@ == n ==> empty_v(r, t) == (push_inline_v(r, InlineV::HardBreak), true),
{
    reveal_strlit("<hr/>");
    reveal_strlit("<br/>");
    reveal_strlit("hr");
    reveal_strlit("br");
    reveal_strlit("<");
    reveal_strlit("/>");
    assert(cf_block(Block::ThematicBreak) =~= "<"@ + "hr"@ + "/>"@);
    assert(cf_inline(Inline::HardBreak) =~= "<"@ + "br"@ + "/>"@);
    assert("br"@ != "hr"@) by {
        assert("br"@[0] != "hr"@[0]);
    }
    assert("hr"@.len() == 2 && "br"@.len() == 2);
}

// ---------------------------------------------------------------------------
// The reader loop
// ---------------------------------------------------------------------------

fn is_transparent_exec(name: &str) -> (r: bool)
    ensures
        r == is_transparent(name@),
{
    str_eq(name, "thead") || str_eq(name, "tbody")
}

fn extra_entity_exec(name: &str) -> (r: Option<&'static str>)
    ensures
        match r {
            Some(s) => extra_entity(name@) == Some(s@),
            None => extra_entity(name@) is None,
        },
{
    let r = if str_eq(name, "nbsp") {
        "\u{a0}"
    } else if str_eq(name, "mdash") {
        "\u{2014}"
    } else if str_eq(name, "ndash") {
        "\u{2013}"
    } else if str_eq(name, "hellip") {
        "\u{2026}"
    } else if str_eq(name, "copy") {
        "\u{a9}"
    } else if str_eq(name, "reg") {
        "\u{ae}"
    } else if str_eq(name, "trade") {
        "\u{2122}"
    } else {
        return None;
    };
    proof {
        reveal_strlit("\u{a0}");
        reveal_strlit("\u{2014}");
        reveal_strlit("\u{2013}");
        reveal_strlit("\u{2026}");
        reveal_strlit("\u{a9}");
        reveal_strlit("\u{ae}");
        reveal_strlit("\u{2122}");
    }
    Some(r)
}

/// The text of a reference `&name;`.
fn ref_text_exec(name: &str) -> (r: String)
    ensures
        r@ == ref_text(name@),
{
    if let Some(Some(c)) = resolve_char_ref(name) {
        let mut s = String::new();
        s.push(c);
        return s;
    }
    let found = match predefined_entity(name) {
        Some(s) => Some(s),
        None => extra_entity_exec(name),
    };
    match found {
        Some(s) => string_of(&chars_of(s)),
        None => {
            let mut out: Vec<char> = Vec::new();
            push_str(&mut out, "&");
            push_str(&mut out, name);
            push_str(&mut out, ";");
            string_of(&out)
        },
    }
}

/// The characters of `src` between two byte offsets, when both fall between
/// characters.
fn byte_slice_exec(src: &str, a: u64, b: u64) -> (r: Option<String>)
    ensures
        opt_v(r) == byte_slice(src@, a as int, b as int),
{
    let n = src.as_bytes().len();
    if a > b || b > n as u64 {
        return None;
    }
    let a = a as usize;
    let b = b as usize;
    if !src.is_char_boundary(b) {
        return None;
    }
    let (head, _) = src.split_at(b);
    if !head.is_char_boundary(a) {
        return None;
    }
    let (_, mid) = head.split_at(a);
    proof {
        assert(mid.spec_bytes() =~= encode_utf8(src@).subrange(a as int, b as int));
    }
    Some(mid.to_owned())
}

/// One event: returns whether reading goes on.
fn step_exec(reader: &mut XmlReader, builder: &mut Builder, src: &str) -> (go: bool)
    requires
        old(reader).source() == src@,
    ensures
        final(reader).source() == src@,
        (final(reader).reads(), final(builder).view(), go) == step(
            src@,
            old(reader).reads(),
            old(builder).view(),
        ),
{
    let start = buffer_position(reader);
    match read_event(reader) {
        XmlEvent::Start(t) => {
            if is_transparent_exec(t.name.as_str()) {
                return true;
            }
            match frame_from_start(&t) {
                Some(f) => builder.push_frame(f),
                None => {
                    let found = read_to_end(reader, t.name.as_str());
                    if found {
                        let end = buffer_position(reader);
                        if let Some(markup) = byte_slice_exec(src, start, end) {
                            builder.raw(markup);
                        }
                    }
                },
            }
            true
        },
        XmlEvent::Empty(t) => {
            if !builder.empty(&t) {
                match frame_from_start(&t) {
                    Some(f) => {
                        builder.push_frame(f);
                        builder.end();
                    },
                    None => {
                        if !is_transparent_exec(t.name.as_str()) {
                            let end = buffer_position(reader);
                            if let Some(markup) = byte_slice_exec(src, start, end) {
                                builder.raw(markup);
                            }
                        }
                    },
                }
            }
            true
        },
        XmlEvent::End(n) => {
            if !is_transparent_exec(n.as_str()) {
                builder.end();
            }
            true
        },
        XmlEvent::Text(t) => {
            builder.text(t.as_str());
            true
        },
        XmlEvent::GeneralRef(n) => {
            let t = ref_text_exec(n.as_str());
            builder.text(t.as_str());
            true
        },
        XmlEvent::CData(t) => {
            builder.cdata(t);
            true
        },
        XmlEvent::Other => true,
        XmlEvent::Eof | XmlEvent::Error => false,
    }
}

impl Document {
    /// Parses a Confluence Storage Format (XHTML) fragment into a [`Document`].
    /// Core CommonMark + GFM, external/resource links, and any
    /// `<ac:structured-macro>` (captured generically as a `Macro` node) are
    /// supported; unrecognized elements are preserved verbatim as
    /// `RawConfluence` (sliced from the source by byte span).
    pub fn from_confluence(src: &str) -> (d: Document)
        ensures
            d@ == spec_from_confluence(src@),
    {
        let n = src.as_bytes().len() as u64;
        let mut reader = XmlReader::new(src);
        let mut builder = Builder::new();
        loop
            invariant_except_break
                spec_from_confluence(src@) == finish_doc(run(src@, reader.reads(), builder.view())),
            invariant
                reader.source() == src@,
                n == xml_len(src@),
            ensures
                spec_from_confluence(src@) == finish_doc(builder.view()),
            decreases xml_len(src@) - xml_offset(src@, reader.reads()),
        {
            let start = buffer_position(&reader);
            let go = step_exec(&mut reader, &mut builder, src);
            let end = buffer_position(&reader);
            if !go || end <= start || end > n {
                break;
            }
        }
        builder.finish()
    }
}

} // verus!
