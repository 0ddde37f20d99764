//! The CommonMark syntax tree that `comrak` parses Markdown into, held as
//! plain values, and the call into `comrak` that produces it.
use vstd::prelude::*;

use comrak::arena_tree::Node;
use comrak::nodes::{AlertType, Ast, AstNode, ListType, NodeValue, TableAlignment};
use std::cell::RefCell;

use crate::ast::Alignment;

verus! {

/// The kind of a list.
#[derive(Clone, Copy, PartialEq, Eq, Debug)]
pub enum ListKind {
    Bullet,
    Ordered,
}

/// The type of a GFM alert (`> [!NOTE]` …).
#[derive(Clone, Copy, PartialEq, Eq, Debug)]
pub enum AlertKind {
    Note,
    Tip,
    Important,
    Warning,
    Caution,
}

/// What a node of the syntax tree is, with the data the conversion reads.
#[derive(Debug, PartialEq, Eq)]
pub enum MdValue {
    Document,
    Paragraph,
    Heading(u8),
    ThematicBreak,
    BlockQuote,
    CodeBlock { fenced: bool, info: String, literal: String },
    List(ListKind),
    Item,
    /// A task list item and its check mark, if any.
    TaskItem(Option<char>),
    Table(Vec<Alignment>),
    /// A table row; `true` for the header row.
    TableRow(bool),
    TableCell,
    Alert { kind: AlertKind, custom_title: Option<String> },
    HtmlBlock(String),
    Text(String),
    SoftBreak,
    LineBreak,
    Code(String),
    Emph,
    Strong,
    Strikethrough,
    Link { url: String, title: String },
    Image { url: String, title: String },
    HtmlInline(String),
    /// Any node the conversion does not read.
    Other,
}

/// A node of the syntax tree and its children, in document order.
#[derive(Debug, PartialEq, Eq)]
pub struct MdNode {
    pub value: MdValue,
    pub children: Vec<MdNode>,
}

// ---------------------------------------------------------------------------
// The call into comrak
// ---------------------------------------------------------------------------

#[verifier::external_type_specification]
#[verifier::external_body]
#[verifier::reject_recursive_types(T)]
pub struct ExArenaNode<'a, T: 'a>(Node<'a, T>);

#[verifier::external_type_specification]
#[verifier::external_body]
#[verifier::reject_recursive_types(T)]
pub struct ExRefCell<T: ?Sized>(RefCell<T>);

#[verifier::external_type_specification]
#[verifier::external_body]
pub struct ExAst(Ast);

#[verifier::external_type_specification]
#[verifier::external_body]
pub struct ExNodeValue(NodeValue);

#[verifier::external_type_specification]
#[verifier::external_body]
pub struct ExListType(ListType);

#[verifier::external_type_specification]
#[verifier::external_body]
pub struct ExTableAlignment(TableAlignment);

#[verifier::external_type_specification]
#[verifier::external_body]
pub struct ExAlertType(AlertType);

/// The syntax tree that `comrak::parse_document` builds from the Markdown
/// source, with the table, strikethrough, task list, autolink and alert
/// extensions switched on.
pub uninterp spec fn commonmark_tree(src: Seq<char>) -> MdNode;

/// Parses `src` with `comrak::parse_document` and the GFM extensions that
/// this converter reads (tables, strikethrough, task lists, autolinks,
/// alerts), and copies the tree it returns into plain values. The contract
/// only names the result: it is the tree that comrak builds from `src`,
/// which depends on nothing else.
#[verifier::external_body]
pub(crate) fn parse_commonmark(src: &str) -> (r: MdNode)
    ensures
        r == commonmark_tree(src@),
{
    let arena = comrak::Arena::new();
    let mut options = comrak::Options::default();
    options.extension.table = true;
    options.extension.strikethrough = true;
    options.extension.tasklist = true;
    options.extension.autolink = true;
    options.extension.alerts = true;
    md_node(comrak::parse_document(&arena, src, &options))
}

/// Copies a comrak node and its children, in order, into an [`MdNode`].
#[verifier::external_body]
fn md_node<'a>(node: &'a AstNode<'a>) -> MdNode {
    let value = md_value(&node.data.borrow().value);
    MdNode { value, children: node.children().map(md_node).collect() }
}

/// Copies a comrak node value: the leaf and structural blocks.
#[verifier::external_body]
fn md_value(v: &NodeValue) -> MdValue {
    match v {
        NodeValue::Document => MdValue::Document,
        NodeValue::Paragraph => MdValue::Paragraph,
        NodeValue::Heading(h) => MdValue::Heading(h.level),
        NodeValue::ThematicBreak => MdValue::ThematicBreak,
        NodeValue::BlockQuote => MdValue::BlockQuote,
        NodeValue::Item(_) => MdValue::Item,
        NodeValue::TableRow(header) => MdValue::TableRow(*header),
        NodeValue::TableCell => MdValue::TableCell,
        _ => md_container_value(v),
    }
}

/// Copies a comrak node value: blocks that carry data.
#[verifier::external_body]
fn md_container_value(v: &NodeValue) -> MdValue {
    match v {
        NodeValue::CodeBlock(c) => MdValue::CodeBlock {
            fenced: c.fenced,
            info: c.info.clone(),
            literal: c.literal.clone(),
        },
        NodeValue::List(l) => MdValue::List(list_kind(l.list_type)),
        NodeValue::TaskItem(t) => MdValue::TaskItem(t.symbol),
        NodeValue::Table(t) => MdValue::Table(t.alignments.iter().map(|a| alignment(*a)).collect()),
        NodeValue::Alert(a) => MdValue::Alert { kind: alert_kind(a.alert_type), custom_title: a.title.clone() },
        NodeValue::HtmlBlock(h) => MdValue::HtmlBlock(h.literal.clone()),
        _ => md_inline_value(v),
    }
}

/// Copies a comrak node value: inlines.
#[verifier::external_body]
fn md_inline_value(v: &NodeValue) -> MdValue {
    match v {
        NodeValue::Text(t) => MdValue::Text(t.to_string()),
        NodeValue::SoftBreak => MdValue::SoftBreak,
        NodeValue::LineBreak => MdValue::LineBreak,
        NodeValue::Code(c) => MdValue::Code(c.literal.clone()),
        NodeValue::Emph => MdValue::Emph,
        NodeValue::Strong => MdValue::Strong,
        NodeValue::Strikethrough => MdValue::Strikethrough,
        _ => md_link_value(v),
    }
}

/// Copies a comrak node value: links, images and inline HTML.
#[verifier::external_body]
fn md_link_value(v: &NodeValue) -> MdValue {
    match v {
        NodeValue::Link(l) => MdValue::Link { url: l.url.clone(), title: l.title.clone() },
        NodeValue::Image(l) => MdValue::Image { url: l.url.clone(), title: l.title.clone() },
        NodeValue::HtmlInline(h) => MdValue::HtmlInline(h.clone()),
        _ => MdValue::Other,
    }
}

/// Copies a comrak list type.
#[verifier::external_body]
fn list_kind(t: ListType) -> ListKind {
    match t {
        ListType::Bullet => ListKind::Bullet,
        ListType::Ordered => ListKind::Ordered,
    }
}

/// Copies a comrak column alignment.
#[verifier::external_body]
fn alignment(a: TableAlignment) -> Alignment {
    match a {
        TableAlignment::None => Alignment::Unaligned,
        TableAlignment::Left => Alignment::Left,
        TableAlignment::Center => Alignment::Center,
        TableAlignment::Right => Alignment::Right,
    }
}

/// Copies a comrak alert type.
#[verifier::external_body]
fn alert_kind(t: AlertType) -> AlertKind {
    match t {
        AlertType::Note => AlertKind::Note,
        AlertType::Tip => AlertKind::Tip,
        AlertType::Important => AlertKind::Important,
        AlertType::Warning => AlertKind::Warning,
        AlertType::Caution => AlertKind::Caution,
    }
}

} // verus!
