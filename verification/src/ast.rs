//! The shared document tree.
//!
//! [`Document`] is the canonical representation both formats parse into and
//! render out of. This module is pure data plus traversal; each format's
//! parser and renderer live in its own module.
use vstd::prelude::*;

use crate::text::str_eq;

verus! {

#[derive(Debug, Default, PartialEq, Eq)]
pub struct Document {
    pub blocks: Vec<Block>,
}

#[derive(Debug, PartialEq, Eq)]
pub enum Block {
    Heading { level: u8, content: Vec<Inline> },
    Paragraph(Vec<Inline>),
    CodeBlock { language: Option<String>, code: String },
    List { ordered: bool, items: Vec<Vec<Block>> },
    TaskList(Vec<Task>),
    BlockQuote(Vec<Block>),
    Table(Table),
    ThematicBreak,
    Macro(Macro),
    /// Confluence storage markup with no tree mapping, preserved verbatim.
    RawConfluence(String),
}

#[derive(Debug, PartialEq, Eq)]
pub enum Inline {
    Text(String),
    Strong(Vec<Inline>),
    Emphasis(Vec<Inline>),
    Strikethrough(Vec<Inline>),
    Code(String),
    Link { target: LinkTarget, title: Option<String>, content: Vec<Inline> },
    Image { source: ImageSource, alt: String },
    SoftBreak,
    HardBreak,
    Macro(Macro),
    /// Inline Confluence storage markup with no tree mapping, preserved
    /// verbatim.
    RawConfluence(String),
}

/// The destination of an [`Inline::Link`]. External links carry a URL; the
/// others are Confluence resource references (`ri:page` /
/// `ri:content-entity` / `ri:attachment` / anchor) that round-trip through
/// Markdown as a `confluence://` URI.
#[derive(Debug, PartialEq, Eq)]
pub enum LinkTarget {
    External(String),
    Page { space: Option<String>, title: String },
    /// A page referenced by numeric content id (`ri:content-id`).
    Content(String),
    Attachment(String),
    Anchor(String),
}

/// The source of an [`Inline::Image`]: an external URL (`ri:url`) or a
/// Confluence attachment (`ri:attachment`).
#[derive(Debug, PartialEq, Eq)]
pub enum ImageSource {
    External(String),
    Attachment(String),
}

#[derive(Debug, PartialEq, Eq)]
pub struct Task {
    pub checked: bool,
    pub content: Vec<Inline>,
}

/// A GFM/Confluence table. `head` is the header row; `rows` are body rows;
/// each cell is a sequence of inlines. `align` is per column (lossy toward
/// Confluence, which has no standard per-column alignment).
#[derive(Debug, PartialEq, Eq)]
pub struct Table {
    pub align: Vec<Alignment>,
    pub head: Vec<Vec<Inline>>,
    pub rows: Vec<Vec<Vec<Inline>>>,
}

#[derive(Debug, Clone, Copy, PartialEq, Eq)]
pub enum Alignment {
    /// No alignment given (a `---` delimiter cell).
    Unaligned,
    Left,
    Center,
    Right,
}

impl Default for Alignment {
    fn default() -> (r: Alignment)
        ensures
            r == Alignment::Unaligned,
    {
        Alignment::Unaligned
    }
}

/// A Confluence `<ac:structured-macro>`. The same representation covers the
/// built-in macros (code, info, note, warning, tip, panel, expand, toc,
/// status) and any unknown macro, which is preserved rather than dropped.
#[derive(Debug, PartialEq, Eq)]
pub struct Macro {
    pub name: String,
    pub params: Vec<(String, String)>,
    pub body: MacroBody,
}

/// The body of a [`Macro`]: empty (toc/status), raw text (code, via CDATA),
/// or nested storage markup (admonitions, panel, expand).
#[derive(Debug, PartialEq, Eq)]
pub enum MacroBody {
    Empty,
    PlainText(String),
    RichText(Vec<Block>),
}

/// The value of the first parameter named `key`.
pub open spec fn param_value(params: Seq<(String, String)>, key: Seq<char>) -> Option<Seq<char>>
    decreases params.len(),
{
    if params.len() == 0 {
        None
    } else if params[0].0@ == key {
        Some(params[0].1@)
    } else {
        param_value(params.drop_first(), key)
    }
}

impl Macro {
    /// The value of the first parameter named `key`, if present.
    pub fn param(&self, key: &str) -> (r: Option<&str>)
        ensures
            r is Some <==> param_value(self.params@, key@) is Some,
            r matches Some(v) ==> v@ == param_value(self.params@, key@)->0,
    {
        let mut i: usize = 0;
        assert(self.params@.skip(0) =~= self.params@);
        while i < self.params.len()
            invariant
                i <= self.params.len(),
                param_value(self.params@, key@) == param_value(
                    self.params@.skip(i as int),
                    key@,
                ),
            decreases self.params.len() - i,
        {
            proof {
                assert(self.params@.skip(i as int).drop_first() =~= self.params@.skip(i + 1));
            }
            if str_eq(self.params[i].0.as_str(), key) {
                return Some(self.params[i].1.as_str());
            }
            i += 1;
        }
        None
    }
}

/// A node visited during a [`Document`] traversal.
#[derive(Clone, Copy)]
pub enum TreeNode<'a> {
    Block(&'a Block),
    Inline(&'a Inline),
}

/// What a traversal visits, as a value.
pub ghost enum Visit {
    Block(Block),
    Inline(Inline),
}

impl<'a> TreeNode<'a> {
    pub open spec fn visit(self) -> Visit {
        match self {
            TreeNode::Block(b) => Visit::Block(*b),
            TreeNode::Inline(i) => Visit::Inline(*i),
        }
    }

    fn block(self) -> (r: Option<&'a Block>)
        ensures
            r matches Some(b) ==> self.visit() == Visit::Block(*b),
            r is None ==> self.visit() is Inline,
    {
        match self {
            TreeNode::Block(block) => Some(block),
            TreeNode::Inline(_) => None,
        }
    }

    fn inline(self) -> (r: Option<&'a Inline>)
        ensures
            r matches Some(i) ==> self.visit() == Visit::Inline(*i),
            r is None ==> self.visit() is Block,
    {
        match self {
            TreeNode::Inline(inline) => Some(inline),
            TreeNode::Block(_) => None,
        }
    }
}

pub open spec fn visits<'a>(s: Seq<TreeNode<'a>>) -> Seq<Visit> {
    s.map_values(|n: TreeNode<'a>| n.visit())
}

// Depth-first pre-order traversal.
pub open spec fn walk_block(b: Block) -> Seq<Visit>
    decreases b,
{
    seq![Visit::Block(b)] + match b {
        Block::Heading { content, .. } => walk_inlines(content@),
        Block::Paragraph(content) => walk_inlines(content@),
        Block::List { items, .. } => walk_items(items@),
        Block::TaskList(tasks) => walk_tasks(tasks@),
        Block::BlockQuote(blocks) => walk_blocks(blocks@),
        Block::Table(t) => walk_cells(t.head@) + walk_rows(t.rows@),
        Block::Macro(m) => walk_macro(m),
        _ => seq![],
    }
}

pub open spec fn walk_blocks(s: Seq<Block>) -> Seq<Visit>
    decreases s,
{
    if s.len() == 0 {
        seq![]
    } else {
        walk_blocks(s.drop_last()) + walk_block(s.last())
    }
}

pub open spec fn walk_items(s: Seq<Vec<Block>>) -> Seq<Visit>
    decreases s,
{
    if s.len() == 0 {
        seq![]
    } else {
        walk_items(s.drop_last()) + walk_blocks(s.last()@)
    }
}

pub open spec fn walk_tasks(s: Seq<Task>) -> Seq<Visit>
    decreases s,
{
    if s.len() == 0 {
        seq![]
    } else {
        walk_tasks(s.drop_last()) + walk_inlines(s.last().content@)
    }
}

pub open spec fn walk_cells(s: Seq<Vec<Inline>>) -> Seq<Visit>
    decreases s,
{
    if s.len() == 0 {
        seq![]
    } else {
        walk_cells(s.drop_last()) + walk_inlines(s.last()@)
    }
}

pub open spec fn walk_rows(s: Seq<Vec<Vec<Inline>>>) -> Seq<Visit>
    decreases s,
{
    if s.len() == 0 {
        seq![]
    } else {
        walk_rows(s.drop_last()) + walk_cells(s.last()@)
    }
}

pub open spec fn walk_macro(m: Macro) -> Seq<Visit>
    decreases m,
{
    match m.body {
        MacroBody::RichText(blocks) => walk_blocks(blocks@),
        _ => seq![],
    }
}

pub open spec fn walk_inline(i: Inline) -> Seq<Visit>
    decreases i,
{
    seq![Visit::Inline(i)] + match i {
        Inline::Strong(c) => walk_inlines(c@),
        Inline::Emphasis(c) => walk_inlines(c@),
        Inline::Strikethrough(c) => walk_inlines(c@),
        Inline::Link { content, .. } => walk_inlines(content@),
        Inline::Macro(m) => walk_macro(m),
        _ => seq![],
    }
}

pub open spec fn walk_inlines(s: Seq<Inline>) -> Seq<Visit>
    decreases s,
{
    if s.len() == 0 {
        seq![]
    } else {
        walk_inlines(s.drop_last()) + walk_inline(s.last())
    }
}

/// The blocks among the visited nodes, in order.
pub open spec fn visited_blocks(s: Seq<Visit>) -> Seq<Block>
    decreases s.len(),
{
    if s.len() == 0 {
        seq![]
    } else {
        visited_blocks(s.drop_last()) + match s.last() {
            Visit::Block(b) => seq![b],
            Visit::Inline(_) => seq![],
        }
    }
}

/// The inlines among the visited nodes, in order.
pub open spec fn visited_inlines(s: Seq<Visit>) -> Seq<Inline>
    decreases s.len(),
{
    if s.len() == 0 {
        seq![]
    } else {
        visited_inlines(s.drop_last()) + match s.last() {
            Visit::Inline(i) => seq![i],
            Visit::Block(_) => seq![],
        }
    }
}

impl Document {
    /// Every block in depth-first pre-order.
    pub open spec fn all_blocks(self) -> Seq<Block> {
        visited_blocks(walk_blocks(self.blocks@))
    }

    /// Every inline in depth-first pre-order.
    pub open spec fn all_inlines(self) -> Seq<Inline> {
        visited_inlines(walk_blocks(self.blocks@))
    }

    /// Every [`Block`] in the document in depth-first pre-order, including
    /// blocks nested in list items, block quotes, and macro bodies.
    pub fn blocks(&self) -> (r: Vec<&Block>)
        ensures
            r@.len() == self.all_blocks().len(),
            forall|i: int| 0 <= i < r@.len() ==> *r@[i] == self.all_blocks()[i],
    {
        let nodes = self.walk();
        let mut out: Vec<&Block> = Vec::new();
        let ghost all = visits(nodes@);
        for i in 0..nodes.len()
            invariant
                all == visits(nodes@),
                out@.len() == visited_blocks(all.take(i as int)).len(),
                forall|j: int|
                    0 <= j < out@.len() ==> *out@[j] == visited_blocks(all.take(i as int))[j],
        {
            proof {
                assert(all.take(i + 1).drop_last() =~= all.take(i as int));
            }
            if let Some(b) = nodes[i].block() {
                out.push(b);
            }
        }
        proof {
            assert(all.take(nodes.len() as int) =~= all);
        }
        out
    }

    /// Every [`Inline`] in the document in depth-first pre-order, descending
    /// through nested inlines and every block that carries inline content
    /// (headings, paragraphs, task lists, table cells, macro bodies).
    pub fn inlines(&self) -> (r: Vec<&Inline>)
        ensures
            r@.len() == self.all_inlines().len(),
            forall|i: int| 0 <= i < r@.len() ==> *r@[i] == self.all_inlines()[i],
    {
        let nodes = self.walk();
        let mut out: Vec<&Inline> = Vec::new();
        let ghost all = visits(nodes@);
        for i in 0..nodes.len()
            invariant
                all == visits(nodes@),
                out@.len() == visited_inlines(all.take(i as int)).len(),
                forall|j: int|
                    0 <= j < out@.len() ==> *out@[j] == visited_inlines(all.take(i as int))[j],
        {
            proof {
                assert(all.take(i + 1).drop_last() =~= all.take(i as int));
            }
            if let Some(b) = nodes[i].inline() {
                out.push(b);
            }
        }
        proof {
            assert(all.take(nodes.len() as int) =~= all);
        }
        out
    }

    fn walk(&self) -> (r: Vec<TreeNode<'_>>)
        ensures
            visits(r@) == walk_blocks(self.blocks@),
    {
        let mut out: Vec<TreeNode<'_>> = Vec::new();
        walk_block_slice(&self.blocks, &mut out);
        proof {
            assert(visits(out@) =~= visits(Seq::<TreeNode>::empty()) + walk_blocks(self.blocks@));
        }
        out
    }
}

// ---------------------------------------------------------------------------
// The traversal reaches every nested node
// ---------------------------------------------------------------------------

/// `x` is a block directly inside `b`: a child of a block quote, a block of a
/// list item, or a block of a macro's rich-text body.
pub open spec fn is_child_block(b: Block, x: Block) -> bool {
    match b {
        Block::BlockQuote(bs) => bs@.contains(x),
        Block::List { items, .. } => exists|i: int|
            0 <= i < items@.len() && #[trigger] items@[i]@.contains(x),
        Block::Macro(m) => match m.body {
            MacroBody::RichText(bs) => bs@.contains(x),
            _ => false,
        },
        _ => false,
    }
}

/// `y` is an inline directly inside block `b`: the content of a heading, a
/// paragraph or a task, or of a table cell.
pub open spec fn is_inline_of_block(b: Block, y: Inline) -> bool {
    match b {
        Block::Heading { content, .. } => content@.contains(y),
        Block::Paragraph(content) => content@.contains(y),
        Block::TaskList(tasks) => exists|k: int|
            0 <= k < tasks@.len() && #[trigger] tasks@[k].content@.contains(y),
        Block::Table(t) => (exists|k: int|
            0 <= k < t.head@.len() && #[trigger] t.head@[k]@.contains(y)) || (exists|r: int, k: int|
            0 <= r < t.rows@.len() && 0 <= k < t.rows@[r]@.len()
                && #[trigger] t.rows@[r]@[k]@.contains(y)),
        _ => false,
    }
}

/// `y` is an inline directly inside inline `i`: the content of strong,
/// emphasised or struck-through text, or of a link.
pub open spec fn is_child_inline(i: Inline, y: Inline) -> bool {
    match i {
        Inline::Strong(c) => c@.contains(y),
        Inline::Emphasis(c) => c@.contains(y),
        Inline::Strikethrough(c) => c@.contains(y),
        Inline::Link { content, .. } => content@.contains(y),
        _ => false,
    }
}

/// `x` is a block of the rich-text body of an inline macro `i`.
pub open spec fn is_block_of_inline(i: Inline, x: Block) -> bool {
    match i {
        Inline::Macro(m) => match m.body {
            MacroBody::RichText(bs) => bs@.contains(x),
            _ => false,
        },
        _ => false,
    }
}

/// Whatever is nested directly in a visited node is visited too.
pub open spec fn reaches_children(v: Seq<Visit>) -> bool {
    &&& forall|b: Block, x: Block|
        #![trigger visited_blocks(v).contains(b), is_child_block(b, x)]
        visited_blocks(v).contains(b) && is_child_block(b, x) ==> visited_blocks(v).contains(x)
    &&& forall|b: Block, y: Inline|
        #![trigger visited_blocks(v).contains(b), is_inline_of_block(b, y)]
        visited_blocks(v).contains(b) && is_inline_of_block(b, y) ==> visited_inlines(v).contains(y)
    &&& forall|i: Inline, y: Inline|
        #![trigger visited_inlines(v).contains(i), is_child_inline(i, y)]
        visited_inlines(v).contains(i) && is_child_inline(i, y) ==> visited_inlines(v).contains(y)
    &&& forall|i: Inline, x: Block|
        #![trigger visited_inlines(v).contains(i), is_block_of_inline(i, x)]
        visited_inlines(v).contains(i) && is_block_of_inline(i, x) ==> visited_blocks(v).contains(x)
}

proof fn lemma_visited_concat(a: Seq<Visit>, b: Seq<Visit>)
    ensures
        visited_blocks(a + b) == visited_blocks(a) + visited_blocks(b),
        visited_inlines(a + b) == visited_inlines(a) + visited_inlines(b),
    decreases b.len(),
{
    if b.len() == 0 {
        assert(a + b =~= a);
        assert(visited_blocks(a) + visited_blocks(b) =~= visited_blocks(a));
        assert(visited_inlines(a) + visited_inlines(b) =~= visited_inlines(a));
    } else {
        assert((a + b).drop_last() =~= a + b.drop_last());
        lemma_visited_concat(a, b.drop_last());
        assert(visited_blocks(a + b) =~= visited_blocks(a) + visited_blocks(b));
        assert(visited_inlines(a + b) =~= visited_inlines(a) + visited_inlines(b));
    }
}

proof fn lemma_contains_concat<A>(a: Seq<A>, b: Seq<A>, x: A)
    ensures
        (a + b).contains(x) <==> a.contains(x) || b.contains(x),
{
    if (a + b).contains(x) {
        let k = choose|k: int| 0 <= k < (a + b).len() && (a + b)[k] == x;
        if k >= a.len() {
            assert(b[k - a.len()] == x);
        }
    }
    if a.contains(x) {
        let k = choose|k: int| 0 <= k < a.len() && a[k] == x;
        assert((a + b)[k] == x);
    }
    if b.contains(x) {
        let k = choose|k: int| 0 <= k < b.len() && b[k] == x;
        assert((a + b)[a.len() + k] == x);
    }
}

/// Membership in the visits of `a + b`.
proof fn lemma_visited_contains_concat(a: Seq<Visit>, b: Seq<Visit>)
    ensures
        forall|x: Block|
            #![trigger visited_blocks(a + b).contains(x)]
            visited_blocks(a + b).contains(x) <==> visited_blocks(a).contains(x)
                || visited_blocks(b).contains(x),
        forall|y: Inline|
            #![trigger visited_inlines(a + b).contains(y)]
            visited_inlines(a + b).contains(y) <==> visited_inlines(a).contains(y)
                || visited_inlines(b).contains(y),
{
    lemma_visited_concat(a, b);
    assert forall|x: Block|
        #![trigger visited_blocks(a + b).contains(x)]
        visited_blocks(a + b).contains(x) <==> visited_blocks(a).contains(x) || visited_blocks(
            b,
        ).contains(x) by {
        lemma_contains_concat(visited_blocks(a), visited_blocks(b), x);
    }
    assert forall|y: Inline|
        #![trigger visited_inlines(a + b).contains(y)]
        visited_inlines(a + b).contains(y) <==> visited_inlines(a).contains(y) || visited_inlines(
            b,
        ).contains(y) by {
        lemma_contains_concat(visited_inlines(a), visited_inlines(b), y);
    }
}

proof fn lemma_reaches_concat(a: Seq<Visit>, b: Seq<Visit>)
    requires
        reaches_children(a),
        reaches_children(b),
    ensures
        reaches_children(a + b),
{
    lemma_visited_contains_concat(a, b);
    let ab = a + b;
    assert forall|p: Block, x: Block|
        visited_blocks(ab).contains(p) && is_child_block(p, x) implies visited_blocks(ab).contains(
        x,
    ) by {
        if visited_blocks(a).contains(p) {
            assert(visited_blocks(a).contains(x));
        } else {
            assert(visited_blocks(b).contains(x));
        }
    }
    assert forall|p: Block, y: Inline|
        visited_blocks(ab).contains(p) && is_inline_of_block(p, y) implies visited_inlines(
        ab,
    ).contains(y) by {
        if visited_blocks(a).contains(p) {
            assert(visited_inlines(a).contains(y));
        } else {
            assert(visited_inlines(b).contains(y));
        }
    }
    assert forall|p: Inline, y: Inline|
        visited_inlines(ab).contains(p) && is_child_inline(p, y) implies visited_inlines(
        ab,
    ).contains(y) by {
        if visited_inlines(a).contains(p) {
            assert(visited_inlines(a).contains(y));
        } else {
            assert(visited_inlines(b).contains(y));
        }
    }
    assert forall|p: Inline, x: Block|
        visited_inlines(ab).contains(p) && is_block_of_inline(p, x) implies visited_blocks(
        ab,
    ).contains(x) by {
        if visited_inlines(a).contains(p) {
            assert(visited_blocks(a).contains(x));
        } else {
            assert(visited_blocks(b).contains(x));
        }
    }
}

proof fn lemma_visited_head(v: Visit)
    ensures
        visited_blocks(seq![v]) == (match v {
            Visit::Block(b) => seq![b],
            Visit::Inline(_) => Seq::<Block>::empty(),
        }),
        visited_inlines(seq![v]) == (match v {
            Visit::Inline(i) => seq![i],
            Visit::Block(_) => Seq::<Inline>::empty(),
        }),
{
    let head = seq![v];
    assert(head.drop_last() =~= Seq::<Visit>::empty());
    assert(visited_blocks(head.drop_last()) =~= Seq::<Block>::empty());
    assert(visited_inlines(head.drop_last()) =~= Seq::<Inline>::empty());
    assert(head.last() == v);
    assert(visited_blocks(head) =~= (match v {
        Visit::Block(b) => seq![b],
        Visit::Inline(_) => Seq::<Block>::empty(),
    }));
    assert(visited_inlines(head) =~= (match v {
        Visit::Inline(i) => seq![i],
        Visit::Block(_) => Seq::<Inline>::empty(),
    }));
}

proof fn lemma_reaches_prepend_block(x: Block, rest: Seq<Visit>)
    requires
        reaches_children(rest),
        forall|y: Block| #[trigger] is_child_block(x, y) ==> visited_blocks(rest).contains(y),
        forall|y: Inline| #[trigger] is_inline_of_block(x, y) ==> visited_inlines(rest).contains(y),
    ensures
        reaches_children(seq![Visit::Block(x)] + rest),
        visited_blocks(seq![Visit::Block(x)] + rest).contains(x),
{
    let head = seq![Visit::Block(x)];
    lemma_visited_head(Visit::Block(x));
    lemma_visited_contains_concat(head, rest);
    lemma_contains_concat(seq![x], Seq::<Block>::empty(), x);
    assert(seq![x][0] == x);
    let all = head + rest;
    assert forall|y: Inline| !visited_inlines(head).contains(y) by {}
    assert forall|p: Block, y: Block|
        visited_blocks(all).contains(p) && is_child_block(p, y) implies visited_blocks(
        all,
    ).contains(y) by {
        if !visited_blocks(rest).contains(p) {
            assert(seq![x].contains(p));
            assert(p == x);
        }
    }
    assert forall|p: Block, y: Inline|
        visited_blocks(all).contains(p) && is_inline_of_block(p, y) implies visited_inlines(
        all,
    ).contains(y) by {
        if !visited_blocks(rest).contains(p) {
            assert(seq![x].contains(p));
            assert(p == x);
        }
    }
}

proof fn lemma_reaches_prepend_inline(i: Inline, rest: Seq<Visit>)
    requires
        reaches_children(rest),
        forall|y: Inline| #[trigger] is_child_inline(i, y) ==> visited_inlines(rest).contains(y),
        forall|x: Block| #[trigger] is_block_of_inline(i, x) ==> visited_blocks(rest).contains(x),
    ensures
        reaches_children(seq![Visit::Inline(i)] + rest),
        visited_inlines(seq![Visit::Inline(i)] + rest).contains(i),
{
    let head = seq![Visit::Inline(i)];
    lemma_visited_head(Visit::Inline(i));
    lemma_visited_contains_concat(head, rest);
    assert(seq![i][0] == i);
    let all = head + rest;
    assert forall|x: Block| !visited_blocks(head).contains(x) by {}
    assert forall|p: Inline, y: Inline|
        visited_inlines(all).contains(p) && is_child_inline(p, y) implies visited_inlines(
        all,
    ).contains(y) by {
        if !visited_inlines(rest).contains(p) {
            assert(seq![i].contains(p));
            assert(p == i);
        }
    }
    assert forall|p: Inline, x: Block|
        visited_inlines(all).contains(p) && is_block_of_inline(p, x) implies visited_blocks(
        all,
    ).contains(x) by {
        if !visited_inlines(rest).contains(p) {
            assert(seq![i].contains(p));
            assert(p == i);
        }
    }
}

proof fn lemma_reaches_empty()
    ensures
        reaches_children(Seq::<Visit>::empty()),
{
    assert(visited_blocks(Seq::<Visit>::empty()) =~= Seq::<Block>::empty());
    assert(visited_inlines(Seq::<Visit>::empty()) =~= Seq::<Inline>::empty());
}

proof fn lemma_walk_block_reaches(b: Block)
    ensures
        reaches_children(walk_block(b)),
        visited_blocks(walk_block(b)).contains(b),
    decreases b,
{
    let rest = match b {
        Block::Heading { content, .. } => walk_inlines(content@),
        Block::Paragraph(content) => walk_inlines(content@),
        Block::List { items, .. } => walk_items(items@),
        Block::TaskList(tasks) => walk_tasks(tasks@),
        Block::BlockQuote(blocks) => walk_blocks(blocks@),
        Block::Table(t) => walk_cells(t.head@) + walk_rows(t.rows@),
        Block::Macro(m) => walk_macro(m),
        _ => seq![],
    };
    match b {
        Block::Heading { content, .. } => lemma_walk_inlines_reaches(content@),
        Block::Paragraph(content) => lemma_walk_inlines_reaches(content@),
        Block::List { items, .. } => lemma_walk_items_reaches(items@),
        Block::TaskList(tasks) => lemma_walk_tasks_reaches(tasks@),
        Block::BlockQuote(blocks) => lemma_walk_blocks_reaches(blocks@),
        Block::Table(t) => {
            lemma_walk_cells_reaches(t.head@);
            lemma_walk_rows_reaches(t.rows@);
            lemma_reaches_concat(walk_cells(t.head@), walk_rows(t.rows@));
            lemma_visited_contains_concat(walk_cells(t.head@), walk_rows(t.rows@));
        },
        Block::Macro(m) => lemma_walk_macro_reaches(m),
        _ => lemma_reaches_empty(),
    }
    assert forall|y: Block| #[trigger] is_child_block(b, y) implies visited_blocks(rest).contains(
        y,
    ) by {
        match b {
            Block::BlockQuote(bs) => {
                let k = choose|k: int| 0 <= k < bs@.len() && bs@[k] == y;
            },
            Block::List { items, .. } => {
                let i = choose|i: int| 0 <= i < items@.len() && #[trigger] items@[i]@.contains(y);
                let k = choose|k: int| 0 <= k < items@[i]@.len() && items@[i]@[k] == y;
            },
            Block::Macro(m) => {
                if let MacroBody::RichText(bs) = m.body {
                    let k = choose|k: int| 0 <= k < bs@.len() && bs@[k] == y;
                }
            },
            _ => {},
        }
    }
    assert forall|y: Inline| #[trigger] is_inline_of_block(b, y) implies visited_inlines(
        rest,
    ).contains(y) by {
        match b {
            Block::Heading { content, .. } => {
                let k = choose|k: int| 0 <= k < content@.len() && content@[k] == y;
            },
            Block::Paragraph(content) => {
                let k = choose|k: int| 0 <= k < content@.len() && content@[k] == y;
            },
            Block::TaskList(tasks) => {
                let i = choose|i: int|
                    0 <= i < tasks@.len() && #[trigger] tasks@[i].content@.contains(y);
                let k = choose|k: int|
                    0 <= k < tasks@[i].content@.len() && tasks@[i].content@[k] == y;
            },
            Block::Table(t) => {
                if exists|k: int| 0 <= k < t.head@.len() && #[trigger] t.head@[k]@.contains(y) {
                    let i = choose|i: int| 0 <= i < t.head@.len() && #[trigger] t.head@[i]@.contains(y);
                    let k = choose|k: int| 0 <= k < t.head@[i]@.len() && t.head@[i]@[k] == y;
                } else {
                    let (r, i) = choose|r: int, i: int|
                        0 <= r < t.rows@.len() && 0 <= i < t.rows@[r]@.len()
                            && #[trigger] t.rows@[r]@[i]@.contains(y);
                    let k = choose|k: int|
                        0 <= k < t.rows@[r]@[i]@.len() && t.rows@[r]@[i]@[k] == y;
                }
            },
            _ => {},
        }
    }
    lemma_reaches_prepend_block(b, rest);
    assert(walk_block(b) == seq![Visit::Block(b)] + rest);
}

proof fn lemma_walk_blocks_reaches(s: Seq<Block>)
    ensures
        reaches_children(walk_blocks(s)),
        forall|k: int| 0 <= k < s.len() ==> visited_blocks(walk_blocks(s)).contains(#[trigger] s[k]),
    decreases s,
{
    if s.len() == 0 {
        lemma_reaches_empty();
    } else {
        let init = s.drop_last();
        lemma_walk_blocks_reaches(init);
        lemma_walk_block_reaches(s.last());
        lemma_reaches_concat(walk_blocks(init), walk_block(s.last()));
        lemma_visited_contains_concat(walk_blocks(init), walk_block(s.last()));
        assert forall|k: int| 0 <= k < s.len() implies visited_blocks(walk_blocks(s)).contains(
            #[trigger] s[k],
        ) by {
            if k < s.len() - 1 {
                assert(s[k] == init[k]);
            }
        }
    }
}

proof fn lemma_walk_items_reaches(s: Seq<Vec<Block>>)
    ensures
        reaches_children(walk_items(s)),
        forall|i: int, k: int|
            0 <= i < s.len() && 0 <= k < s[i]@.len() ==> visited_blocks(walk_items(s)).contains(
                #[trigger] s[i]@[k],
            ),
    decreases s,
{
    if s.len() == 0 {
        lemma_reaches_empty();
    } else {
        let init = s.drop_last();
        lemma_walk_items_reaches(init);
        lemma_walk_blocks_reaches(s.last()@);
        lemma_reaches_concat(walk_items(init), walk_blocks(s.last()@));
        lemma_visited_contains_concat(walk_items(init), walk_blocks(s.last()@));
        assert forall|i: int, k: int|
            0 <= i < s.len() && 0 <= k < s[i]@.len() implies visited_blocks(
            walk_items(s),
        ).contains(#[trigger] s[i]@[k]) by {
            if i < s.len() - 1 {
                assert(s[i] == init[i]);
            }
        }
    }
}

proof fn lemma_walk_tasks_reaches(s: Seq<Task>)
    ensures
        reaches_children(walk_tasks(s)),
        forall|i: int, k: int|
            0 <= i < s.len() && 0 <= k < s[i].content@.len() ==> visited_inlines(
                walk_tasks(s),
            ).contains(#[trigger] s[i].content@[k]),
    decreases s,
{
    if s.len() == 0 {
        lemma_reaches_empty();
    } else {
        let init = s.drop_last();
        lemma_walk_tasks_reaches(init);
        lemma_walk_inlines_reaches(s.last().content@);
        lemma_reaches_concat(walk_tasks(init), walk_inlines(s.last().content@));
        lemma_visited_contains_concat(walk_tasks(init), walk_inlines(s.last().content@));
        assert forall|i: int, k: int|
            0 <= i < s.len() && 0 <= k < s[i].content@.len() implies visited_inlines(
            walk_tasks(s),
        ).contains(#[trigger] s[i].content@[k]) by {
            if i < s.len() - 1 {
                assert(s[i] == init[i]);
            }
        }
    }
}

proof fn lemma_walk_cells_reaches(s: Seq<Vec<Inline>>)
    ensures
        reaches_children(walk_cells(s)),
        forall|i: int, k: int|
            0 <= i < s.len() && 0 <= k < s[i]@.len() ==> visited_inlines(walk_cells(s)).contains(
                #[trigger] s[i]@[k],
            ),
    decreases s,
{
    if s.len() == 0 {
        lemma_reaches_empty();
    } else {
        let init = s.drop_last();
        lemma_walk_cells_reaches(init);
        lemma_walk_inlines_reaches(s.last()@);
        lemma_reaches_concat(walk_cells(init), walk_inlines(s.last()@));
        lemma_visited_contains_concat(walk_cells(init), walk_inlines(s.last()@));
        assert forall|i: int, k: int|
            0 <= i < s.len() && 0 <= k < s[i]@.len() implies visited_inlines(
            walk_cells(s),
        ).contains(#[trigger] s[i]@[k]) by {
            if i < s.len() - 1 {
                assert(s[i] == init[i]);
            }
        }
    }
}

proof fn lemma_walk_rows_reaches(s: Seq<Vec<Vec<Inline>>>)
    ensures
        reaches_children(walk_rows(s)),
        forall|r: int, i: int, k: int|
            0 <= r < s.len() && 0 <= i < s[r]@.len() && 0 <= k < s[r]@[i]@.len()
                ==> visited_inlines(walk_rows(s)).contains(#[trigger] s[r]@[i]@[k]),
    decreases s,
{
    if s.len() == 0 {
        lemma_reaches_empty();
    } else {
        let init = s.drop_last();
        lemma_walk_rows_reaches(init);
        lemma_walk_cells_reaches(s.last()@);
        lemma_reaches_concat(walk_rows(init), walk_cells(s.last()@));
        lemma_visited_contains_concat(walk_rows(init), walk_cells(s.last()@));
        assert forall|r: int, i: int, k: int|
            0 <= r < s.len() && 0 <= i < s[r]@.len() && 0 <= k < s[r]@[i]@.len() implies visited_inlines(
            walk_rows(s),
        ).contains(#[trigger] s[r]@[i]@[k]) by {
            if r < s.len() - 1 {
                assert(s[r] == init[r]);
            }
        }
    }
}

proof fn lemma_walk_macro_reaches(m: Macro)
    ensures
        reaches_children(walk_macro(m)),
        m.body matches MacroBody::RichText(bs) ==> forall|k: int|
            0 <= k < bs@.len() ==> visited_blocks(walk_macro(m)).contains(#[trigger] bs@[k]),
    decreases m,
{
    match m.body {
        MacroBody::RichText(bs) => lemma_walk_blocks_reaches(bs@),
        _ => lemma_reaches_empty(),
    }
}

proof fn lemma_walk_inline_reaches(i: Inline)
    ensures
        reaches_children(walk_inline(i)),
        visited_inlines(walk_inline(i)).contains(i),
    decreases i,
{
    let rest = match i {
        Inline::Strong(c) => walk_inlines(c@),
        Inline::Emphasis(c) => walk_inlines(c@),
        Inline::Strikethrough(c) => walk_inlines(c@),
        Inline::Link { content, .. } => walk_inlines(content@),
        Inline::Macro(m) => walk_macro(m),
        _ => seq![],
    };
    match i {
        Inline::Strong(c) => lemma_walk_inlines_reaches(c@),
        Inline::Emphasis(c) => lemma_walk_inlines_reaches(c@),
        Inline::Strikethrough(c) => lemma_walk_inlines_reaches(c@),
        Inline::Link { content, .. } => lemma_walk_inlines_reaches(content@),
        Inline::Macro(m) => lemma_walk_macro_reaches(m),
        _ => lemma_reaches_empty(),
    }
    assert forall|y: Inline| #[trigger] is_child_inline(i, y) implies visited_inlines(
        rest,
    ).contains(y) by {
        match i {
            Inline::Strong(c) => {
                let k = choose|k: int| 0 <= k < c@.len() && c@[k] == y;
            },
            Inline::Emphasis(c) => {
                let k = choose|k: int| 0 <= k < c@.len() && c@[k] == y;
            },
            Inline::Strikethrough(c) => {
                let k = choose|k: int| 0 <= k < c@.len() && c@[k] == y;
            },
            Inline::Link { content, .. } => {
                let k = choose|k: int| 0 <= k < content@.len() && content@[k] == y;
            },
            _ => {},
        }
    }
    assert forall|x: Block| #[trigger] is_block_of_inline(i, x) implies visited_blocks(
        rest,
    ).contains(x) by {
        if let Inline::Macro(m) = i {
            if let MacroBody::RichText(bs) = m.body {
                let k = choose|k: int| 0 <= k < bs@.len() && bs@[k] == x;
            }
        }
    }
    lemma_reaches_prepend_inline(i, rest);
    assert(walk_inline(i) == seq![Visit::Inline(i)] + rest);
}

proof fn lemma_walk_inlines_reaches(s: Seq<Inline>)
    ensures
        reaches_children(walk_inlines(s)),
        forall|k: int| 0 <= k < s.len() ==> visited_inlines(walk_inlines(s)).contains(#[trigger] s[k]),
    decreases s,
{
    if s.len() == 0 {
        lemma_reaches_empty();
    } else {
        let init = s.drop_last();
        lemma_walk_inlines_reaches(init);
        lemma_walk_inline_reaches(s.last());
        lemma_reaches_concat(walk_inlines(init), walk_inline(s.last()));
        lemma_visited_contains_concat(walk_inlines(init), walk_inline(s.last()));
        assert forall|k: int| 0 <= k < s.len() implies visited_inlines(walk_inlines(s)).contains(
            #[trigger] s[k],
        ) by {
            if k < s.len() - 1 {
                assert(s[k] == init[k]);
            }
        }
    }
}

/// The traversal misses nothing: every top-level block is visited, and so is
/// everything nested directly in a visited node (the children of a block
/// quote, the blocks of each list item and of a macro's rich-text body, the
/// inlines of a heading, paragraph, task or table cell, the content of
/// strong, emphasised or struck-through text and of links).
pub proof fn lemma_traversal_reaches_nested(d: Document)
    ensures
        forall|k: int|
            0 <= k < d.blocks@.len() ==> d.all_blocks().contains(#[trigger] d.blocks@[k]),
        forall|b: Block, x: Block|
            #![trigger d.all_blocks().contains(b), is_child_block(b, x)]
            d.all_blocks().contains(b) && is_child_block(b, x) ==> d.all_blocks().contains(x),
        forall|b: Block, y: Inline|
            #![trigger d.all_blocks().contains(b), is_inline_of_block(b, y)]
            d.all_blocks().contains(b) && is_inline_of_block(b, y) ==> d.all_inlines().contains(y),
        forall|i: Inline, y: Inline|
            #![trigger d.all_inlines().contains(i), is_child_inline(i, y)]
            d.all_inlines().contains(i) && is_child_inline(i, y) ==> d.all_inlines().contains(y),
        forall|i: Inline, x: Block|
            #![trigger d.all_inlines().contains(i), is_block_of_inline(i, x)]
            d.all_inlines().contains(i) && is_block_of_inline(i, x) ==> d.all_blocks().contains(x),
{
    lemma_walk_blocks_reaches(d.blocks@);
}

proof fn lemma_visits_push<'a>(s: Seq<TreeNode<'a>>, n: TreeNode<'a>)
    ensures
        visits(s.push(n)) == visits(s) + seq![n.visit()],
{
    assert(visits(s.push(n)) =~= visits(s) + seq![n.visit()]);
}

fn walk_block_slice<'a>(blocks: &'a Vec<Block>, out: &mut Vec<TreeNode<'a>>)
    ensures
        visits(final(out)@) == visits(old(out)@) + walk_blocks(blocks@),
    decreases blocks, 0nat,
{
    let ghost start = visits(out@);
    for i in 0..blocks.len()
        invariant
            visits(out@) == start + walk_blocks(blocks@.take(i as int)),
    {
        proof {
            assert(blocks@.take(i + 1).drop_last() =~= blocks@.take(i as int));
            assert(blocks@.take(i + 1).last() == blocks@[i as int]);
        }
        blocks[i].walk(out);
        proof {
            assert(start + walk_blocks(blocks@.take(i + 1)) =~= start + walk_blocks(
                blocks@.take(i as int),
            ) + walk_block(blocks@[i as int]));
        }
    }
    proof {
        assert(blocks@.take(blocks.len() as int) =~= blocks@);
    }
}

fn walk_inline_slice<'a>(inlines: &'a Vec<Inline>, out: &mut Vec<TreeNode<'a>>)
    ensures
        visits(final(out)@) == visits(old(out)@) + walk_inlines(inlines@),
    decreases inlines, 0nat,
{
    let ghost start = visits(out@);
    for i in 0..inlines.len()
        invariant
            visits(out@) == start + walk_inlines(inlines@.take(i as int)),
    {
        proof {
            assert(inlines@.take(i + 1).drop_last() =~= inlines@.take(i as int));
            assert(inlines@.take(i + 1).last() == inlines@[i as int]);
        }
        inlines[i].walk(out);
        proof {
            assert(start + walk_inlines(inlines@.take(i + 1)) =~= start + walk_inlines(
                inlines@.take(i as int),
            ) + walk_inline(inlines@[i as int]));
        }
    }
    proof {
        assert(inlines@.take(inlines.len() as int) =~= inlines@);
    }
}

impl Block {
    #[verifier::loop_isolation(false)]
    fn walk<'a>(&'a self, out: &mut Vec<TreeNode<'a>>)
        ensures
            visits(final(out)@) == visits(old(out)@) + walk_block(*self),
        decreases self, 1nat,
    {
        proof {
            lemma_visits_push(out@, TreeNode::Block(self));
        }
        out.push(TreeNode::Block(self));
        let ghost mid = visits(out@);
        match self {
            Block::Heading { content, .. } => walk_inline_slice(content, out),
            Block::Paragraph(content) => walk_inline_slice(content, out),
            Block::List { items, .. } => {
                for i in 0..items.len()
                    invariant
                        visits(out@) == mid + walk_items(items@.take(i as int)),
                {
                    proof {
                        assert(items@.take(i + 1).drop_last() =~= items@.take(i as int));
                        assert(items@.take(i + 1).last() == items@[i as int]);
                    }
                    walk_block_slice(&items[i], out);
                }
                proof {
                    assert(items@.take(items.len() as int) =~= items@);
                }
            },
            Block::TaskList(tasks) => {
                for i in 0..tasks.len()
                    invariant
                        visits(out@) == mid + walk_tasks(tasks@.take(i as int)),
                {
                    proof {
                        assert(tasks@.take(i + 1).drop_last() =~= tasks@.take(i as int));
                        assert(tasks@.take(i + 1).last() == tasks@[i as int]);
                    }
                    walk_inline_slice(&tasks[i].content, out);
                }
                proof {
                    assert(tasks@.take(tasks.len() as int) =~= tasks@);
                }
            },
            Block::BlockQuote(blocks) => walk_block_slice(blocks, out),
            Block::Table(table) => table.walk(out),
            Block::Macro(mac) => mac.walk(out),
            Block::CodeBlock { .. } | Block::ThematicBreak | Block::RawConfluence(_) => {},
        }
    }
}

impl Inline {
    fn walk<'a>(&'a self, out: &mut Vec<TreeNode<'a>>)
        ensures
            visits(final(out)@) == visits(old(out)@) + walk_inline(*self),
        decreases self, 1nat,
    {
        proof {
            lemma_visits_push(out@, TreeNode::Inline(self));
        }
        out.push(TreeNode::Inline(self));
        match self {
            Inline::Strong(content) => walk_inline_slice(content, out),
            Inline::Emphasis(content) => walk_inline_slice(content, out),
            Inline::Strikethrough(content) => walk_inline_slice(content, out),
            Inline::Link { content, .. } => walk_inline_slice(content, out),
            Inline::Macro(mac) => mac.walk(out),
            Inline::Text(_) | Inline::Code(_) | Inline::Image { .. } | Inline::SoftBreak
            | Inline::HardBreak | Inline::RawConfluence(_) => {},
        }
    }
}

impl Table {
    #[verifier::loop_isolation(false)]
    fn walk<'a>(&'a self, out: &mut Vec<TreeNode<'a>>)
        ensures
            visits(final(out)@) == visits(old(out)@) + walk_cells(self.head@) + walk_rows(
                self.rows@,
            ),
        decreases self, 1nat,
    {
        let ghost start = visits(out@);
        for i in 0..self.head.len()
            invariant
                visits(out@) == start + walk_cells(self.head@.take(i as int)),
        {
            proof {
                assert(self.head@.take(i + 1).drop_last() =~= self.head@.take(i as int));
                assert(self.head@.take(i + 1).last() == self.head@[i as int]);
            }
            walk_inline_slice(&self.head[i], out);
        }
        proof {
            assert(self.head@.take(self.head.len() as int) =~= self.head@);
        }
        let ghost mid = visits(out@);
        for r in 0..self.rows.len()
            invariant
                visits(out@) == mid + walk_rows(self.rows@.take(r as int)),
        {
            proof {
                assert(self.rows@.take(r + 1).drop_last() =~= self.rows@.take(r as int));
                assert(self.rows@.take(r + 1).last() == self.rows@[r as int]);
            }
            let row = &self.rows[r];
            let ghost before = visits(out@);
            for c in 0..row.len()
                invariant
                    visits(out@) == before + walk_cells(row@.take(c as int)),
            {
                proof {
                    assert(row@.take(c + 1).drop_last() =~= row@.take(c as int));
                    assert(row@.take(c + 1).last() == row@[c as int]);
                }
                walk_inline_slice(&row[c], out);
            }
            proof {
                assert(row@.take(row.len() as int) =~= row@);
            }
        }
        proof {
            assert(self.rows@.take(self.rows.len() as int) =~= self.rows@);
        }
    }
}

impl Macro {
    fn walk<'a>(&'a self, out: &mut Vec<TreeNode<'a>>)
        ensures
            visits(final(out)@) == visits(old(out)@) + walk_macro(*self),
        decreases self, 1nat,
    {
        if let MacroBody::RichText(blocks) = &self.body {
            walk_block_slice(blocks, out);
        } else {
            assert(visits(out@) =~= visits(out@) + Seq::<Visit>::empty());
        }
    }
}


// ---------------------------------------------------------------------------
// Views: the tree with every string taken as its characters
// ---------------------------------------------------------------------------

pub ghost enum LinkTargetV {
    External(Seq<char>),
    Page { space: Option<Seq<char>>, title: Seq<char> },
    Content(Seq<char>),
    Attachment(Seq<char>),
    Anchor(Seq<char>),
}

pub ghost enum ImageSourceV {
    External(Seq<char>),
    Attachment(Seq<char>),
}

pub ghost enum MacroBodyV {
    Empty,
    PlainText(Seq<char>),
    RichText(Seq<BlockV>),
}

pub ghost struct MacroV {
    pub name: Seq<char>,
    pub params: Seq<(Seq<char>, Seq<char>)>,
    pub body: MacroBodyV,
}

pub ghost struct TaskV {
    pub checked: bool,
    pub content: Seq<InlineV>,
}

pub ghost struct TableV {
    pub align: Seq<Alignment>,
    pub head: Seq<Seq<InlineV>>,
    pub rows: Seq<Seq<Seq<InlineV>>>,
}

pub ghost enum InlineV {
    Text(Seq<char>),
    Strong(Seq<InlineV>),
    Emphasis(Seq<InlineV>),
    Strikethrough(Seq<InlineV>),
    Code(Seq<char>),
    Link { target: LinkTargetV, title: Option<Seq<char>>, content: Seq<InlineV> },
    Image { source: ImageSourceV, alt: Seq<char> },
    SoftBreak,
    HardBreak,
    Macro(MacroV),
    RawConfluence(Seq<char>),
}

pub ghost enum BlockV {
    Heading { level: u8, content: Seq<InlineV> },
    Paragraph(Seq<InlineV>),
    CodeBlock { language: Option<Seq<char>>, code: Seq<char> },
    List { ordered: bool, items: Seq<Seq<BlockV>> },
    TaskList(Seq<TaskV>),
    BlockQuote(Seq<BlockV>),
    Table(TableV),
    ThematicBreak,
    Macro(MacroV),
    RawConfluence(Seq<char>),
}

/// The view of a macro body.
pub open spec fn body_v(b: MacroBody) -> MacroBodyV {
    match b {
        MacroBody::Empty => MacroBodyV::Empty,
        MacroBody::PlainText(t) => MacroBodyV::PlainText(t@),
        MacroBody::RichText(b) => MacroBodyV::RichText(blocks_v(b@)),
    }
}

pub open spec fn opt_v(o: Option<String>) -> Option<Seq<char>> {
    match o {
        Some(s) => Some(s@),
        None => None,
    }
}

pub open spec fn params_v(s: Seq<(String, String)>) -> Seq<(Seq<char>, Seq<char>)> {
    s.map_values(|p: (String, String)| (p.0@, p.1@))
}

pub open spec fn link_target_v(t: LinkTarget) -> LinkTargetV {
    match t {
        LinkTarget::External(u) => LinkTargetV::External(u@),
        LinkTarget::Page { space, title } => LinkTargetV::Page { space: opt_v(space), title: title@ },
        LinkTarget::Content(i) => LinkTargetV::Content(i@),
        LinkTarget::Attachment(f) => LinkTargetV::Attachment(f@),
        LinkTarget::Anchor(n) => LinkTargetV::Anchor(n@),
    }
}

pub open spec fn image_source_v(s: ImageSource) -> ImageSourceV {
    match s {
        ImageSource::External(u) => ImageSourceV::External(u@),
        ImageSource::Attachment(f) => ImageSourceV::Attachment(f@),
    }
}

pub open spec fn macro_v(m: Macro) -> MacroV
    decreases m, 1nat,
{
    MacroV {
        name: m.name@,
        params: params_v(m.params@),
        body: match m.body {
            MacroBody::Empty => MacroBodyV::Empty,
            MacroBody::PlainText(t) => MacroBodyV::PlainText(t@),
            MacroBody::RichText(b) => MacroBodyV::RichText(blocks_v(b@)),
        },
    }
}

pub open spec fn inline_v(i: Inline) -> InlineV
    decreases i, 0nat,
{
    match i {
        Inline::Text(t) => InlineV::Text(t@),
        Inline::Strong(c) => InlineV::Strong(inlines_v(c@)),
        Inline::Emphasis(c) => InlineV::Emphasis(inlines_v(c@)),
        Inline::Strikethrough(c) => InlineV::Strikethrough(inlines_v(c@)),
        Inline::Code(c) => InlineV::Code(c@),
        Inline::Link { target, title, content } => InlineV::Link {
            target: link_target_v(target),
            title: opt_v(title),
            content: inlines_v(content@),
        },
        Inline::Image { source, alt } => InlineV::Image { source: image_source_v(source), alt: alt@ },
        Inline::SoftBreak => InlineV::SoftBreak,
        Inline::HardBreak => InlineV::HardBreak,
        Inline::Macro(m) => InlineV::Macro(macro_v(m)),
        Inline::RawConfluence(s) => InlineV::RawConfluence(s@),
    }
}

pub open spec fn inlines_v(s: Seq<Inline>) -> Seq<InlineV>
    decreases s, 1nat,
{
    if s.len() == 0 {
        seq![]
    } else {
        inlines_v(s.drop_last()).push(inline_v(s.last()))
    }
}

pub open spec fn cells_v(s: Seq<Vec<Inline>>) -> Seq<Seq<InlineV>>
    decreases s, 1nat,
{
    if s.len() == 0 {
        seq![]
    } else {
        cells_v(s.drop_last()).push(inlines_v(s.last()@))
    }
}

pub open spec fn rows_v(s: Seq<Vec<Vec<Inline>>>) -> Seq<Seq<Seq<InlineV>>>
    decreases s, 1nat,
{
    if s.len() == 0 {
        seq![]
    } else {
        rows_v(s.drop_last()).push(cells_v(s.last()@))
    }
}

pub open spec fn task_v(t: Task) -> TaskV
    decreases t, 2nat,
{
    TaskV { checked: t.checked, content: inlines_v(t.content@) }
}

pub open spec fn tasks_v(s: Seq<Task>) -> Seq<TaskV>
    decreases s, 1nat,
{
    if s.len() == 0 {
        seq![]
    } else {
        tasks_v(s.drop_last()).push(task_v(s.last()))
    }
}

pub open spec fn block_v(b: Block) -> BlockV
    decreases b, 0nat,
{
    match b {
        Block::Heading { level, content } => BlockV::Heading { level, content: inlines_v(content@) },
        Block::Paragraph(c) => BlockV::Paragraph(inlines_v(c@)),
        Block::CodeBlock { language, code } => BlockV::CodeBlock { language: opt_v(language), code: code@ },
        Block::List { ordered, items } => BlockV::List { ordered, items: items_v(items@) },
        Block::TaskList(t) => BlockV::TaskList(tasks_v(t@)),
        Block::BlockQuote(b) => BlockV::BlockQuote(blocks_v(b@)),
        Block::Table(t) => BlockV::Table(
            TableV { align: t.align@, head: cells_v(t.head@), rows: rows_v(t.rows@) },
        ),
        Block::ThematicBreak => BlockV::ThematicBreak,
        Block::Macro(m) => BlockV::Macro(macro_v(m)),
        Block::RawConfluence(s) => BlockV::RawConfluence(s@),
    }
}

pub open spec fn blocks_v(s: Seq<Block>) -> Seq<BlockV>
    decreases s, 1nat,
{
    if s.len() == 0 {
        seq![]
    } else {
        blocks_v(s.drop_last()).push(block_v(s.last()))
    }
}

pub open spec fn items_v(s: Seq<Vec<Block>>) -> Seq<Seq<BlockV>>
    decreases s, 1nat,
{
    if s.len() == 0 {
        seq![]
    } else {
        items_v(s.drop_last()).push(blocks_v(s.last()@))
    }
}

impl View for Document {
    type V = Seq<BlockV>;

    open spec fn view(&self) -> Seq<BlockV> {
        blocks_v(self.blocks@)
    }
}

/// `blocks_v` of a sequence with one more block.
pub proof fn lemma_blocks_v_push(s: Seq<Block>, b: Block)
    ensures
        blocks_v(s.push(b)) == blocks_v(s).push(block_v(b)),
{
    assert(s.push(b).drop_last() =~= s);
}

/// `inlines_v` of a sequence with one more inline.
pub proof fn lemma_inlines_v_push(s: Seq<Inline>, i: Inline)
    ensures
        inlines_v(s.push(i)) == inlines_v(s).push(inline_v(i)),
{
    assert(s.push(i).drop_last() =~= s);
}

/// The view of a sequence has its length.
pub proof fn lemma_views_len(b: Seq<Block>, i: Seq<Inline>)
    ensures
        blocks_v(b).len() == b.len(),
        inlines_v(i).len() == i.len(),
    decreases b.len() + i.len(),
{
    if b.len() > 0 {
        lemma_views_len(b.drop_last(), i);
    } else if i.len() > 0 {
        lemma_views_len(b, i.drop_last());
    }
}

/// The view of a sequence of blocks, element by element.
pub proof fn lemma_blocks_v_index(s: Seq<Block>)
    ensures
        blocks_v(s).len() == s.len(),
        forall|j: int| 0 <= j < s.len() ==> #[trigger] blocks_v(s)[j] == block_v(s[j]),
    decreases s.len(),
{
    if s.len() > 0 {
        lemma_blocks_v_index(s.drop_last());
    }
}

/// The view of the items of a list, element by element.
pub proof fn lemma_items_v_index(s: Seq<Vec<Block>>)
    ensures
        items_v(s).len() == s.len(),
        forall|j: int| 0 <= j < s.len() ==> #[trigger] items_v(s)[j] == blocks_v(s[j]@),
    decreases s.len(),
{
    if s.len() > 0 {
        lemma_items_v_index(s.drop_last());
    }
}

/// The view of the tasks of a task list, element by element.
pub proof fn lemma_tasks_v_index(s: Seq<Task>)
    ensures
        tasks_v(s).len() == s.len(),
        forall|j: int| 0 <= j < s.len() ==> #[trigger] tasks_v(s)[j] == task_v(s[j]),
    decreases s.len(),
{
    if s.len() > 0 {
        lemma_tasks_v_index(s.drop_last());
    }
}

/// The view of a sequence of inlines, element by element.
pub proof fn lemma_inlines_v_index(s: Seq<Inline>)
    ensures
        inlines_v(s).len() == s.len(),
        forall|j: int| 0 <= j < s.len() ==> #[trigger] inlines_v(s)[j] == inline_v(s[j]),
    decreases s.len(),
{
    if s.len() > 0 {
        lemma_inlines_v_index(s.drop_last());
    }
}

/// Two sequences, each with one more element, are equal only part by part.
pub proof fn lemma_push_injective<A>(a: Seq<A>, x: A, b: Seq<A>, y: A)
    requires
        a.push(x) == b.push(y),
    ensures
        a == b,
        x == y,
{
    assert(a.push(x)[a.len() as int] == x);
    assert(b.push(y)[b.len() as int] == y);
    assert(a =~= a.push(x).drop_last());
    assert(b =~= b.push(y).drop_last());
}

/// The value of a parameter depends on the parameters' view only.
pub proof fn lemma_param_value_view(
    p1: Seq<(String, String)>,
    p2: Seq<(String, String)>,
    key: Seq<char>,
)
    requires
        params_v(p1) == params_v(p2),
    ensures
        param_value(p1, key) == param_value(p2, key),
    decreases p1.len(),
{
    assert(params_v(p1).len() == p1.len() && params_v(p2).len() == p2.len());
    if p1.len() > 0 {
        assert(params_v(p1)[0] == params_v(p2)[0]);
        assert(params_v(p1.drop_first()) =~= params_v(p1).drop_first());
        assert(params_v(p2.drop_first()) =~= params_v(p2).drop_first());
        lemma_param_value_view(p1.drop_first(), p2.drop_first(), key);
    }
}

// ---------------------------------------------------------------------------
// Copies
// ---------------------------------------------------------------------------

fn copy_opt_string(o: &Option<String>) -> (r: Option<String>)
    ensures
        opt_v(r) == opt_v(*o),
{
    match o {
        Some(s) => Some(s.clone()),
        None => None,
    }
}

fn copy_params(ps: &Vec<(String, String)>) -> (r: Vec<(String, String)>)
    ensures
        params_v(r@) == params_v(ps@),
{
    let mut out: Vec<(String, String)> = Vec::new();
    for i in 0..ps.len()
        invariant
            out@ == ps@.take(i as int),
    {
        out.push((ps[i].0.clone(), ps[i].1.clone()));
        assert(out@ =~= ps@.take(i + 1));
    }
    assert(ps@.take(ps.len() as int) =~= ps@);
    out
}

fn copy_inlines(v: &Vec<Inline>) -> (r: Vec<Inline>)
    ensures
        inlines_v(r@) == inlines_v(v@),
    decreases v, 0nat,
{
    let mut out: Vec<Inline> = Vec::new();
    for i in 0..v.len()
        invariant
            inlines_v(out@) == inlines_v(v@.take(i as int)),
    {
        proof {
            assert(v@.take(i + 1).drop_last() =~= v@.take(i as int));
            assert(v@.take(i + 1).last() == v@[i as int]);
        }
        let c = copy_inline(&v[i]);
        proof {
            lemma_inlines_v_push(out@, c);
        }
        out.push(c);
    }
    assert(v@.take(v.len() as int) =~= v@);
    out
}

fn copy_blocks(v: &Vec<Block>) -> (r: Vec<Block>)
    ensures
        blocks_v(r@) == blocks_v(v@),
    decreases v, 0nat,
{
    let mut out: Vec<Block> = Vec::new();
    for i in 0..v.len()
        invariant
            blocks_v(out@) == blocks_v(v@.take(i as int)),
    {
        proof {
            assert(v@.take(i + 1).drop_last() =~= v@.take(i as int));
            assert(v@.take(i + 1).last() == v@[i as int]);
        }
        let c = copy_block(&v[i]);
        proof {
            lemma_blocks_v_push(out@, c);
        }
        out.push(c);
    }
    assert(v@.take(v.len() as int) =~= v@);
    out
}

fn copy_link_target(t: &LinkTarget) -> (r: LinkTarget)
    ensures
        link_target_v(r) == link_target_v(*t),
{
    match t {
        LinkTarget::External(u) => LinkTarget::External(u.clone()),
        LinkTarget::Page { space, title } => LinkTarget::Page {
            space: copy_opt_string(space),
            title: title.clone(),
        },
        LinkTarget::Content(i) => LinkTarget::Content(i.clone()),
        LinkTarget::Attachment(f) => LinkTarget::Attachment(f.clone()),
        LinkTarget::Anchor(n) => LinkTarget::Anchor(n.clone()),
    }
}

fn copy_image_source(s: &ImageSource) -> (r: ImageSource)
    ensures
        image_source_v(r) == image_source_v(*s),
{
    match s {
        ImageSource::External(u) => ImageSource::External(u.clone()),
        ImageSource::Attachment(f) => ImageSource::Attachment(f.clone()),
    }
}

fn copy_macro(m: &Macro) -> (r: Macro)
    ensures
        macro_v(r) == macro_v(*m),
    decreases m, 1nat,
{
    let body = match &m.body {
        MacroBody::Empty => MacroBody::Empty,
        MacroBody::PlainText(t) => MacroBody::PlainText(t.clone()),
        MacroBody::RichText(b) => MacroBody::RichText(copy_blocks(b)),
    };
    Macro { name: m.name.clone(), params: copy_params(&m.params), body }
}

fn copy_inline(i: &Inline) -> (r: Inline)
    ensures
        inline_v(r) == inline_v(*i),
    decreases i, 1nat,
{
    match i {
        Inline::Text(t) => Inline::Text(t.clone()),
        Inline::Strong(c) => Inline::Strong(copy_inlines(c)),
        Inline::Emphasis(c) => Inline::Emphasis(copy_inlines(c)),
        Inline::Strikethrough(c) => Inline::Strikethrough(copy_inlines(c)),
        Inline::Code(c) => Inline::Code(c.clone()),
        Inline::Link { target, title, content } => Inline::Link {
            target: copy_link_target(target),
            title: copy_opt_string(title),
            content: copy_inlines(content),
        },
        Inline::Image { source, alt } => Inline::Image {
            source: copy_image_source(source),
            alt: alt.clone(),
        },
        Inline::SoftBreak => Inline::SoftBreak,
        Inline::HardBreak => Inline::HardBreak,
        Inline::Macro(m) => Inline::Macro(copy_macro(m)),
        Inline::RawConfluence(s) => Inline::RawConfluence(s.clone()),
    }
}

fn copy_cells(v: &Vec<Vec<Inline>>) -> (r: Vec<Vec<Inline>>)
    ensures
        cells_v(r@) == cells_v(v@),
    decreases v, 0nat,
{
    let mut out: Vec<Vec<Inline>> = Vec::new();
    for i in 0..v.len()
        invariant
            cells_v(out@) == cells_v(v@.take(i as int)),
    {
        proof {
            assert(v@.take(i + 1).drop_last() =~= v@.take(i as int));
            assert(v@.take(i + 1).last() == v@[i as int]);
        }
        let c = copy_inlines(&v[i]);
        let ghost before = out@;
        out.push(c);
        assert(out@.drop_last() =~= before);
    }
    assert(v@.take(v.len() as int) =~= v@);
    out
}

fn copy_table(t: &Table) -> (r: Table)
    ensures
        r.align@ == t.align@,
        cells_v(r.head@) == cells_v(t.head@),
        rows_v(r.rows@) == rows_v(t.rows@),
    decreases t, 0nat,
{
    let mut align: Vec<Alignment> = Vec::new();
    for i in 0..t.align.len()
        invariant
            align@ == t.align@.take(i as int),
    {
        align.push(t.align[i]);
        assert(align@ =~= t.align@.take(i + 1));
    }
    assert(align@ =~= t.align@);
    let mut rows: Vec<Vec<Vec<Inline>>> = Vec::new();
    for i in 0..t.rows.len()
        invariant
            rows_v(rows@) == rows_v(t.rows@.take(i as int)),
    {
        proof {
            assert(t.rows@.take(i + 1).drop_last() =~= t.rows@.take(i as int));
            assert(t.rows@.take(i + 1).last() == t.rows@[i as int]);
        }
        let c = copy_cells(&t.rows[i]);
        let ghost before = rows@;
        rows.push(c);
        assert(rows@.drop_last() =~= before);
    }
    assert(t.rows@.take(t.rows.len() as int) =~= t.rows@);
    Table { align, head: copy_cells(&t.head), rows }
}

fn copy_items(items: &Vec<Vec<Block>>) -> (r: Vec<Vec<Block>>)
    ensures
        items_v(r@) == items_v(items@),
    decreases items, 0nat,
{
    let mut out: Vec<Vec<Block>> = Vec::new();
    for i in 0..items.len()
        invariant
            items_v(out@) == items_v(items@.take(i as int)),
    {
        proof {
            assert(items@.take(i + 1).drop_last() =~= items@.take(i as int));
            assert(items@.take(i + 1).last() == items@[i as int]);
        }
        let c = copy_blocks(&items[i]);
        let ghost before = out@;
        out.push(c);
        assert(out@.drop_last() =~= before);
    }
    assert(items@.take(items.len() as int) =~= items@);
    out
}

fn copy_tasks(tasks: &Vec<Task>) -> (r: Vec<Task>)
    ensures
        tasks_v(r@) == tasks_v(tasks@),
    decreases tasks, 0nat,
{
    let mut out: Vec<Task> = Vec::new();
    for i in 0..tasks.len()
        invariant
            tasks_v(out@) == tasks_v(tasks@.take(i as int)),
    {
        proof {
            assert(tasks@.take(i + 1).drop_last() =~= tasks@.take(i as int));
            assert(tasks@.take(i + 1).last() == tasks@[i as int]);
        }
        let t = Task { checked: tasks[i].checked, content: copy_inlines(&tasks[i].content) };
        assert(task_v(t) == task_v(tasks@[i as int]));
        let ghost before = out@;
        out.push(t);
        assert(out@.drop_last() =~= before);
    }
    assert(tasks@.take(tasks.len() as int) =~= tasks@);
    out
}

fn copy_block(b: &Block) -> (r: Block)
    ensures
        block_v(r) == block_v(*b),
    decreases b, 1nat,
{
    match b {
        Block::Heading { level, content } => Block::Heading {
            level: *level,
            content: copy_inlines(content),
        },
        Block::Paragraph(c) => Block::Paragraph(copy_inlines(c)),
        Block::CodeBlock { language, code } => Block::CodeBlock {
            language: copy_opt_string(language),
            code: code.clone(),
        },
        Block::List { ordered, items } => Block::List { ordered: *ordered, items: copy_items(items) },
        Block::TaskList(tasks) => Block::TaskList(copy_tasks(tasks)),
        Block::BlockQuote(c) => Block::BlockQuote(copy_blocks(c)),
        Block::Table(t) => Block::Table(copy_table(t)),
        Block::ThematicBreak => Block::ThematicBreak,
        Block::Macro(m) => Block::Macro(copy_macro(m)),
        Block::RawConfluence(s) => Block::RawConfluence(s.clone()),
    }
}

impl Clone for LinkTarget {
    fn clone(&self) -> (r: Self)
        ensures
            link_target_v(r) == link_target_v(*self),
    {
        copy_link_target(self)
    }
}

impl Clone for ImageSource {
    fn clone(&self) -> (r: Self)
        ensures
            image_source_v(r) == image_source_v(*self),
    {
        copy_image_source(self)
    }
}

impl Clone for Macro {
    fn clone(&self) -> (r: Self)
        ensures
            macro_v(r) == macro_v(*self),
    {
        copy_macro(self)
    }
}

impl Clone for Inline {
    fn clone(&self) -> (r: Self)
        ensures
            inline_v(r) == inline_v(*self),
    {
        copy_inline(self)
    }
}

impl Clone for Block {
    fn clone(&self) -> (r: Self)
        ensures
            block_v(r) == block_v(*self),
    {
        copy_block(self)
    }
}

impl Clone for MacroBody {
    fn clone(&self) -> (r: Self)
        ensures
            body_v(r) == body_v(*self),
    {
        match self {
            MacroBody::Empty => MacroBody::Empty,
            MacroBody::PlainText(t) => MacroBody::PlainText(t.clone()),
            MacroBody::RichText(b) => MacroBody::RichText(copy_blocks(b)),
        }
    }
}

impl Clone for Task {
    fn clone(&self) -> (r: Self)
        ensures
            task_v(r) == task_v(*self),
    {
        Task { checked: self.checked, content: copy_inlines(&self.content) }
    }
}

impl Clone for Table {
    fn clone(&self) -> (r: Self)
        ensures
            r.align@ == self.align@,
            cells_v(r.head@) == cells_v(self.head@),
            rows_v(r.rows@) == rows_v(self.rows@),
    {
        copy_table(self)
    }
}

impl Clone for Document {
    fn clone(&self) -> (r: Self)
        ensures
            r@ == self@,
    {
        Document { blocks: copy_blocks(&self.blocks) }
    }
}

} // verus!
