//! The document model: blocks and inlines, their mathematical views, and
//! the plain text a reader sees in inline content.

use vstd::prelude::*;

verus! {

/// A parsed Markdown document: its blocks in reading order.
#[derive(Debug, Clone)]
pub struct Document {
    pub blocks: Vec<Block>,
}

/// A block-level element of a document.
#[derive(Debug, Clone)]
pub enum Block {
    Heading { level: u8, content: Vec<Inline> },
    Paragraph(Vec<Inline>),
    CodeBlock { lang: Option<String>, text: String },
    MathBlock(String),
    Divider,
    Table(Table),
    Image { src: String, alt: String },
    Quote { kind: QuoteKind, content: Vec<Inline> },
    List { ordered: bool, start: u64, items: Vec<ListItem> },
    Footnote { label: String, content: Vec<Inline> },
}

/// A table: one alignment per column, a header row, and body rows of cells.
#[derive(Debug, Clone)]
pub struct Table {
    pub alignments: Vec<Alignment>,
    pub header: Vec<Vec<Inline>>,
    pub rows: Vec<Vec<Vec<Inline>>>,
}

/// Horizontal alignment of a table column.
#[derive(Debug, Clone, Copy, PartialEq, Eq, Structural)]
pub enum Alignment {
    Left,
    Center,
    Right,
    Unaligned,
}

/// One item of a list; `checked` is set for task-list items.
#[derive(Debug, Clone)]
pub struct ListItem {
    pub checked: Option<bool>,
    pub gap_before: bool,
    pub content: Vec<Inline>,
}

/// A plain blockquote or one of the GitHub callout kinds.
#[derive(Debug, Clone, Copy, PartialEq, Eq, Structural)]
pub enum QuoteKind {
    Regular,
    Note,
    Tip,
    Important,
    Warning,
    Caution,
}

/// Inline content: text runs and the spans that carry their own styling.
#[derive(Debug)]
pub enum Inline {
    Text(String),
    Code(String),
    Math(String),
    Link { href: String, content: Vec<Inline> },
    Emphasis(Vec<Inline>),
    Strong(Vec<Inline>),
    Strikethrough(Vec<Inline>),
    FootnoteRef(String),
    Citation(String),
}

/// Mathematical model of an [`Inline`]: strings become character sequences.
pub enum InlineView {
    Text(Seq<char>),
    Code(Seq<char>),
    Math(Seq<char>),
    Link { href: Seq<char>, content: Seq<InlineView> },
    Emphasis(Seq<InlineView>),
    Strong(Seq<InlineView>),
    Strikethrough(Seq<InlineView>),
    FootnoteRef(Seq<char>),
    Citation(Seq<char>),
}

/// The view of an inline.
pub open spec fn inline_view(i: Inline) -> InlineView
    decreases i, 1nat,
{
    match i {
        Inline::Text(s) => InlineView::Text(s@),
        Inline::Code(s) => InlineView::Code(s@),
        Inline::Math(s) => InlineView::Math(s@),
        Inline::Link { href, content } => {
            InlineView::Link { href: href@, content: inlines_view(content@) }
        },
        Inline::Emphasis(c) => InlineView::Emphasis(inlines_view(c@)),
        Inline::Strong(c) => InlineView::Strong(inlines_view(c@)),
        Inline::Strikethrough(c) => InlineView::Strikethrough(inlines_view(c@)),
        Inline::FootnoteRef(s) => InlineView::FootnoteRef(s@),
        Inline::Citation(s) => InlineView::Citation(s@),
    }
}

/// The views of an inline sequence, element by element.
pub open spec fn inlines_view(s: Seq<Inline>) -> Seq<InlineView>
    decreases s, 0nat,
{
    if s.len() == 0 {
        Seq::empty()
    } else {
        inlines_view(s.drop_last()).push(inline_view(s.last()))
    }
}

impl View for Inline {
    type V = InlineView;

    open spec fn view(&self) -> InlineView {
        inline_view(*self)
    }
}

/// A copy of an inline sequence with the same view.
pub fn clone_inlines(v: &Vec<Inline>) -> (r: Vec<Inline>)
    ensures
        inlines_view(r@) == inlines_view(v@),
    decreases v@, 0nat,
{
    let mut r: Vec<Inline> = Vec::new();
    let mut i: usize = 0;
    while i < v.len()
        invariant
            i <= v.len(),
            inlines_view(r@) == inlines_view(v@.take(i as int)),
        decreases v.len() - i,
    {
        let c = clone_inline(&v[i]);
        let ghost before = r@;
        r.push(c);
        assert(r@.drop_last() == before);
        assert(v@.take(i + 1).drop_last() == v@.take(i as int));
        i = i + 1;
    }
    assert(v@.take(v.len() as int) == v@);
    r
}

/// A copy of an inline element with the same view.
pub fn clone_inline(i: &Inline) -> (r: Inline)
    ensures
        inline_view(r) == inline_view(*i),
    decreases *i, 1nat,
{
    match i {
        Inline::Text(s) => Inline::Text(s.clone()),
        Inline::Code(s) => Inline::Code(s.clone()),
        Inline::Math(s) => Inline::Math(s.clone()),
        Inline::Link { href, content } => Inline::Link {
            href: href.clone(),
            content: clone_inlines(content),
        },
        Inline::Emphasis(c) => Inline::Emphasis(clone_inlines(c)),
        Inline::Strong(c) => Inline::Strong(clone_inlines(c)),
        Inline::Strikethrough(c) => Inline::Strikethrough(clone_inlines(c)),
        Inline::FootnoteRef(s) => Inline::FootnoteRef(s.clone()),
        Inline::Citation(s) => Inline::Citation(s.clone()),
    }
}

impl Clone for Inline {
    fn clone(&self) -> (r: Self)
        ensures
            r@ == self@,
    {
        clone_inline(self)
    }
}

/// Mathematical model of a [`Table`].
pub struct TableView {
    pub alignments: Seq<Alignment>,
    pub header: Seq<Seq<InlineView>>,
    pub rows: Seq<Seq<Seq<InlineView>>>,
}

/// Mathematical model of a [`ListItem`].
pub struct ListItemView {
    pub checked: Option<bool>,
    pub gap_before: bool,
    pub content: Seq<InlineView>,
}

/// Mathematical model of a [`Block`].
pub enum BlockView {
    Heading { level: u8, content: Seq<InlineView> },
    Paragraph(Seq<InlineView>),
    CodeBlock { lang: Option<Seq<char>>, text: Seq<char> },
    MathBlock(Seq<char>),
    Divider,
    Table(TableView),
    Image { src: Seq<char>, alt: Seq<char> },
    Quote { kind: QuoteKind, content: Seq<InlineView> },
    List { ordered: bool, start: u64, items: Seq<ListItemView> },
    Footnote { label: Seq<char>, content: Seq<InlineView> },
}

/// The views of a row of cells.
pub open spec fn cells_view(cells: Seq<Vec<Inline>>) -> Seq<Seq<InlineView>> {
    cells.map_values(|c: Vec<Inline>| inlines_view(c@))
}

/// The views of a list of rows.
pub open spec fn rows_view(rows: Seq<Vec<Vec<Inline>>>) -> Seq<Seq<Seq<InlineView>>> {
    rows.map_values(|r: Vec<Vec<Inline>>| cells_view(r@))
}

/// The view of a table.
pub open spec fn table_view(t: Table) -> TableView {
    TableView {
        alignments: t.alignments@,
        header: cells_view(t.header@),
        rows: rows_view(t.rows@),
    }
}

/// The view of a list item.
pub open spec fn list_item_view(item: ListItem) -> ListItemView {
    ListItemView { checked: item.checked, gap_before: item.gap_before, content: inlines_view(item.content@) }
}

/// The view of an optional string.
pub open spec fn opt_string_view(s: Option<String>) -> Option<Seq<char>> {
    match s {
        Some(s) => Some(s@),
        None => None,
    }
}

/// The view of a block.
pub open spec fn block_view(b: Block) -> BlockView {
    match b {
        Block::Heading { level, content } => BlockView::Heading { level, content: inlines_view(content@) },
        Block::Paragraph(c) => BlockView::Paragraph(inlines_view(c@)),
        Block::CodeBlock { lang, text } => BlockView::CodeBlock { lang: opt_string_view(lang), text: text@ },
        Block::MathBlock(t) => BlockView::MathBlock(t@),
        Block::Divider => BlockView::Divider,
        Block::Table(t) => BlockView::Table(table_view(t)),
        Block::Image { src, alt } => BlockView::Image { src: src@, alt: alt@ },
        Block::Quote { kind, content } => BlockView::Quote { kind, content: inlines_view(content@) },
        Block::List { ordered, start, items } => BlockView::List {
            ordered,
            start,
            items: items@.map_values(|i: ListItem| list_item_view(i)),
        },
        Block::Footnote { label, content } => BlockView::Footnote { label: label@, content: inlines_view(content@) },
    }
}

/// The views of a list of blocks.
pub open spec fn blocks_view(bs: Seq<Block>) -> Seq<BlockView> {
    bs.map_values(|b: Block| block_view(b))
}

impl View for Block {
    type V = BlockView;

    open spec fn view(&self) -> BlockView {
        block_view(*self)
    }
}

impl View for Document {
    type V = Seq<BlockView>;

    open spec fn view(&self) -> Seq<BlockView> {
        blocks_view(self.blocks@)
    }
}

/// `inlines_view` keeps the length and maps each element by `inline_view`.
pub proof fn lemma_inlines_view_index(s: Seq<Inline>)
    ensures
        inlines_view(s).len() == s.len(),
        forall|k: int| 0 <= k < s.len() ==> #[trigger] inlines_view(s)[k] == inline_view(s[k]),
    decreases s.len(),
{
    if s.len() > 0 {
        lemma_inlines_view_index(s.drop_last());
    }
}

/// `inlines_view` of a pushed sequence.
pub proof fn lemma_inlines_view_push(s: Seq<Inline>, x: Inline)
    ensures
        inlines_view(s.push(x)) == inlines_view(s).push(inline_view(x)),
{
    assert(s.push(x).drop_last() == s);
}

/// Plain text of an inline: the characters a reader sees, with every wrapper
/// (link, emphasis, strong, strikethrough) reduced to its content; a
/// footnote reference reads as its label and a citation as its key.
pub open spec fn plain_of(i: InlineView) -> Seq<char>
    decreases i, 1nat,
{
    match i {
        InlineView::Text(s) => s,
        InlineView::Code(s) => s,
        InlineView::Math(s) => s,
        InlineView::Link { href, content } => plain_seq(content),
        InlineView::Emphasis(c) => plain_seq(c),
        InlineView::Strong(c) => plain_seq(c),
        InlineView::Strikethrough(c) => plain_seq(c),
        InlineView::FootnoteRef(s) => s,
        InlineView::Citation(s) => s,
    }
}

/// Plain text of an inline sequence: the plain texts of its elements, in order.
pub open spec fn plain_seq(s: Seq<InlineView>) -> Seq<char>
    decreases s, 0nat,
{
    if s.len() == 0 {
        Seq::empty()
    } else {
        plain_seq(s.drop_last()) + plain_of(s.last())
    }
}

/// The plain text of a concatenation is the concatenation of the plain texts.
pub proof fn law_plain_text_concat(a: Seq<InlineView>, b: Seq<InlineView>)
    ensures
        plain_seq(a + b) == plain_seq(a) + plain_seq(b),
    decreases b.len(),
{
    if b.len() == 0 {
        assert(a + b == a);
        assert(plain_seq(a) + plain_seq(b) == plain_seq(a));
    } else {
        law_plain_text_concat(a, b.drop_last());
        assert((a + b).drop_last() == a + b.drop_last());
        assert((a + b).last() == b.last());
    }
}

impl Document {
    /// A document of `blocks`.
    pub fn new(blocks: Vec<Block>) -> (r: Self)
        ensures
            r.blocks == blocks,
    {
        Self { blocks }
    }
}

impl Inline {
    /// The text of this inline without its markup.
    pub fn plain_text(&self) -> (r: String)
        ensures
            r@ == plain_of(self@),
        decreases *self, 1nat,
    {
        match self {
            Inline::Text(text) | Inline::Code(text) | Inline::Math(text) => text.clone(),
            Inline::Link { content, .. } => inlines_to_plain_text(content.as_slice()),
            Inline::Emphasis(content) => inlines_to_plain_text(content.as_slice()),
            Inline::Strong(content) => inlines_to_plain_text(content.as_slice()),
            Inline::Strikethrough(content) => inlines_to_plain_text(content.as_slice()),
            Inline::FootnoteRef(text) | Inline::Citation(text) => text.clone(),
        }
    }
}

/// The plain texts of `inlines`, concatenated.
pub fn inlines_to_plain_text(inlines: &[Inline]) -> (r: String)
    ensures
        r@ == plain_seq(inlines_view(inlines@)),
    decreases inlines@, 0nat,
{
    let mut r = String::new();
    let mut i: usize = 0;
    while i < inlines.len()
        invariant
            i <= inlines@.len(),
            r@ == plain_seq(inlines_view(inlines@.take(i as int))),
        decreases inlines.len() - i,
    {
        let piece = inlines[i].plain_text();
        r.append(piece.as_str());
        proof {
            let t = inlines@.take(i + 1);
            assert(t.drop_last() == inlines@.take(i as int));
            assert(t.last() == inlines@[i as int]);
            let w = inlines_view(inlines@.take(i as int));
            assert(inlines_view(t) == w.push(inline_view(inlines@[i as int])));
            assert(w.push(inline_view(inlines@[i as int])).drop_last() == w);
        }
        i = i + 1;
    }
    assert(inlines@.take(inlines@.len() as int) == inlines@);
    r
}

} // verus!
