//! The document builder: a state machine over Markdown events, specified
//! step by step, with the laws every built document satisfies.

use vstd::prelude::*;
use crate::ir::{
    Block, BlockView, Document, Inline, InlineView, ListItem, ListItemView, QuoteKind, Table,
    TableView, Alignment, blocks_view, cells_view, inline_view, inlines_view, list_item_view,
    opt_string_view, plain_of, rows_view, lemma_inlines_view_index, lemma_inlines_view_push,
};
use crate::citations::{cites, cites_go, flush_run, flush_text, has_citation, text_pieces, with_citations};
use crate::markdown::{
    CodeKind, CodeKindView, HeadingTag, MdEvent, MdEventView, MdTag, MdTagEnd, MdTagView,
    events_view, markdown_event_stream, markdown_events,
};
use crate::text::{
    all_space, chars_of, is_blank, is_space_char, is_whitespace, lemma_trim_start_skip, no_space,
    string_from_range, trim_start_seq,
};

verus! {

// ---------------------------------------------------------------------------
// Model of the document builder
// ---------------------------------------------------------------------------

/// The block being filled while its events arrive.
pub enum ActiveBlockView {
    Paragraph(Seq<InlineView>),
    Heading { level: u8, content: Seq<InlineView> },
    CodeBlock { lang: Option<Seq<char>>, text: Seq<char> },
}

/// A link whose content is still arriving.
pub struct LinkView {
    pub href: Seq<char>,
    pub content: Seq<InlineView>,
}

/// An image whose alt text is still arriving.
pub struct ImageView {
    pub src: Seq<char>,
    pub alt: Seq<char>,
}

/// A table being assembled row by row and cell by cell.
pub struct TableStateView {
    pub alignments: Seq<Alignment>,
    pub header: Seq<Seq<InlineView>>,
    pub rows: Seq<Seq<Seq<InlineView>>>,
    pub current_row: Seq<Seq<InlineView>>,
    pub current_cell: Seq<InlineView>,
    pub in_header: bool,
    pub in_cell: bool,
}

/// A block quote, list or footnote definition whose content is arriving.
/// Paragraphs inside it are joined into one inline sequence, a space between
/// them; a list keeps its finished items and the item being filled.
pub enum ContainerView {
    Quote { kind: QuoteKind, content: Seq<InlineView> },
    List { ordered: bool, start: u64, items: Seq<ListItemView>, item: Option<ListItemView> },
    Footnote { label: Seq<char>, content: Seq<InlineView> },
}

/// The whole state of the builder: finished blocks and the open constructs.
/// `nested` counts quotes, lists and footnote definitions opened inside the
/// open container; their content flows into it.
pub struct ParseView {
    pub blocks: Seq<BlockView>,
    pub block: Option<ActiveBlockView>,
    pub link: Option<LinkView>,
    pub image: Option<ImageView>,
    pub table: Option<TableStateView>,
    pub container: Option<ContainerView>,
    pub nested: usize,
}

/// Heading depth as a number from 1 to 6.
pub open spec fn heading_number(h: HeadingTag) -> u8 {
    match h {
        HeadingTag::H1 => 1,
        HeadingTag::H2 => 2,
        HeadingTag::H3 => 3,
        HeadingTag::H4 => 4,
        HeadingTag::H5 => 5,
        HeadingTag::H6 => 6,
    }
}

/// The maximal run of non-whitespace characters at the start of `s`.
pub open spec fn leading_word(s: Seq<char>) -> Seq<char>
    decreases s.len(),
{
    if s.len() > 0 && !is_space_char(s[0]) {
        seq![s[0]] + leading_word(s.drop_first())
    } else {
        Seq::empty()
    }
}

/// The first whitespace-separated word of `s`, if any.
pub open spec fn first_word(s: Seq<char>) -> Option<Seq<char>> {
    let w = leading_word(trim_start_seq(s));
    if w.len() == 0 {
        None
    } else {
        Some(w)
    }
}

/// The language of a code block: the first word of a fence's info string.
pub open spec fn code_lang_of(kind: CodeKindView) -> Option<Seq<char>> {
    match kind {
        CodeKindView::Indented => None,
        CodeKindView::Fenced(info) => first_word(info),
    }
}

/// An inline that is only whitespace text.
pub open spec fn is_blank_text(i: InlineView) -> bool {
    match i {
        InlineView::Text(t) => all_space(t),
        _ => false,
    }
}

/// The inlines of `c` that are not whitespace-only text, in order.
pub open spec fn meaningful(c: Seq<InlineView>) -> Seq<InlineView>
    decreases c.len(),
{
    if c.len() == 0 {
        Seq::empty()
    } else if is_blank_text(c.last()) {
        meaningful(c.drop_last())
    } else {
        meaningful(c.drop_last()).push(c.last())
    }
}

/// The TeX of a paragraph whose only meaningful inline is math.
pub open spec fn lone_math(c: Seq<InlineView>) -> Option<Seq<char>> {
    let m = meaningful(c);
    if m.len() == 1 {
        match m[0] {
            InlineView::Math(tex) => Some(tex),
            _ => None,
        }
    } else {
        None
    }
}

/// Closing a paragraph: a paragraph that holds only math becomes a math
/// block; an empty one is dropped; any other is kept as it is.
pub open spec fn paragraph_or_math(blocks: Seq<BlockView>, content: Seq<InlineView>) -> Seq<BlockView> {
    match lone_math(content) {
        Some(tex) => blocks.push(BlockView::MathBlock(tex)),
        None => if content.len() > 0 {
            blocks.push(BlockView::Paragraph(content))
        } else {
            blocks
        },
    }
}

/// The separator put between two paragraphs joined in a container.
pub open spec fn space_inline() -> InlineView {
    InlineView::Text(seq![' '])
}

/// An inline added to a container: to the quote's or footnote's content, or
/// to the list item being filled (outside an item it is dropped).
pub open spec fn container_push(c: ContainerView, inline: InlineView) -> ContainerView {
    match c {
        ContainerView::Quote { kind, content } => ContainerView::Quote { kind, content: content.push(inline) },
        ContainerView::Footnote { label, content } => ContainerView::Footnote {
            label,
            content: content.push(inline),
        },
        ContainerView::List { ordered, start, items, item } => match item {
            Some(it) => ContainerView::List {
                ordered,
                start,
                items,
                item: Some(ListItemView { content: it.content.push(inline), ..it }),
            },
            None => c,
        },
    }
}

/// A new paragraph inside a container: a space after content already there;
/// the first paragraph of a list item after the first marks a gap before it.
pub open spec fn container_paragraph(c: ContainerView) -> ContainerView {
    match c {
        ContainerView::Quote { kind, content } => if content.len() > 0 {
            ContainerView::Quote { kind, content: content.push(space_inline()) }
        } else {
            c
        },
        ContainerView::Footnote { label, content } => if content.len() > 0 {
            ContainerView::Footnote { label, content: content.push(space_inline()) }
        } else {
            c
        },
        ContainerView::List { ordered, start, items, item } => match item {
            Some(it) => if it.content.len() > 0 {
                ContainerView::List {
                    ordered,
                    start,
                    items,
                    item: Some(ListItemView { content: it.content.push(space_inline()), ..it }),
                }
            } else if items.len() > 0 {
                ContainerView::List { ordered, start, items, item: Some(ListItemView { gap_before: true, ..it }) }
            } else {
                c
            },
            None => c,
        },
    }
}

/// Where an inline goes: the open table cell, else the open block (code
/// blocks take its plain text), else the open container, else a new
/// paragraph.
pub open spec fn push_inline_into(
    block: Option<ActiveBlockView>,
    table: Option<TableStateView>,
    container: Option<ContainerView>,
    inline: InlineView,
) -> (Option<ActiveBlockView>, Option<TableStateView>, Option<ContainerView>) {
    if table is Some && table->0.in_cell {
        let t = table->0;
        (block, Some(TableStateView { current_cell: t.current_cell.push(inline), ..t }), container)
    } else {
        match block {
            Some(ActiveBlockView::Paragraph(c)) => (
                Some(ActiveBlockView::Paragraph(c.push(inline))),
                table,
                container,
            ),
            Some(ActiveBlockView::Heading { level, content }) => (
                Some(ActiveBlockView::Heading { level, content: content.push(inline) }),
                table,
                container,
            ),
            Some(ActiveBlockView::CodeBlock { lang, text }) => (
                Some(ActiveBlockView::CodeBlock { lang, text: text + plain_of(inline) }),
                table,
                container,
            ),
            None => match container {
                Some(c) => (None, table, Some(container_push(c, inline))),
                None => (Some(ActiveBlockView::Paragraph(seq![inline])), table, container),
            },
        }
    }
}

pub open spec fn with_inline(st: ParseView, inline: InlineView) -> ParseView {
    let (b, t, c) = push_inline_into(st.block, st.table, st.container, inline);
    ParseView { block: b, table: t, container: c, ..st }
}

/// One more container opened inside the open one.
pub open spec fn nested_up(st: ParseView) -> ParseView {
    ParseView {
        nested: if st.nested < usize::MAX { (st.nested + 1) as usize } else { st.nested },
        ..st
    }
}

/// Opens a container, or counts it as nested when one is already open.
pub open spec fn open_container(st: ParseView, c: ContainerView) -> ParseView {
    if st.container is Some {
        nested_up(st)
    } else {
        ParseView { container: Some(c), ..st }
    }
}

/// Closes a container: a nested one is only counted off; the outer one
/// becomes its block, citation markers in its text recognised.
pub open spec fn close_container(st: ParseView) -> ParseView {
    if st.nested > 0 {
        ParseView { nested: (st.nested - 1) as usize, ..st }
    } else {
        match st.container {
            Some(ContainerView::Quote { kind, content }) => ParseView {
                blocks: st.blocks.push(BlockView::Quote { kind, content: cites(content) }),
                container: None,
                ..st
            },
            Some(ContainerView::List { ordered, start, items, .. }) => ParseView {
                blocks: st.blocks.push(BlockView::List { ordered, start, items }),
                container: None,
                ..st
            },
            Some(ContainerView::Footnote { label, content }) => ParseView {
                blocks: st.blocks.push(BlockView::Footnote { label, content: cites(content) }),
                container: None,
                ..st
            },
            None => st,
        }
    }
}

/// A new item of the open list (not of a nested one); inside a nested
/// container an item only separates content like a paragraph.
pub open spec fn start_item(st: ParseView) -> ParseView {
    match st.container {
        Some(c) => if st.nested == 0 {
            match c {
                ContainerView::List { ordered, start, items, .. } => ParseView {
                    container: Some(
                        ContainerView::List {
                            ordered,
                            start,
                            items,
                            item: Some(ListItemView { checked: None, gap_before: false, content: Seq::empty() }),
                        },
                    ),
                    ..st
                },
                _ => st,
            }
        } else {
            ParseView { container: Some(container_paragraph(c)), ..st }
        },
        None => st,
    }
}

/// The item being filled joins the open list's items.
pub open spec fn end_item(st: ParseView) -> ParseView {
    if st.nested == 0 {
        match st.container {
            Some(ContainerView::List { ordered, start, items, item: Some(it) }) => ParseView {
                container: Some(
                    ContainerView::List {
                        ordered,
                        start,
                        items: items.push(ListItemView { content: cites(it.content), ..it }),
                        item: None,
                    },
                ),
                ..st
            },
            _ => st,
        }
    } else {
        st
    }
}

/// A task-list marker checks or unchecks the item being filled.
pub open spec fn mark_task(st: ParseView, checked: bool) -> ParseView {
    if st.nested == 0 {
        match st.container {
            Some(ContainerView::List { ordered, start, items, item: Some(it) }) => ParseView {
                container: Some(
                    ContainerView::List {
                        ordered,
                        start,
                        items,
                        item: Some(ListItemView { checked: Some(checked), ..it }),
                    },
                ),
                ..st
            },
            _ => st,
        }
    } else {
        st
    }
}

pub open spec fn with_table(st: ParseView, t: TableStateView) -> ParseView {
    ParseView { table: Some(t), ..st }
}

/// Effect of an opening tag.
pub open spec fn start_tag(st: ParseView, tag: MdTagView) -> ParseView {
    match tag {
        MdTagView::Paragraph => if st.table is Some && st.table->0.in_cell {
            st
        } else if st.container is Some {
            ParseView { container: Some(container_paragraph(st.container->0)), ..st }
        } else {
            ParseView { block: Some(ActiveBlockView::Paragraph(Seq::empty())), ..st }
        },
        MdTagView::Heading(h) => ParseView {
            block: Some(ActiveBlockView::Heading { level: heading_number(h), content: Seq::empty() }),
            ..st
        },
        MdTagView::CodeBlock(kind) => ParseView {
            block: Some(ActiveBlockView::CodeBlock { lang: code_lang_of(kind), text: Seq::empty() }),
            ..st
        },
        MdTagView::Link(href) => ParseView {
            link: Some(LinkView { href, content: Seq::empty() }),
            ..st
        },
        MdTagView::Image(src) => ParseView {
            image: Some(ImageView { src, alt: Seq::empty() }),
            ..st
        },
        MdTagView::Table(alignments) => with_table(
            st,
            TableStateView {
                alignments,
                header: Seq::empty(),
                rows: Seq::empty(),
                current_row: Seq::empty(),
                current_cell: Seq::empty(),
                in_header: false,
                in_cell: false,
            },
        ),
        MdTagView::TableHead => match st.table {
            Some(t) => with_table(st, TableStateView { in_header: true, current_row: Seq::empty(), ..t }),
            None => st,
        },
        MdTagView::TableRow => match st.table {
            Some(t) => with_table(st, TableStateView { current_row: Seq::empty(), ..t }),
            None => st,
        },
        MdTagView::TableCell => match st.table {
            Some(t) => with_table(st, TableStateView { current_cell: Seq::empty(), in_cell: true, ..t }),
            None => st,
        },
        MdTagView::BlockQuote(kind) => open_container(
            st,
            ContainerView::Quote { kind, content: Seq::empty() },
        ),
        MdTagView::List(first) => open_container(
            st,
            ContainerView::List {
                ordered: first is Some,
                start: match first {
                    Some(n) => n,
                    None => 1,
                },
                items: Seq::empty(),
                item: None,
            },
        ),
        MdTagView::Item => start_item(st),
        MdTagView::FootnoteDefinition(label) => open_container(
            st,
            ContainerView::Footnote { label, content: Seq::empty() },
        ),
        MdTagView::Other => st,
    }
}

/// Effect of a closing tag. Citation markers are recognised in the content
/// of each finished paragraph, heading, table cell and link.
pub open spec fn end_tag(st: ParseView, tag: MdTagEnd) -> ParseView {
    match tag {
        MdTagEnd::Paragraph => if st.table is Some && st.table->0.in_cell {
            st
        } else {
            match st.block {
                Some(ActiveBlockView::Paragraph(c)) => ParseView {
                    blocks: paragraph_or_math(st.blocks, cites(c)),
                    block: None,
                    ..st
                },
                _ => ParseView { block: None, ..st },
            }
        },
        MdTagEnd::Heading => match st.block {
            Some(ActiveBlockView::Heading { level, content }) => ParseView {
                blocks: st.blocks.push(BlockView::Heading { level, content: cites(content) }),
                block: None,
                ..st
            },
            _ => ParseView { block: None, ..st },
        },
        MdTagEnd::CodeBlock => match st.block {
            Some(ActiveBlockView::CodeBlock { lang, text }) => ParseView {
                blocks: st.blocks.push(BlockView::CodeBlock { lang, text }),
                block: None,
                ..st
            },
            _ => ParseView { block: None, ..st },
        },
        MdTagEnd::Link => match st.link {
            Some(l) => with_inline(
                ParseView { link: None, ..st },
                InlineView::Link { href: l.href, content: cites(l.content) },
            ),
            None => st,
        },
        MdTagEnd::Image => match st.image {
            Some(im) => ParseView {
                blocks: st.blocks.push(BlockView::Image { src: im.src, alt: im.alt }),
                image: None,
                ..st
            },
            None => st,
        },
        MdTagEnd::TableCell => match st.table {
            Some(t) => with_table(
                st,
                TableStateView {
                    current_row: t.current_row.push(cites(t.current_cell)),
                    current_cell: Seq::empty(),
                    in_cell: false,
                    ..t
                },
            ),
            None => st,
        },
        MdTagEnd::TableRow => match st.table {
            Some(t) => if t.in_header {
                with_table(st, TableStateView { header: t.current_row, current_row: Seq::empty(), ..t })
            } else {
                with_table(
                    st,
                    TableStateView { rows: t.rows.push(t.current_row), current_row: Seq::empty(), ..t },
                )
            },
            None => st,
        },
        MdTagEnd::TableHead => match st.table {
            Some(t) => if t.current_row.len() > 0 {
                with_table(
                    st,
                    TableStateView { header: t.current_row, current_row: Seq::empty(), in_header: false, ..t },
                )
            } else {
                with_table(st, TableStateView { in_header: false, ..t })
            },
            None => st,
        },
        MdTagEnd::Table => match st.table {
            Some(t) => ParseView {
                blocks: st.blocks.push(
                    BlockView::Table(TableView { alignments: t.alignments, header: t.header, rows: t.rows }),
                ),
                table: None,
                ..st
            },
            None => st,
        },
        MdTagEnd::BlockQuote | MdTagEnd::List | MdTagEnd::FootnoteDefinition => close_container(st),
        MdTagEnd::Item => end_item(st),
        MdTagEnd::Other => st,
    }
}

/// Effect of a text event: image alt text, else link content, else code
/// block text, else an inline text run.
pub open spec fn on_text(st: ParseView, t: Seq<char>) -> ParseView {
    if st.image is Some {
        let im = st.image->0;
        ParseView { image: Some(ImageView { alt: im.alt + t, ..im }), ..st }
    } else if st.link is Some {
        let l = st.link->0;
        ParseView { link: Some(LinkView { content: l.content.push(InlineView::Text(t)), ..l }), ..st }
    } else {
        match st.block {
            Some(ActiveBlockView::CodeBlock { lang, text }) => ParseView {
                block: Some(ActiveBlockView::CodeBlock { lang, text: text + t }),
                ..st
            },
            _ => with_inline(st, InlineView::Text(t)),
        }
    }
}

/// One step of the builder.
pub open spec fn step(st: ParseView, e: MdEventView) -> ParseView {
    match e {
        MdEventView::Start(tag) => start_tag(st, tag),
        MdEventView::End(tag) => end_tag(st, tag),
        MdEventView::Text(t) => on_text(st, t),
        MdEventView::Code(t) => with_inline(st, InlineView::Code(t)),
        MdEventView::InlineMath(t) => with_inline(st, InlineView::Math(t)),
        MdEventView::DisplayMath(t) => if st.block is None && st.table is None && st.container is None {
            ParseView { blocks: st.blocks.push(BlockView::MathBlock(t)), ..st }
        } else {
            with_inline(st, InlineView::Math(t))
        },
        MdEventView::SoftBreak => with_inline(st, InlineView::Text(seq![' '])),
        MdEventView::HardBreak => with_inline(st, InlineView::Text(seq![' '])),
        MdEventView::Rule => ParseView { blocks: st.blocks.push(BlockView::Divider), ..st },
        MdEventView::FootnoteReference(label) => with_inline(st, InlineView::FootnoteRef(label)),
        MdEventView::TaskListMarker(checked) => mark_task(st, checked),
        MdEventView::Other => st,
    }
}

/// The builder before any event.
pub open spec fn initial_state() -> ParseView {
    ParseView {
        blocks: Seq::empty(),
        block: None,
        link: None,
        image: None,
        table: None,
        container: None,
        nested: 0,
    }
}

/// The builder after `events`.
pub open spec fn run_events(events: Seq<MdEventView>) -> ParseView
    decreases events.len(),
{
    if events.len() == 0 {
        initial_state()
    } else {
        step(run_events(events.drop_last()), events.last())
    }
}

/// The blocks that `events` build; constructs still open at the end are dropped.
pub open spec fn document_of_events(events: Seq<MdEventView>) -> Seq<BlockView> {
    run_events(events).blocks
}

// ---------------------------------------------------------------------------
// Laws of the builder
// ---------------------------------------------------------------------------

/// A block the builder can produce: headings have a depth from 1 to 6 and
/// paragraphs are never empty.
pub open spec fn well_formed_block(b: BlockView) -> bool {
    match b {
        BlockView::Heading { level, .. } => 1 <= level <= 6,
        BlockView::Paragraph(c) => c.len() > 0,
        _ => true,
    }
}

pub open spec fn well_formed_state(st: ParseView) -> bool {
    &&& forall|i: int| 0 <= i < st.blocks.len() ==> well_formed_block(#[trigger] st.blocks[i])
    &&& st.block matches Some(ActiveBlockView::Heading { level, .. }) ==> 1 <= level <= 6
}

proof fn lemma_push_well_formed(blocks: Seq<BlockView>, b: BlockView)
    requires
        forall|i: int| 0 <= i < blocks.len() ==> well_formed_block(#[trigger] blocks[i]),
        well_formed_block(b),
    ensures
        forall|i: int| 0 <= i < blocks.push(b).len() ==> well_formed_block(#[trigger] blocks.push(b)[i]),
{
    assert forall|i: int| 0 <= i < blocks.push(b).len() implies well_formed_block(
        #[trigger] blocks.push(b)[i],
    ) by {
        if i < blocks.len() {
            assert(blocks.push(b)[i] == blocks[i]);
        }
    }
}

proof fn lemma_step_well_formed(st: ParseView, e: MdEventView)
    requires
        well_formed_state(st),
    ensures
        well_formed_state(step(st, e)),
{
    match e {
        MdEventView::End(MdTagEnd::Paragraph) => {
            if let Some(ActiveBlockView::Paragraph(c0)) = st.block {
                let c = cites(c0);
                match lone_math(c) {
                    Some(tex) => lemma_push_well_formed(st.blocks, BlockView::MathBlock(tex)),
                    None => if c.len() > 0 {
                        lemma_push_well_formed(st.blocks, BlockView::Paragraph(c));
                    },
                }
            }
        },
        MdEventView::End(MdTagEnd::BlockQuote) | MdEventView::End(MdTagEnd::List) | MdEventView::End(
            MdTagEnd::FootnoteDefinition,
        ) => {
            if st.nested == 0 {
                match st.container {
                    Some(ContainerView::Quote { kind, content }) => lemma_push_well_formed(
                        st.blocks,
                        BlockView::Quote { kind, content: cites(content) },
                    ),
                    Some(ContainerView::List { ordered, start, items, .. }) => lemma_push_well_formed(
                        st.blocks,
                        BlockView::List { ordered, start, items },
                    ),
                    Some(ContainerView::Footnote { label, content }) => lemma_push_well_formed(
                        st.blocks,
                        BlockView::Footnote { label, content: cites(content) },
                    ),
                    None => {},
                }
            }
        },
        MdEventView::End(MdTagEnd::Heading) => {
            if let Some(ActiveBlockView::Heading { level, content }) = st.block {
                lemma_push_well_formed(st.blocks, BlockView::Heading { level, content: cites(content) });
            }
        },
        MdEventView::End(MdTagEnd::CodeBlock) => {
            if let Some(ActiveBlockView::CodeBlock { lang, text }) = st.block {
                lemma_push_well_formed(st.blocks, BlockView::CodeBlock { lang, text });
            }
        },
        MdEventView::End(MdTagEnd::Image) => {
            if let Some(im) = st.image {
                lemma_push_well_formed(st.blocks, BlockView::Image { src: im.src, alt: im.alt });
            }
        },
        MdEventView::End(MdTagEnd::Table) => {
            if let Some(t) = st.table {
                lemma_push_well_formed(
                    st.blocks,
                    BlockView::Table(TableView { alignments: t.alignments, header: t.header, rows: t.rows }),
                );
            }
        },
        MdEventView::DisplayMath(t) => {
            lemma_push_well_formed(st.blocks, BlockView::MathBlock(t));
        },
        MdEventView::Rule => {
            lemma_push_well_formed(st.blocks, BlockView::Divider);
        },
        _ => {},
    }
}

/// Whatever the event stream, every block of the built document is well
/// formed: each heading has a depth from 1 to 6 and no paragraph is empty.
pub proof fn law_blocks_well_formed(events: Seq<MdEventView>)
    ensures
        forall|i: int|
            0 <= i < document_of_events(events).len() ==> well_formed_block(
                #[trigger] document_of_events(events)[i],
            ),
{
    lemma_run_well_formed(events);
}

proof fn lemma_run_well_formed(events: Seq<MdEventView>)
    ensures
        well_formed_state(run_events(events)),
    decreases events.len(),
{
    if events.len() > 0 {
        lemma_run_well_formed(events.drop_last());
        lemma_step_well_formed(run_events(events.drop_last()), events.last());
    }
}

/// One step never removes or changes a finished block.
proof fn lemma_step_extends(st: ParseView, e: MdEventView)
    ensures
        st.blocks.is_prefix_of(step(st, e).blocks),
{
    let r = step(st, e).blocks;
    assert(st.blocks.is_prefix_of(st.blocks));
    assert forall|b: BlockView| st.blocks.is_prefix_of(#[trigger] st.blocks.push(b)) by {
        assert(st.blocks.push(b).subrange(0, st.blocks.len() as int) == st.blocks);
    }
    match e {
        MdEventView::End(MdTagEnd::Paragraph) => {
            if let Some(ActiveBlockView::Paragraph(c0)) = st.block {
                let c = cites(c0);
                match lone_math(c) {
                    Some(tex) => assert(st.blocks.is_prefix_of(st.blocks.push(BlockView::MathBlock(tex)))),
                    None => if c.len() > 0 {
                        assert(st.blocks.is_prefix_of(st.blocks.push(BlockView::Paragraph(c))));
                    },
                }
            }
        },
        _ => {},
    }
}

/// The document grows append-only: the blocks built from a prefix of an event
/// stream are a prefix of the blocks built from the whole stream.
pub proof fn law_blocks_append_only(events: Seq<MdEventView>, more: Seq<MdEventView>)
    ensures
        document_of_events(events).is_prefix_of(document_of_events(events + more)),
    decreases more.len(),
{
    if more.len() == 0 {
        assert(events + more == events);
        assert(document_of_events(events).is_prefix_of(document_of_events(events)));
    } else {
        let shorter = more.drop_last();
        law_blocks_append_only(events, shorter);
        assert((events + more).drop_last() == events + shorter);
        assert((events + more).last() == more.last());
        lemma_step_extends(run_events(events + shorter), more.last());
        let a = document_of_events(events);
        let b = document_of_events(events + shorter);
        let c = document_of_events(events + more);
        assert(a.is_prefix_of(c)) by {
            assert(c.subrange(0, a.len() as int) == b.subrange(0, a.len() as int));
        }
    }
}

/// A paragraph that holds nothing but one math span is lifted to a display
/// math block.
pub proof fn law_lone_math_paragraph_is_math_block(tex: Seq<char>)
    ensures
        document_of_events(
            seq![
                MdEventView::Start(MdTagView::Paragraph),
                MdEventView::InlineMath(tex),
                MdEventView::End(MdTagEnd::Paragraph),
            ],
        ) == seq![BlockView::MathBlock(tex)],
{
    let es = seq![
        MdEventView::Start(MdTagView::Paragraph),
        MdEventView::InlineMath(tex),
        MdEventView::End(MdTagEnd::Paragraph),
    ];
    assert(es.drop_last().drop_last().drop_last() == Seq::<MdEventView>::empty());
    let c = seq![InlineView::Math(tex)];
    assert(c.drop_last() == Seq::<InlineView>::empty());
    assert(c.drop_first() == Seq::<InlineView>::empty());
    assert(flush_text(Seq::<char>::empty()) == Seq::<InlineView>::empty());
    assert(text_pieces(Seq::<char>::empty(), Seq::empty()) == Seq::<InlineView>::empty());
    assert(flush_run(Seq::<InlineView>::empty(), Seq::<char>::empty()) == Seq::<InlineView>::empty());
    assert(cites_go(Seq::<InlineView>::empty(), Seq::empty(), Seq::empty()) == Seq::<InlineView>::empty());
    assert(cites(c) == c);
    assert(meaningful(Seq::<InlineView>::empty()) == Seq::<InlineView>::empty());
    assert(meaningful(c) == c);
    reveal_with_fuel(run_events, 4);
}

proof fn lemma_cites_single(x: InlineView)
    requires
        !(x is Text),
    ensures
        cites(seq![x]) == seq![x],
{
    let c = seq![x];
    assert(c.drop_first() == Seq::<InlineView>::empty());
    assert(flush_text(Seq::<char>::empty()) == Seq::<InlineView>::empty());
    assert(text_pieces(Seq::<char>::empty(), Seq::empty()) == Seq::<InlineView>::empty());
    assert(flush_run(Seq::<InlineView>::empty(), Seq::<char>::empty()) == Seq::<InlineView>::empty());
    assert(cites_go(Seq::<InlineView>::empty(), Seq::empty(), Seq::empty()) == Seq::<InlineView>::empty());
}

proof fn lemma_cites_plain_text(text: Seq<char>)
    requires
        forall|j: int| 0 <= j < text.len() ==> text[j] != '[',
    ensures
        cites(seq![InlineView::Text(text)]) == seq![InlineView::Text(text)],
{
    let c = seq![InlineView::Text(text)];
    assert(crate::citations::plain_texts(c)) by {
        assert forall|i: int| 0 <= i < c.len() implies (#[trigger] c[i] matches InlineView::Text(t) && forall|j: int|
            0 <= j < t.len() ==> t[j] != '[') by {
            assert(c[i] == InlineView::Text(text));
        }
    }
    crate::citations::law_runs_without_markers_stay(c);
}

/// A block quote (or GitHub callout of kind `kind`) holding one paragraph of
/// text without citation markers becomes a quote block of that kind with
/// that text.
pub proof fn law_quote_is_quote_block(kind: QuoteKind, text: Seq<char>)
    requires
        forall|j: int| 0 <= j < text.len() ==> text[j] != '[',
    ensures
        document_of_events(
            seq![
                MdEventView::Start(MdTagView::BlockQuote(kind)),
                MdEventView::Start(MdTagView::Paragraph),
                MdEventView::Text(text),
                MdEventView::End(MdTagEnd::Paragraph),
                MdEventView::End(MdTagEnd::BlockQuote),
            ],
        ) == seq![BlockView::Quote { kind, content: seq![InlineView::Text(text)] }],
{
    let es = seq![
        MdEventView::Start(MdTagView::BlockQuote(kind)),
        MdEventView::Start(MdTagView::Paragraph),
        MdEventView::Text(text),
        MdEventView::End(MdTagEnd::Paragraph),
        MdEventView::End(MdTagEnd::BlockQuote),
    ];
    assert(es.drop_last().drop_last().drop_last().drop_last().drop_last() == Seq::<MdEventView>::empty());
    lemma_cites_plain_text(text);
    assert(Seq::<InlineView>::empty().push(InlineView::Text(text)) == seq![InlineView::Text(text)]);
    reveal_with_fuel(run_events, 6);
}

/// A task-list item becomes a list item checked as its marker says, holding
/// its text (here without citation markers); a list opened without a number
/// is unordered and counts from 1.
pub proof fn law_task_item_is_checked(checked: bool, text: Seq<char>)
    requires
        forall|j: int| 0 <= j < text.len() ==> text[j] != '[',
    ensures
        document_of_events(
            seq![
                MdEventView::Start(MdTagView::List(None)),
                MdEventView::Start(MdTagView::Item),
                MdEventView::TaskListMarker(checked),
                MdEventView::Text(text),
                MdEventView::End(MdTagEnd::Item),
                MdEventView::End(MdTagEnd::List),
            ],
        ) == seq![
            BlockView::List {
                ordered: false,
                start: 1,
                items: seq![
                    ListItemView { checked: Some(checked), gap_before: false, content: seq![InlineView::Text(text)] },
                ],
            },
        ],
{
    let es = seq![
        MdEventView::Start(MdTagView::List(None)),
        MdEventView::Start(MdTagView::Item),
        MdEventView::TaskListMarker(checked),
        MdEventView::Text(text),
        MdEventView::End(MdTagEnd::Item),
        MdEventView::End(MdTagEnd::List),
    ];
    assert(es.drop_last().drop_last().drop_last().drop_last().drop_last().drop_last()
        == Seq::<MdEventView>::empty());
    lemma_cites_plain_text(text);
    assert(Seq::<InlineView>::empty().push(InlineView::Text(text)) == seq![InlineView::Text(text)]);
    reveal_with_fuel(run_events, 7);
}

/// A footnote reference stays in its paragraph as a reference to its label,
/// and a footnote definition becomes a footnote block with its text (here
/// without citation markers).
pub proof fn law_footnotes(label: Seq<char>, text: Seq<char>)
    requires
        forall|j: int| 0 <= j < text.len() ==> text[j] != '[',
    ensures
        document_of_events(
            seq![
                MdEventView::Start(MdTagView::Paragraph),
                MdEventView::FootnoteReference(label),
                MdEventView::End(MdTagEnd::Paragraph),
            ],
        ) == seq![BlockView::Paragraph(seq![InlineView::FootnoteRef(label)])],
        document_of_events(
            seq![
                MdEventView::Start(MdTagView::FootnoteDefinition(label)),
                MdEventView::Start(MdTagView::Paragraph),
                MdEventView::Text(text),
                MdEventView::End(MdTagEnd::Paragraph),
                MdEventView::End(MdTagEnd::FootnoteDefinition),
            ],
        ) == seq![BlockView::Footnote { label, content: seq![InlineView::Text(text)] }],
{
    let es = seq![
        MdEventView::Start(MdTagView::Paragraph),
        MdEventView::FootnoteReference(label),
        MdEventView::End(MdTagEnd::Paragraph),
    ];
    assert(es.drop_last().drop_last().drop_last() == Seq::<MdEventView>::empty());
    let r = seq![InlineView::FootnoteRef(label)];
    lemma_cites_single(InlineView::FootnoteRef(label));
    assert(r.drop_last() == Seq::<InlineView>::empty());
    assert(meaningful(Seq::<InlineView>::empty()) == Seq::<InlineView>::empty());
    assert(meaningful(r) == r);
    let fs = seq![
        MdEventView::Start(MdTagView::FootnoteDefinition(label)),
        MdEventView::Start(MdTagView::Paragraph),
        MdEventView::Text(text),
        MdEventView::End(MdTagEnd::Paragraph),
        MdEventView::End(MdTagEnd::FootnoteDefinition),
    ];
    assert(fs.drop_last().drop_last().drop_last().drop_last().drop_last() == Seq::<MdEventView>::empty());
    lemma_cites_plain_text(text);
    assert(Seq::<InlineView>::empty().push(InlineView::Text(text)) == seq![InlineView::Text(text)]);
    reveal_with_fuel(run_events, 6);
}

/// A citation marker `[@key]`, even when the Markdown parser hands it over
/// in several text pieces, becomes one citation inline in its paragraph.
pub proof fn law_citation_marker(key: Seq<char>)
    requires
        key.len() > 0,
        forall|i: int| 0 <= i < key.len() ==> crate::citations::key_char(#[trigger] key[i]),
    ensures
        document_of_events(
            seq![
                MdEventView::Start(MdTagView::Paragraph),
                MdEventView::Text(seq!['[']),
                MdEventView::Text(seq!['@'] + key),
                MdEventView::Text(seq![']']),
                MdEventView::End(MdTagEnd::Paragraph),
            ],
        ) == seq![BlockView::Paragraph(seq![InlineView::Citation(key)])],
{
    let es = seq![
        MdEventView::Start(MdTagView::Paragraph),
        MdEventView::Text(seq!['[']),
        MdEventView::Text(seq!['@'] + key),
        MdEventView::Text(seq![']']),
        MdEventView::End(MdTagEnd::Paragraph),
    ];
    assert(es.drop_last().drop_last().drop_last().drop_last().drop_last() == Seq::<MdEventView>::empty());
    let a = InlineView::Text(seq!['[']);
    let b = InlineView::Text(seq!['@'] + key);
    let d = InlineView::Text(seq![']']);
    let c = seq![a, b, d];
    reveal_with_fuel(run_events, 6);
    assert(document_of_events(es) == paragraph_or_math(Seq::empty(), cites(c))) by {
        assert(Seq::<InlineView>::empty().push(a) == seq![a]);
        assert(seq![a].push(b) == seq![a, b]);
        assert(seq![a, b].push(d) == c);
    }
    let all = Seq::<char>::empty() + seq!['['] + (seq!['@'] + key) + seq![']'];
    assert(all == seq!['[', '@'] + key + seq![']']);
    assert(c.drop_first() == seq![b, d]);
    assert(seq![b, d].drop_first() == seq![d]);
    assert(seq![d].drop_first() == Seq::<InlineView>::empty());
    crate::citations::law_marker_is_citation(key);
    let a1 = Seq::<char>::empty() + seq!['['];
    let a2 = a1 + (seq!['@'] + key);
    let r1 = Seq::<InlineView>::empty().push(a);
    let r2 = r1.push(b);
    let r3 = r2.push(d);
    assert(cites_go(c, Seq::empty(), Seq::empty()) == cites_go(seq![b, d], r1, a1));
    assert(cites_go(seq![b, d], r1, a1) == cites_go(seq![d], r2, a2));
    assert(cites_go(seq![d], r2, a2) == cites_go(Seq::<InlineView>::empty(), r3, all));
    assert(has_citation(seq![InlineView::Citation(key)])) by {
        assert(seq![InlineView::Citation(key)][0] is Citation);
    }
    assert(cites_go(Seq::<InlineView>::empty(), r3, all) == text_pieces(all, Seq::empty()));
    assert(cites(c) == seq![InlineView::Citation(key)]);
    let r = seq![InlineView::Citation(key)];
    assert(r.drop_last() == Seq::<InlineView>::empty());
    assert(meaningful(Seq::<InlineView>::empty()) == Seq::<InlineView>::empty());
    assert(meaningful(r) == r);
}

/// The events of a heading of tag `h` holding the text `t`.
pub open spec fn heading_events(h: HeadingTag, t: Seq<char>) -> Seq<MdEventView> {
    seq![MdEventView::Start(MdTagView::Heading(h)), MdEventView::Text(t), MdEventView::End(MdTagEnd::Heading)]
}

proof fn lemma_heading_document(h: HeadingTag, t: Seq<char>)
    requires
        forall|j: int| 0 <= j < t.len() ==> t[j] != '[',
    ensures
        document_of_events(heading_events(h, t)) == seq![
            BlockView::Heading { level: heading_number(h), content: seq![InlineView::Text(t)] },
        ],
{
    let es = heading_events(h, t);
    assert(es.drop_last().drop_last().drop_last() == Seq::<MdEventView>::empty());
    lemma_cites_plain_text(t);
    assert(Seq::<InlineView>::empty().push(InlineView::Text(t)) == seq![InlineView::Text(t)]);
    reveal_with_fuel(run_events, 4);
}

/// A heading written with `#` to `######` becomes a heading block of depth 1
/// to 6, holding its text: `#` gives depth 1, `##` depth 2, and so on.
pub proof fn law_heading_levels(t: Seq<char>)
    requires
        forall|j: int| 0 <= j < t.len() ==> t[j] != '[',
    ensures
        document_of_events(heading_events(HeadingTag::H1, t)) == seq![
            BlockView::Heading { level: 1, content: seq![InlineView::Text(t)] },
        ],
        document_of_events(heading_events(HeadingTag::H2, t)) == seq![
            BlockView::Heading { level: 2, content: seq![InlineView::Text(t)] },
        ],
        document_of_events(heading_events(HeadingTag::H3, t)) == seq![
            BlockView::Heading { level: 3, content: seq![InlineView::Text(t)] },
        ],
        document_of_events(heading_events(HeadingTag::H4, t)) == seq![
            BlockView::Heading { level: 4, content: seq![InlineView::Text(t)] },
        ],
        document_of_events(heading_events(HeadingTag::H5, t)) == seq![
            BlockView::Heading { level: 5, content: seq![InlineView::Text(t)] },
        ],
        document_of_events(heading_events(HeadingTag::H6, t)) == seq![
            BlockView::Heading { level: 6, content: seq![InlineView::Text(t)] },
        ],
{
    lemma_heading_document(HeadingTag::H1, t);
    lemma_heading_document(HeadingTag::H2, t);
    lemma_heading_document(HeadingTag::H3, t);
    lemma_heading_document(HeadingTag::H4, t);
    lemma_heading_document(HeadingTag::H5, t);
    lemma_heading_document(HeadingTag::H6, t);
}

/// Inline and display math stay distinct: an inline formula never finishes
/// a block by itself, while a display formula outside any open block or
/// table becomes a math block of its own.
pub proof fn law_math_events(st: ParseView, tex: Seq<char>)
    ensures
        step(st, MdEventView::InlineMath(tex)).blocks == st.blocks,
        st.block is None && st.table is None && st.container is None ==> step(
            st,
            MdEventView::DisplayMath(tex),
        ).blocks
            == st.blocks.push(BlockView::MathBlock(tex)),
{
}

// ---------------------------------------------------------------------------
// The builder
// ---------------------------------------------------------------------------

enum ActiveBlock {
    Paragraph(Vec<Inline>),
    Heading { level: u8, content: Vec<Inline> },
    CodeBlock { lang: Option<String>, text: String },
}

struct ActiveLink {
    href: String,
    content: Vec<Inline>,
}

struct ActiveImage {
    src: String,
    alt: String,
}

struct ActiveTable {
    alignments: Vec<Alignment>,
    header: Vec<Vec<Inline>>,
    rows: Vec<Vec<Vec<Inline>>>,
    current_row: Vec<Vec<Inline>>,
    current_cell: Vec<Inline>,
    in_header: bool,
    in_cell: bool,
}

enum ActiveContainer {
    Quote { kind: QuoteKind, content: Vec<Inline> },
    List { ordered: bool, start: u64, items: Vec<ListItem>, item: Option<ListItem> },
    Footnote { label: String, content: Vec<Inline> },
}

struct ParseState {
    blocks: Vec<Block>,
    active_block: Option<ActiveBlock>,
    active_link: Option<ActiveLink>,
    active_image: Option<ActiveImage>,
    active_table: Option<ActiveTable>,
    container: Option<ActiveContainer>,
    nested: usize,
}

spec fn items_view(items: Seq<ListItem>) -> Seq<ListItemView> {
    items.map_values(|i: ListItem| list_item_view(i))
}

spec fn opt_item_view(item: Option<ListItem>) -> Option<ListItemView> {
    match item {
        Some(i) => Some(list_item_view(i)),
        None => None,
    }
}

spec fn container_view(c: ActiveContainer) -> ContainerView {
    match c {
        ActiveContainer::Quote { kind, content } => ContainerView::Quote { kind, content: inlines_view(content@) },
        ActiveContainer::List { ordered, start, items, item } => ContainerView::List {
            ordered,
            start,
            items: items_view(items@),
            item: opt_item_view(item),
        },
        ActiveContainer::Footnote { label, content } => ContainerView::Footnote {
            label: label@,
            content: inlines_view(content@),
        },
    }
}

spec fn opt_container_view(c: Option<ActiveContainer>) -> Option<ContainerView> {
    match c {
        Some(c) => Some(container_view(c)),
        None => None,
    }
}

fn space_text() -> (r: Inline)
    ensures
        r@ == space_inline(),
{
    let mut space = String::new();
    crate::text::push_char(&mut space, ' ');
    Inline::Text(space)
}

fn pushed(mut content: Vec<Inline>, inline: Inline) -> (r: Vec<Inline>)
    ensures
        inlines_view(r@) == inlines_view(content@).push(inline@),
{
    proof {
        lemma_inlines_view_push(content@, inline);
    }
    content.push(inline);
    content
}

/// An inline added to a container.
fn container_with(c: ActiveContainer, inline: Inline) -> (r: ActiveContainer)
    ensures
        container_view(r) == container_push(container_view(c), inline@),
{
    match c {
        ActiveContainer::Quote { kind, content } => ActiveContainer::Quote { kind, content: pushed(content, inline) },
        ActiveContainer::Footnote { label, content } => ActiveContainer::Footnote {
            label,
            content: pushed(content, inline),
        },
        ActiveContainer::List { ordered, start, items, item } => match item {
            Some(it) => ActiveContainer::List {
                ordered,
                start,
                items,
                item: Some(ListItem { checked: it.checked, gap_before: it.gap_before, content: pushed(it.content, inline) }),
            },
            None => ActiveContainer::List { ordered, start, items, item: None },
        },
    }
}

/// A new paragraph inside a container.
fn container_paragraph_exec(c: ActiveContainer) -> (r: ActiveContainer)
    ensures
        container_view(r) == container_paragraph(container_view(c)),
{
    match c {
        ActiveContainer::Quote { kind, content } => {
            proof {
                lemma_inlines_view_index(content@);
            }
            if content.len() > 0 {
                ActiveContainer::Quote { kind, content: pushed(content, space_text()) }
            } else {
                ActiveContainer::Quote { kind, content }
            }
        },
        ActiveContainer::Footnote { label, content } => {
            proof {
                lemma_inlines_view_index(content@);
            }
            if content.len() > 0 {
                ActiveContainer::Footnote { label, content: pushed(content, space_text()) }
            } else {
                ActiveContainer::Footnote { label, content }
            }
        },
        ActiveContainer::List { ordered, start, items, item } => match item {
            Some(it) => {
                proof {
                    lemma_inlines_view_index(it.content@);
                }
                if it.content.len() > 0 {
                    ActiveContainer::List {
                        ordered,
                        start,
                        items,
                        item: Some(ListItem { checked: it.checked, gap_before: it.gap_before, content: pushed(it.content, space_text()) }),
                    }
                } else if items.len() > 0 {
                    ActiveContainer::List {
                        ordered,
                        start,
                        items,
                        item: Some(ListItem { checked: it.checked, gap_before: true, content: it.content }),
                    }
                } else {
                    ActiveContainer::List { ordered, start, items, item: Some(it) }
                }
            },
            None => ActiveContainer::List { ordered, start, items, item: None },
        },
    }
}

spec fn active_block_view(b: ActiveBlock) -> ActiveBlockView {
    match b {
        ActiveBlock::Paragraph(c) => ActiveBlockView::Paragraph(inlines_view(c@)),
        ActiveBlock::Heading { level, content } => ActiveBlockView::Heading {
            level,
            content: inlines_view(content@),
        },
        ActiveBlock::CodeBlock { lang, text } => ActiveBlockView::CodeBlock {
            lang: opt_string_view(lang),
            text: text@,
        },
    }
}

spec fn opt_block_view(b: Option<ActiveBlock>) -> Option<ActiveBlockView> {
    match b {
        Some(b) => Some(active_block_view(b)),
        None => None,
    }
}

spec fn opt_link_view(l: Option<ActiveLink>) -> Option<LinkView> {
    match l {
        Some(l) => Some(LinkView { href: l.href@, content: inlines_view(l.content@) }),
        None => None,
    }
}

spec fn opt_image_view(i: Option<ActiveImage>) -> Option<ImageView> {
    match i {
        Some(i) => Some(ImageView { src: i.src@, alt: i.alt@ }),
        None => None,
    }
}

spec fn table_state_view(t: ActiveTable) -> TableStateView {
    TableStateView {
        alignments: t.alignments@,
        header: cells_view(t.header@),
        rows: rows_view(t.rows@),
        current_row: cells_view(t.current_row@),
        current_cell: inlines_view(t.current_cell@),
        in_header: t.in_header,
        in_cell: t.in_cell,
    }
}

spec fn opt_table_view(t: Option<ActiveTable>) -> Option<TableStateView> {
    match t {
        Some(t) => Some(table_state_view(t)),
        None => None,
    }
}

impl View for ParseState {
    type V = ParseView;

    closed spec fn view(&self) -> ParseView {
        ParseView {
            blocks: blocks_view(self.blocks@),
            block: opt_block_view(self.active_block),
            link: opt_link_view(self.active_link),
            image: opt_image_view(self.active_image),
            table: opt_table_view(self.active_table),
            container: opt_container_view(self.container),
            nested: self.nested,
        }
    }
}

/// Heading depth of a parsed heading tag.
fn heading_level(level: HeadingTag) -> (r: u8)
    ensures
        r == heading_number(level),
{
    match level {
        HeadingTag::H1 => 1,
        HeadingTag::H2 => 2,
        HeadingTag::H3 => 3,
        HeadingTag::H4 => 4,
        HeadingTag::H5 => 5,
        HeadingTag::H6 => 6,
    }
}

proof fn lemma_leading_word(s: Seq<char>, k: int)
    requires
        0 <= k <= s.len(),
        no_space(s.take(k)),
        k == s.len() || is_space_char(s[k]),
    ensures
        leading_word(s) == s.take(k),
    decreases k,
{
    if k > 0 {
        assert(!is_space_char(s.take(k)[0]));
        assert(no_space(s.drop_first().take(k - 1))) by {
            assert forall|j: int| 0 <= j < k - 1 implies !is_space_char(
                #[trigger] s.drop_first().take(k - 1)[j],
            ) by {
                assert(s.drop_first().take(k - 1)[j] == s.take(k)[j + 1]);
            }
        }
        if k < s.len() {
            assert(s.drop_first()[k - 1] == s[k]);
        }
        lemma_leading_word(s.drop_first(), k - 1);
        assert(seq![s[0]] + s.drop_first().take(k - 1) == s.take(k));
    }
}

/// The language named by a code fence: the first word of its info string.
fn code_lang(kind: CodeKind) -> (r: Option<String>)
    ensures
        opt_string_view(r) == code_lang_of(kind@),
{
    match kind {
        CodeKind::Indented => None,
        CodeKind::Fenced(info) => {
            let cs = chars_of(info.as_str());
            let n = cs.len();
            let mut i: usize = 0;
            while i < n && is_whitespace(cs[i])
                invariant
                    n == cs.len(),
                    i <= n,
                    all_space(cs@.take(i as int)),
                decreases n - i,
            {
                assert(cs@.take(i + 1) == cs@.take(i as int).push(cs@[i as int]));
                i = i + 1;
            }
            let mut j: usize = i;
            while j < n && !is_whitespace(cs[j])
                invariant
                    n == cs.len(),
                    i <= j <= n,
                    no_space(cs@.subrange(i as int, j as int)),
                decreases n - j,
            {
                assert(cs@.subrange(i as int, j + 1) == cs@.subrange(i as int, j as int).push(
                    cs@[j as int],
                ));
                j = j + 1;
            }
            let ghost rest = cs@.subrange(i as int, n as int);
            proof {
                lemma_trim_start_skip(cs@, i as int);
                if i < n {
                    assert(!is_space_char(rest[0]));
                }
                assert(trim_start_seq(rest) == rest);
                assert(rest.take(j - i) == cs@.subrange(i as int, j as int));
                if j < n {
                    assert(rest[j - i] == cs@[j as int]);
                }
                lemma_leading_word(rest, j - i);
            }
            if j == i {
                None
            } else {
                Some(string_from_range(&cs, i, j))
            }
        },
    }
}

/// Puts an inline into the open table cell, else into the open block (a
/// code block takes its plain text), else into a new paragraph.
fn push_inline(
    active_block: &mut Option<ActiveBlock>,
    active_table: &mut Option<ActiveTable>,
    container: &mut Option<ActiveContainer>,
    inline: Inline,
)
    ensures
        (
            opt_block_view(*final(active_block)),
            opt_table_view(*final(active_table)),
            opt_container_view(*final(container)),
        ) == push_inline_into(
            opt_block_view(*old(active_block)),
            opt_table_view(*old(active_table)),
            opt_container_view(*old(container)),
            inline@,
        ),
{
    let ghost iv = inline@;
    if let Some(mut table) = active_table.take() {
        if table.in_cell {
            let ghost before = table.current_cell@;
            table.current_cell.push(inline);
            proof {
                lemma_inlines_view_push(before, inline);
            }
            *active_table = Some(table);
            return ;
        }
        *active_table = Some(table);
    }
    match active_block.take() {
        Some(ActiveBlock::Paragraph(mut content)) => {
            proof {
                lemma_inlines_view_push(content@, inline);
            }
            content.push(inline);
            *active_block = Some(ActiveBlock::Paragraph(content));
        },
        Some(ActiveBlock::Heading { level, mut content }) => {
            proof {
                lemma_inlines_view_push(content@, inline);
            }
            content.push(inline);
            *active_block = Some(ActiveBlock::Heading { level, content });
        },
        Some(ActiveBlock::CodeBlock { lang, mut text }) => {
            let piece = inline.plain_text();
            text.append(piece.as_str());
            *active_block = Some(ActiveBlock::CodeBlock { lang, text });
        },
        None => {
            if let Some(c) = container.take() {
                *container = Some(container_with(c, inline));
            } else {
                let mut content: Vec<Inline> = Vec::new();
                proof {
                    lemma_inlines_view_push(content@, inline);
                }
                content.push(inline);
                assert(inlines_view(content@) == seq![iv]);
                *active_block = Some(ActiveBlock::Paragraph(content));
            }
        },
    }
}

fn is_blank_inline(inline: &Inline) -> (r: bool)
    ensures
        r == is_blank_text(inline@),
{
    match inline {
        Inline::Text(text) => is_blank(text.as_str()),
        _ => false,
    }
}

/// Closes a paragraph: a paragraph whose only meaningful inline is math
/// becomes a math block, an empty paragraph is dropped.
fn push_paragraph_or_math(blocks: &mut Vec<Block>, content: Vec<Inline>)
    ensures
        blocks_view(final(blocks)@) == paragraph_or_math(
            blocks_view(old(blocks)@),
            inlines_view(content@),
        ),
{
    let ghost cv = inlines_view(content@);
    proof {
        lemma_inlines_view_index(content@);
    }
    let mut count: usize = 0;
    let mut first: usize = 0;
    let mut i: usize = 0;
    while i < content.len()
        invariant
            i <= content.len(),
            cv == inlines_view(content@),
            cv.len() == content@.len(),
            forall|k: int| 0 <= k < content@.len() ==> #[trigger] cv[k] == inline_view(content@[k]),
            count == meaningful(cv.take(i as int)).len(),
            count <= i,
            count > 0 ==> first < i && meaningful(cv.take(i as int))[0] == cv[first as int],
        decreases content.len() - i,
    {
        assert(cv.take(i + 1).drop_last() == cv.take(i as int));
        assert(cv.take(i + 1).last() == cv[i as int]);
        if !is_blank_inline(&content[i]) {
            if count == 0 {
                first = i;
            }
            count = count + 1;
        }
        i = i + 1;
    }
    assert(cv.take(content.len() as int) == cv);
    let ghost old_blocks = blocks@;
    if count == 1 {
        match &content[first] {
            Inline::Math(tex) => {
                let tex = tex.clone();
                blocks.push(Block::MathBlock(tex));
                assert(blocks@ == old_blocks.push(Block::MathBlock(tex)));
                assert(blocks_view(blocks@) == blocks_view(old_blocks).push(BlockView::MathBlock(tex@)));
                return ;
            },
            _ => {},
        }
    }
    if content.len() > 0 {
        blocks.push(Block::Paragraph(content));
        assert(blocks_view(blocks@) == blocks_view(old_blocks).push(BlockView::Paragraph(cv)));
    }
}

impl ParseState {
    fn new() -> (st: Self)
        ensures
            st@ == initial_state(),
    {
        let st = ParseState {
            blocks: Vec::new(),
            active_block: None,
            active_link: None,
            active_image: None,
            active_table: None,
            container: None,
            nested: 0,
        };
        assert(blocks_view(st.blocks@) == Seq::<BlockView>::empty());
        st
    }

    fn push_block(&mut self, block: Block)
        ensures
            final(self)@ == (ParseView { blocks: old(self)@.blocks.push(block@), ..old(self)@ }),
    {
        let ghost before = self.blocks@;
        self.blocks.push(block);
        assert(blocks_view(self.blocks@) == blocks_view(before).push(block@));
    }

    fn add_inline(&mut self, inline: Inline)
        ensures
            final(self)@ == with_inline(old(self)@, inline@),
    {
        push_inline(&mut self.active_block, &mut self.active_table, &mut self.container, inline);
    }

    fn start_tag(&mut self, tag: MdTag)
        ensures
            final(self)@ == start_tag(old(self)@, tag@),
    {
        match tag {
            MdTag::Paragraph => {
                if !self.in_table_cell() {
                    if let Some(c) = self.container.take() {
                        self.container = Some(container_paragraph_exec(c));
                    } else {
                        let content: Vec<Inline> = Vec::new();
                        assert(inlines_view(content@) == Seq::<InlineView>::empty());
                        self.active_block = Some(ActiveBlock::Paragraph(content));
                    }
                }
            },
            MdTag::Heading(level) => {
                let content: Vec<Inline> = Vec::new();
                assert(inlines_view(content@) == Seq::<InlineView>::empty());
                self.active_block = Some(ActiveBlock::Heading { level: heading_level(level), content });
            },
            MdTag::CodeBlock(kind) => {
                self.active_block = Some(ActiveBlock::CodeBlock { lang: code_lang(kind), text: String::new() });
            },
            MdTag::Link(href) => {
                let content: Vec<Inline> = Vec::new();
                assert(inlines_view(content@) == Seq::<InlineView>::empty());
                self.active_link = Some(ActiveLink { href, content });
            },
            MdTag::Image(src) => {
                self.active_image = Some(ActiveImage { src, alt: String::new() });
            },
            MdTag::Table(alignments) => {
                let t = ActiveTable {
                    alignments,
                    header: Vec::new(),
                    rows: Vec::new(),
                    current_row: Vec::new(),
                    current_cell: Vec::new(),
                    in_header: false,
                    in_cell: false,
                };
                assert(cells_view(t.header@) == Seq::<Seq<InlineView>>::empty());
                assert(rows_view(t.rows@) == Seq::<Seq<Seq<InlineView>>>::empty());
                assert(cells_view(t.current_row@) == Seq::<Seq<InlineView>>::empty());
                assert(inlines_view(t.current_cell@) == Seq::<InlineView>::empty());
                self.active_table = Some(t);
            },
            MdTag::TableHead => {
                if let Some(mut table) = self.active_table.take() {
                    table.in_header = true;
                    table.current_row = Vec::new();
                    assert(cells_view(table.current_row@) == Seq::<Seq<InlineView>>::empty());
                    self.active_table = Some(table);
                }
            },
            MdTag::TableRow => {
                if let Some(mut table) = self.active_table.take() {
                    table.current_row = Vec::new();
                    assert(cells_view(table.current_row@) == Seq::<Seq<InlineView>>::empty());
                    self.active_table = Some(table);
                }
            },
            MdTag::TableCell => {
                if let Some(mut table) = self.active_table.take() {
                    table.current_cell = Vec::new();
                    table.in_cell = true;
                    assert(inlines_view(table.current_cell@) == Seq::<InlineView>::empty());
                    self.active_table = Some(table);
                }
            },
            MdTag::BlockQuote(kind) => {
                let content: Vec<Inline> = Vec::new();
                assert(inlines_view(content@) == Seq::<InlineView>::empty());
                self.open_container(ActiveContainer::Quote { kind, content });
            },
            MdTag::List(first) => {
                let items: Vec<ListItem> = Vec::new();
                assert(items_view(items@) == Seq::<ListItemView>::empty());
                let (ordered, start) = match first {
                    Some(n) => (true, n),
                    None => (false, 1),
                };
                self.open_container(ActiveContainer::List { ordered, start, items, item: None });
            },
            MdTag::Item => self.start_item(),
            MdTag::FootnoteDefinition(label) => {
                let content: Vec<Inline> = Vec::new();
                assert(inlines_view(content@) == Seq::<InlineView>::empty());
                self.open_container(ActiveContainer::Footnote { label, content });
            },
            MdTag::Other => {},
        }
    }

    fn open_container(&mut self, c: ActiveContainer)
        ensures
            final(self)@ == open_container(old(self)@, container_view(c)),
    {
        if self.container.is_some() {
            if self.nested < usize::MAX {
                self.nested = self.nested + 1;
            }
        } else {
            self.container = Some(c);
        }
    }

    fn close_container(&mut self)
        ensures
            final(self)@ == close_container(old(self)@),
    {
        if self.nested > 0 {
            self.nested = self.nested - 1;
            return ;
        }
        match self.container.take() {
            Some(ActiveContainer::Quote { kind, content }) => {
                let content = with_citations(content);
                self.push_block(Block::Quote { kind, content });
            },
            Some(ActiveContainer::List { ordered, start, items, item }) => {
                self.push_block(Block::List { ordered, start, items });
            },
            Some(ActiveContainer::Footnote { label, content }) => {
                let content = with_citations(content);
                self.push_block(Block::Footnote { label, content });
            },
            None => {},
        }
    }

    fn start_item(&mut self)
        ensures
            final(self)@ == start_item(old(self)@),
    {
        if let Some(c) = self.container.take() {
            if self.nested == 0 {
                match c {
                    ActiveContainer::List { ordered, start, items, item } => {
                        let content: Vec<Inline> = Vec::new();
                        assert(inlines_view(content@) == Seq::<InlineView>::empty());
                        let it = ListItem { checked: None, gap_before: false, content };
                        self.container = Some(ActiveContainer::List { ordered, start, items, item: Some(it) });
                    },
                    other => {
                        self.container = Some(other);
                    },
                }
            } else {
                self.container = Some(container_paragraph_exec(c));
            }
        }
    }

    fn end_item(&mut self)
        ensures
            final(self)@ == end_item(old(self)@),
    {
        if self.nested == 0 {
            match self.container.take() {
                Some(ActiveContainer::List { ordered, start, mut items, item: Some(it) }) => {
                    let content = with_citations(it.content);
                    let done = ListItem { checked: it.checked, gap_before: it.gap_before, content };
                    let ghost before = items@;
                    items.push(done);
                    assert(items_view(items@) == items_view(before).push(list_item_view(done)));
                    self.container = Some(ActiveContainer::List { ordered, start, items, item: None });
                },
                other => {
                    self.container = other;
                },
            }
        }
    }

    fn mark_task(&mut self, checked: bool)
        ensures
            final(self)@ == mark_task(old(self)@, checked),
    {
        if self.nested == 0 {
            match self.container.take() {
                Some(ActiveContainer::List { ordered, start, items, item: Some(it) }) => {
                    let it = ListItem { checked: Some(checked), gap_before: it.gap_before, content: it.content };
                    self.container = Some(ActiveContainer::List { ordered, start, items, item: Some(it) });
                },
                other => {
                    self.container = other;
                },
            }
        }
    }

    fn end_tag(&mut self, tag: MdTagEnd)
        ensures
            final(self)@ == end_tag(old(self)@, tag),
    {
        match tag {
            MdTagEnd::Paragraph => {
                if self.in_table_cell() {
                    return ;
                }
                if let Some(ActiveBlock::Paragraph(content)) = self.active_block.take() {
                    push_paragraph_or_math(&mut self.blocks, with_citations(content));
                }
            },
            MdTagEnd::Heading => {
                if let Some(ActiveBlock::Heading { level, content }) = self.active_block.take() {
                    let content = with_citations(content);
                    self.push_block(Block::Heading { level, content });
                }
            },
            MdTagEnd::CodeBlock => {
                if let Some(ActiveBlock::CodeBlock { lang, text }) = self.active_block.take() {
                    self.push_block(Block::CodeBlock { lang, text });
                }
            },
            MdTagEnd::Link => {
                if let Some(link) = self.active_link.take() {
                    let content = with_citations(link.content);
                    self.add_inline(Inline::Link { href: link.href, content });
                }
            },
            MdTagEnd::Image => {
                if let Some(image) = self.active_image.take() {
                    self.push_block(Block::Image { src: image.src, alt: image.alt });
                }
            },
            MdTagEnd::TableCell => {
                if let Some(mut table) = self.active_table.take() {
                    let ghost row = table.current_row@;
                    let cell = with_citations(table.current_cell);
                    table.current_row.push(cell);
                    table.current_cell = Vec::new();
                    table.in_cell = false;
                    assert(cells_view(table.current_row@) == cells_view(row).push(inlines_view(cell@)));
                    assert(inlines_view(table.current_cell@) == Seq::<InlineView>::empty());
                    self.active_table = Some(table);
                }
            },
            MdTagEnd::TableRow => {
                if let Some(mut table) = self.active_table.take() {
                    let row = table.current_row;
                    table.current_row = Vec::new();
                    assert(cells_view(table.current_row@) == Seq::<Seq<InlineView>>::empty());
                    if table.in_header {
                        table.header = row;
                    } else {
                        let ghost rows = table.rows@;
                        table.rows.push(row);
                        assert(rows_view(table.rows@) == rows_view(rows).push(cells_view(row@)));
                    }
                    self.active_table = Some(table);
                }
            },
            MdTagEnd::TableHead => {
                if let Some(mut table) = self.active_table.take() {
                    if table.current_row.len() > 0 {
                        let row = table.current_row;
                        table.current_row = Vec::new();
                        assert(cells_view(table.current_row@) == Seq::<Seq<InlineView>>::empty());
                        table.header = row;
                    }
                    table.in_header = false;
                    self.active_table = Some(table);
                }
            },
            MdTagEnd::Table => {
                if let Some(table) = self.active_table.take() {
                    self.push_block(
                        Block::Table(Table { alignments: table.alignments, header: table.header, rows: table.rows }),
                    );
                }
            },
            MdTagEnd::BlockQuote | MdTagEnd::List | MdTagEnd::FootnoteDefinition => self.close_container(),
            MdTagEnd::Item => self.end_item(),
            MdTagEnd::Other => {},
        }
    }

    fn on_text(&mut self, text: String)
        ensures
            final(self)@ == on_text(old(self)@, text@),
    {
        if let Some(mut image) = self.active_image.take() {
            image.alt.append(text.as_str());
            self.active_image = Some(image);
        } else if let Some(mut link) = self.active_link.take() {
            let ghost before = link.content@;
            let item = Inline::Text(text);
            proof {
                lemma_inlines_view_push(before, item);
            }
            link.content.push(item);
            self.active_link = Some(link);
        } else {
            match self.active_block.take() {
                Some(ActiveBlock::CodeBlock { lang, text: mut code }) => {
                    code.append(text.as_str());
                    self.active_block = Some(ActiveBlock::CodeBlock { lang, text: code });
                },
                other => {
                    self.active_block = other;
                    self.add_inline(Inline::Text(text));
                },
            }
        }
    }

    fn apply(&mut self, event: MdEvent)
        ensures
            final(self)@ == step(old(self)@, event@),
    {
        match event {
            MdEvent::Start(tag) => self.start_tag(tag),
            MdEvent::End(tag) => self.end_tag(tag),
            MdEvent::Text(text) => self.on_text(text),
            MdEvent::Code(text) => self.add_inline(Inline::Code(text)),
            MdEvent::InlineMath(text) => self.add_inline(Inline::Math(text)),
            MdEvent::DisplayMath(text) => {
                if self.active_block.is_none() && self.active_table.is_none() && self.container.is_none() {
                    self.push_block(Block::MathBlock(text));
                } else {
                    self.add_inline(Inline::Math(text));
                }
            },
            MdEvent::SoftBreak | MdEvent::HardBreak => {
                let mut space = String::new();
                crate::text::push_char(&mut space, ' ');
                self.add_inline(Inline::Text(space));
            },
            MdEvent::Rule => self.push_block(Block::Divider),
            MdEvent::FootnoteReference(label) => self.add_inline(Inline::FootnoteRef(label)),
            MdEvent::TaskListMarker(checked) => self.mark_task(checked),
            MdEvent::Other => {},
        }
    }

    fn into_document(self) -> (doc: Document)
        ensures
            doc@ == self@.blocks,
    {
        Document::new(self.blocks)
    }

    fn in_table_cell(&self) -> (r: bool)
        ensures
            r == (self@.table is Some && self@.table->0.in_cell),
    {
        match &self.active_table {
            Some(table) => table.in_cell,
            None => false,
        }
    }
}

/// Builds the document from a Markdown event stream.
pub fn document_from_events(events: Vec<MdEvent>) -> (doc: Document)
    ensures
        doc@ == document_of_events(events_view(events@)),
{
    let ghost evs = events_view(events@);
    let mut state = ParseState::new();
    for event in it: events
        invariant
            it.seq() == events@,
            evs == events_view(events@),
            state@ == run_events(evs.take(it.index() as int)),
    {
        let ghost i = it.index() as int;
        assert(event == events@[i]);
        assert(evs.take(i + 1).drop_last() == evs.take(i));
        assert(evs.take(i + 1).last() == event@);
        state.apply(event);
    }
    assert(evs.take(evs.len() as int) == evs);
    state.into_document()
}

/// Parses Markdown text into a document.
pub fn parse_markdown(input: &str) -> (doc: Document)
    ensures
        doc@ == document_of_events(markdown_event_stream(input@)),
{
    let events = markdown_events(input);
    document_from_events(events)
}

} // verus!
