//! The Markdown event stream. `pulldown_cmark` parses the text; its events
//! are converted one for one into plain values the document builder reads.

use vstd::prelude::*;
use pulldown_cmark::{
    Alignment as MdAlignment, BlockQuoteKind, CodeBlockKind, Event, HeadingLevel, Options, Parser,
    Tag, TagEnd,
};
use crate::ir::{Alignment, QuoteKind};

verus! {

/// Heading depth as the Markdown parser reports it.
#[derive(Debug, Clone, Copy, PartialEq, Eq, Structural)]
pub enum HeadingTag {
    H1,
    H2,
    H3,
    H4,
    H5,
    H6,
}

/// How a code block was written: indented, or fenced with an info string.
#[derive(Debug)]
pub enum CodeKind {
    Indented,
    Fenced(String),
}

/// The opening tags that the document builder distinguishes.
#[derive(Debug)]
pub enum MdTag {
    Paragraph,
    Heading(HeadingTag),
    CodeBlock(CodeKind),
    Link(String),
    Image(String),
    Table(Vec<Alignment>),
    TableHead,
    TableRow,
    TableCell,
    BlockQuote(QuoteKind),
    List(Option<u64>),
    Item,
    FootnoteDefinition(String),
    Other,
}

/// The closing tags that the document builder distinguishes.
#[derive(Debug, Clone, Copy, PartialEq, Eq, Structural)]
pub enum MdTagEnd {
    Paragraph,
    Heading,
    CodeBlock,
    Link,
    Image,
    TableCell,
    TableRow,
    TableHead,
    Table,
    BlockQuote,
    List,
    Item,
    FootnoteDefinition,
    Other,
}

/// One event of the Markdown event stream, holding plain values.
#[derive(Debug)]
pub enum MdEvent {
    Start(MdTag),
    End(MdTagEnd),
    Text(String),
    Code(String),
    InlineMath(String),
    DisplayMath(String),
    SoftBreak,
    HardBreak,
    Rule,
    FootnoteReference(String),
    TaskListMarker(bool),
    Other,
}

/// Model of a [`CodeKind`].
pub enum CodeKindView {
    Indented,
    Fenced(Seq<char>),
}

/// Model of an [`MdTag`].
pub enum MdTagView {
    Paragraph,
    Heading(HeadingTag),
    CodeBlock(CodeKindView),
    Link(Seq<char>),
    Image(Seq<char>),
    Table(Seq<Alignment>),
    TableHead,
    TableRow,
    TableCell,
    BlockQuote(QuoteKind),
    List(Option<u64>),
    Item,
    FootnoteDefinition(Seq<char>),
    Other,
}

/// Model of an [`MdEvent`].
pub enum MdEventView {
    Start(MdTagView),
    End(MdTagEnd),
    Text(Seq<char>),
    Code(Seq<char>),
    InlineMath(Seq<char>),
    DisplayMath(Seq<char>),
    SoftBreak,
    HardBreak,
    Rule,
    FootnoteReference(Seq<char>),
    TaskListMarker(bool),
    Other,
}

impl View for CodeKind {
    type V = CodeKindView;

    open spec fn view(&self) -> CodeKindView {
        match self {
            CodeKind::Indented => CodeKindView::Indented,
            CodeKind::Fenced(info) => CodeKindView::Fenced(info@),
        }
    }
}

impl View for MdTag {
    type V = MdTagView;

    open spec fn view(&self) -> MdTagView {
        match self {
            MdTag::Paragraph => MdTagView::Paragraph,
            MdTag::Heading(h) => MdTagView::Heading(*h),
            MdTag::CodeBlock(k) => MdTagView::CodeBlock(k@),
            MdTag::Link(s) => MdTagView::Link(s@),
            MdTag::Image(s) => MdTagView::Image(s@),
            MdTag::Table(a) => MdTagView::Table(a@),
            MdTag::TableHead => MdTagView::TableHead,
            MdTag::TableRow => MdTagView::TableRow,
            MdTag::TableCell => MdTagView::TableCell,
            MdTag::BlockQuote(k) => MdTagView::BlockQuote(*k),
            MdTag::List(n) => MdTagView::List(*n),
            MdTag::Item => MdTagView::Item,
            MdTag::FootnoteDefinition(l) => MdTagView::FootnoteDefinition(l@),
            MdTag::Other => MdTagView::Other,
        }
    }
}

impl View for MdEvent {
    type V = MdEventView;

    open spec fn view(&self) -> MdEventView {
        match self {
            MdEvent::Start(t) => MdEventView::Start(t@),
            MdEvent::End(t) => MdEventView::End(*t),
            MdEvent::Text(s) => MdEventView::Text(s@),
            MdEvent::Code(s) => MdEventView::Code(s@),
            MdEvent::InlineMath(s) => MdEventView::InlineMath(s@),
            MdEvent::DisplayMath(s) => MdEventView::DisplayMath(s@),
            MdEvent::SoftBreak => MdEventView::SoftBreak,
            MdEvent::HardBreak => MdEventView::HardBreak,
            MdEvent::Rule => MdEventView::Rule,
            MdEvent::FootnoteReference(l) => MdEventView::FootnoteReference(l@),
            MdEvent::TaskListMarker(b) => MdEventView::TaskListMarker(*b),
            MdEvent::Other => MdEventView::Other,
        }
    }
}

/// The views of a list of events.
pub open spec fn events_view(events: Seq<MdEvent>) -> Seq<MdEventView> {
    events.map_values(|e: MdEvent| e@)
}

#[verifier::external_type_specification]
#[verifier::external_body]
pub struct ExEvent<'a>(Event<'a>);

#[verifier::external_type_specification]
#[verifier::external_body]
pub struct ExTag<'a>(Tag<'a>);

#[verifier::external_type_specification]
#[verifier::external_body]
pub struct ExTagEnd(TagEnd);

#[verifier::external_type_specification]
#[verifier::external_body]
pub struct ExHeadingLevel(HeadingLevel);

#[verifier::external_type_specification]
#[verifier::external_body]
pub struct ExMdAlignment(MdAlignment);

#[verifier::external_type_specification]
#[verifier::external_body]
pub struct ExBlockQuoteKind(BlockQuoteKind);

/// The event stream that `pulldown_cmark::Parser::new_ext` yields for `input`
/// with tables, math, strikethrough, task lists, footnotes and GitHub
/// callouts enabled, each event converted to an [`MdEventView`].
pub uninterp spec fn markdown_event_stream(input: Seq<char>) -> Seq<MdEventView>;

/// Runs `pulldown_cmark::Parser::new_ext` over `input` (tables, math,
/// strikethrough, task lists, footnotes and GitHub callouts enabled) and collects its events. The contract claims only
/// that the result is a function of the input text: the parser is a pure,
/// deterministic function of its input and options.
#[verifier::external_body]
pub(crate) fn markdown_events(input: &str) -> (events: Vec<MdEvent>)
    ensures
        events_view(events@) == markdown_event_stream(input@),
{
    let mut options = Options::empty();
    options.insert(Options::ENABLE_TABLES);
    options.insert(Options::ENABLE_MATH);
    options.insert(Options::ENABLE_STRIKETHROUGH);
    options.insert(Options::ENABLE_TASKLISTS);
    options.insert(Options::ENABLE_FOOTNOTES);
    options.insert(Options::ENABLE_GFM);
    Parser::new_ext(input, options).map(md_event).collect()
}

/// Converts a `pulldown_cmark::Event` into an [`MdEvent`], one variant to one
/// variant; events the builder ignores become `Other`.
#[verifier::external_body]
fn md_event(event: Event<'_>) -> MdEvent {
    match event {
        Event::Start(tag) => MdEvent::Start(md_tag(tag)),
        Event::End(tag) => MdEvent::End(md_tag_end(tag)),
        Event::Text(text) => MdEvent::Text(text.to_string()),
        Event::Code(text) => MdEvent::Code(text.to_string()),
        Event::InlineMath(text) => MdEvent::InlineMath(text.to_string()),
        Event::DisplayMath(text) => MdEvent::DisplayMath(text.to_string()),
        Event::SoftBreak => MdEvent::SoftBreak,
        Event::HardBreak => MdEvent::HardBreak,
        Event::Rule => MdEvent::Rule,
        Event::FootnoteReference(label) => MdEvent::FootnoteReference(label.to_string()),
        Event::TaskListMarker(checked) => MdEvent::TaskListMarker(checked),
        _ => MdEvent::Other,
    }
}

/// Converts a `pulldown_cmark::Tag` into an [`MdTag`], keeping the fields the
/// builder reads (heading level, code block info, link and image targets,
/// column alignments).
#[verifier::external_body]
fn md_tag(tag: Tag<'_>) -> MdTag {
    match tag {
        Tag::Paragraph => MdTag::Paragraph,
        Tag::Heading { level, .. } => MdTag::Heading(md_heading(level)),
        Tag::CodeBlock(CodeBlockKind::Indented) => MdTag::CodeBlock(CodeKind::Indented),
        Tag::CodeBlock(CodeBlockKind::Fenced(info)) => MdTag::CodeBlock(CodeKind::Fenced(info.to_string())),
        Tag::Link { dest_url, .. } => MdTag::Link(dest_url.to_string()),
        Tag::Image { dest_url, .. } => MdTag::Image(dest_url.to_string()),
        Tag::Table(alignments) => MdTag::Table(alignments.into_iter().map(map_alignment).collect()),
        other => md_container_tag(other),
    }
}

/// Converts the table-part and container tags of `pulldown_cmark` (table
/// head, row and cell; block quote, list, list item, footnote definition)
/// into an [`MdTag`], one variant to one variant; the rest become `Other`.
#[verifier::external_body]
fn md_container_tag(tag: Tag<'_>) -> MdTag {
    match tag {
        Tag::TableHead => MdTag::TableHead,
        Tag::TableRow => MdTag::TableRow,
        Tag::TableCell => MdTag::TableCell,
        Tag::BlockQuote(kind) => MdTag::BlockQuote(md_quote_kind(kind)),
        Tag::List(start) => MdTag::List(start),
        Tag::Item => MdTag::Item,
        Tag::FootnoteDefinition(label) => MdTag::FootnoteDefinition(label.to_string()),
        _ => MdTag::Other,
    }
}

/// Converts a `pulldown_cmark::TagEnd` into an [`MdTagEnd`], one variant to one variant.
#[verifier::external_body]
fn md_tag_end(tag: TagEnd) -> MdTagEnd {
    match tag {
        TagEnd::Paragraph => MdTagEnd::Paragraph,
        TagEnd::Heading(_) => MdTagEnd::Heading,
        TagEnd::CodeBlock => MdTagEnd::CodeBlock,
        TagEnd::Link => MdTagEnd::Link,
        TagEnd::Image => MdTagEnd::Image,
        other => md_container_tag_end(other),
    }
}

/// Converts the closing table-part and container tags of `pulldown_cmark`
/// into an [`MdTagEnd`], one variant to one variant; the rest become `Other`.
#[verifier::external_body]
fn md_container_tag_end(tag: TagEnd) -> MdTagEnd {
    match tag {
        TagEnd::TableCell => MdTagEnd::TableCell,
        TagEnd::TableRow => MdTagEnd::TableRow,
        TagEnd::TableHead => MdTagEnd::TableHead,
        TagEnd::Table => MdTagEnd::Table,
        TagEnd::BlockQuote(_) => MdTagEnd::BlockQuote,
        TagEnd::List(_) => MdTagEnd::List,
        TagEnd::Item => MdTagEnd::Item,
        TagEnd::FootnoteDefinition => MdTagEnd::FootnoteDefinition,
        _ => MdTagEnd::Other,
    }
}

/// Converts a `pulldown_cmark::HeadingLevel` into a [`HeadingTag`], one variant to one variant.
#[verifier::external_body]
fn md_heading(level: HeadingLevel) -> HeadingTag {
    match level {
        HeadingLevel::H1 => HeadingTag::H1,
        HeadingLevel::H2 => HeadingTag::H2,
        HeadingLevel::H3 => HeadingTag::H3,
        HeadingLevel::H4 => HeadingTag::H4,
        HeadingLevel::H5 => HeadingTag::H5,
        HeadingLevel::H6 => HeadingTag::H6,
    }
}

/// Converts the kind of a `pulldown_cmark` block quote into a [`QuoteKind`],
/// one variant to one variant; a plain quote (no callout) is `Regular`.
#[verifier::external_body]
fn md_quote_kind(kind: Option<BlockQuoteKind>) -> QuoteKind {
    match kind {
        None => QuoteKind::Regular,
        Some(BlockQuoteKind::Note) => QuoteKind::Note,
        Some(BlockQuoteKind::Tip) => QuoteKind::Tip,
        Some(BlockQuoteKind::Important) => QuoteKind::Important,
        Some(BlockQuoteKind::Warning) => QuoteKind::Warning,
        Some(BlockQuoteKind::Caution) => QuoteKind::Caution,
    }
}

/// Converts a `pulldown_cmark::Alignment` into the document's [`Alignment`],
/// one variant to one variant.
#[verifier::external_body]
fn map_alignment(alignment: MdAlignment) -> Alignment {
    match alignment {
        MdAlignment::Left => Alignment::Left,
        MdAlignment::Center => Alignment::Center,
        MdAlignment::Right => Alignment::Right,
        MdAlignment::None => Alignment::Unaligned,
    }
}

} // verus!
