//! The Markdown events the renderer consumes, and the parser that produces
//! them.
//!
//! Parsing is pulldown-cmark's; its events are carried over into the
//! library's own types, which hold plain values only.

use vstd::prelude::*;
use pulldown_cmark::{Alignment, CodeBlockKind, Event, HeadingLevel, Options, Parser, Tag, TagEnd};

verus! {

/// The alignment of a table column.
#[derive(Clone, Copy, PartialEq, Eq, Structural, Debug)]
pub enum MdAlignment {
    /// No alignment given in the delimiter row.
    Unset,
    Left,
    Center,
    Right,
}

/// The level of a heading, from 1 to 6.
#[derive(Clone, Copy, PartialEq, Eq, Structural, Debug)]
pub enum MdHeadingLevel {
    H1,
    H2,
    H3,
    H4,
    H5,
    H6,
}

/// The number of a heading level.
pub open spec fn spec_heading_level(level: MdHeadingLevel) -> u32 {
    match level {
        MdHeadingLevel::H1 => 1,
        MdHeadingLevel::H2 => 2,
        MdHeadingLevel::H3 => 3,
        MdHeadingLevel::H4 => 4,
        MdHeadingLevel::H5 => 5,
        MdHeadingLevel::H6 => 6,
    }
}

/// The number of a heading level: 1 for `H1` through 6 for `H6`.
#[verifier::when_used_as_spec(spec_heading_level)]
pub fn heading_level(level: MdHeadingLevel) -> (res: u32)
    ensures
        res == spec_heading_level(level),
        1 <= res <= 6,
{
    match level {
        MdHeadingLevel::H1 => 1,
        MdHeadingLevel::H2 => 2,
        MdHeadingLevel::H3 => 3,
        MdHeadingLevel::H4 => 4,
        MdHeadingLevel::H5 => 5,
        MdHeadingLevel::H6 => 6,
    }
}

/// The element that an `MdEvent::Start` opens.
#[derive(Debug)]
pub enum MdTag {
    Paragraph,
    Heading(MdHeadingLevel),
    BlockQuote,
    /// A code block; `Some(lang)` when fenced, with the info string as the
    /// language (possibly empty), `None` when indented.
    CodeBlock(Option<String>),
    /// A list; `Some(first)` for a numbered list starting at `first`.
    List(Option<u64>),
    Item,
    /// A table with the alignment of each column.
    Table(Vec<MdAlignment>),
    TableHead,
    TableRow,
    TableCell,
    Emphasis,
    Strong,
    /// A link to the given destination.
    Link(String),
    /// Any element the renderer gives no treatment of its own (images,
    /// strike-through, HTML blocks, footnotes and the like).
    Other,
}

/// The element that an `MdEvent::End` closes.
#[derive(Clone, Copy, PartialEq, Eq, Structural, Debug)]
pub enum MdTagEnd {
    Paragraph,
    Heading,
    BlockQuote,
    CodeBlock,
    List,
    Item,
    Table,
    TableHead,
    TableRow,
    TableCell,
    Emphasis,
    Strong,
    Link,
    Other,
}

/// One event of a parsed Markdown document.
#[derive(Debug)]
pub enum MdEvent {
    Start(MdTag),
    End(MdTagEnd),
    Text(String),
    /// Inline code.
    Code(String),
    /// A line of an HTML block.
    Html(String),
    /// Inline HTML.
    InlineHtml(String),
    SoftBreak,
    HardBreak,
    /// A horizontal rule.
    Rule,
    /// Math, footnote references, task list markers.
    Other,
}

#[verifier::external_type_specification]
#[verifier::external_body]
pub struct ExParserEvent<'a>(Event<'a>);

#[verifier::external_type_specification]
#[verifier::external_body]
pub struct ExParserTag<'a>(Tag<'a>);

#[verifier::external_type_specification]
#[verifier::external_body]
pub struct ExParserTagEnd(TagEnd);

#[verifier::external_type_specification]
#[verifier::external_body]
pub struct ExParserAlignment(Alignment);

#[verifier::external_type_specification]
#[verifier::external_body]
pub struct ExParserHeadingLevel(HeadingLevel);

/// pulldown-cmark's option bits: tables (`1 << 1`) and strike-through
/// (`1 << 3`).
pub const PARSE_OPTIONS: u32 = 10;

/// The events pulldown-cmark's `Parser` yields for `content` under the option
/// bits `options`, carried over into `MdEvent`s.
pub uninterp spec fn markdown_events(content: Seq<char>, options: u32) -> Seq<MdEvent>;

/// Runs pulldown-cmark's `Parser::new_ext` over `content` with the options
/// whose bits are `options`, and collects its events, each carried over into
/// an `MdEvent`. The parse depends on its two arguments only; the contract
/// names its result.
#[verifier::external_body]
pub(crate) fn parse_markdown(content: &str, options: u32) -> (res: Vec<MdEvent>)
    ensures
        res@ == markdown_events(content@, options),
{
    Parser::new_ext(content, Options::from_bits_truncate(options)).map(md_event).collect()
}

/// Carries one pulldown-cmark event over; used by `parse_markdown` only.
#[verifier::external_body]
fn md_event(event: Event<'_>) -> MdEvent {
    match event {
        Event::Start(tag) => MdEvent::Start(md_tag(tag)),
        Event::End(tag) => MdEvent::End(md_tag_end(tag)),
        Event::Text(text) => MdEvent::Text(text.to_string()),
        Event::Code(text) => MdEvent::Code(text.to_string()),
        Event::Html(text) => MdEvent::Html(text.to_string()),
        Event::InlineHtml(text) => MdEvent::InlineHtml(text.to_string()),
        Event::SoftBreak => MdEvent::SoftBreak,
        Event::HardBreak => MdEvent::HardBreak,
        Event::Rule => MdEvent::Rule,
        _ => MdEvent::Other,
    }
}

/// Carries a pulldown-cmark start tag over; used by `md_event` only.
#[verifier::external_body]
fn md_tag(tag: Tag<'_>) -> MdTag {
    match tag {
        Tag::Heading { level, .. } => MdTag::Heading(md_heading_level(level)),
        Tag::CodeBlock(CodeBlockKind::Fenced(lang)) => MdTag::CodeBlock(Some(lang.to_string())),
        Tag::CodeBlock(CodeBlockKind::Indented) => MdTag::CodeBlock(None),
        Tag::List(start) => MdTag::List(start),
        Tag::Table(columns) => MdTag::Table(columns.into_iter().map(md_alignment).collect()),
        Tag::Link { dest_url, .. } => MdTag::Link(dest_url.to_string()),
        other => md_plain_tag(other),
    }
}

/// Carries a pulldown-cmark start tag without payload over; used by `md_tag`
/// only.
#[verifier::external_body]
fn md_plain_tag(tag: Tag<'_>) -> MdTag {
    match tag {
        Tag::Paragraph => MdTag::Paragraph,
        Tag::BlockQuote(_) => MdTag::BlockQuote,
        Tag::Item => MdTag::Item,
        Tag::TableHead => MdTag::TableHead,
        Tag::TableRow => MdTag::TableRow,
        Tag::TableCell => MdTag::TableCell,
        Tag::Emphasis => MdTag::Emphasis,
        Tag::Strong => MdTag::Strong,
        _ => MdTag::Other,
    }
}

/// Carries a pulldown-cmark end tag over; used by `md_event` only.
#[verifier::external_body]
fn md_tag_end(tag: TagEnd) -> MdTagEnd {
    match tag {
        TagEnd::Paragraph => MdTagEnd::Paragraph,
        TagEnd::Heading(_) => MdTagEnd::Heading,
        TagEnd::BlockQuote(_) => MdTagEnd::BlockQuote,
        TagEnd::CodeBlock => MdTagEnd::CodeBlock,
        TagEnd::List(_) => MdTagEnd::List,
        TagEnd::Item => MdTagEnd::Item,
        other => md_table_or_span_end(other),
    }
}

/// Carries the remaining pulldown-cmark end tags over; used by `md_tag_end`
/// only.
#[verifier::external_body]
fn md_table_or_span_end(tag: TagEnd) -> MdTagEnd {
    match tag {
        TagEnd::Table => MdTagEnd::Table,
        TagEnd::TableHead => MdTagEnd::TableHead,
        TagEnd::TableRow => MdTagEnd::TableRow,
        TagEnd::TableCell => MdTagEnd::TableCell,
        TagEnd::Emphasis => MdTagEnd::Emphasis,
        TagEnd::Strong => MdTagEnd::Strong,
        TagEnd::Link => MdTagEnd::Link,
        _ => MdTagEnd::Other,
    }
}

/// Carries a pulldown-cmark heading level over; used by `md_tag` only.
#[verifier::external_body]
fn md_heading_level(level: HeadingLevel) -> MdHeadingLevel {
    match level {
        HeadingLevel::H1 => MdHeadingLevel::H1,
        HeadingLevel::H2 => MdHeadingLevel::H2,
        HeadingLevel::H3 => MdHeadingLevel::H3,
        HeadingLevel::H4 => MdHeadingLevel::H4,
        HeadingLevel::H5 => MdHeadingLevel::H5,
        HeadingLevel::H6 => MdHeadingLevel::H6,
    }
}

/// Carries a pulldown-cmark column alignment over; used by `md_tag` only.
#[verifier::external_body]
fn md_alignment(alignment: Alignment) -> MdAlignment {
    match alignment {
        Alignment::None => MdAlignment::Unset,
        Alignment::Left => MdAlignment::Left,
        Alignment::Center => MdAlignment::Center,
        Alignment::Right => MdAlignment::Right,
    }
}

} // verus!
