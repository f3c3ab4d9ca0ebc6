//! The Markdown event stream, as pulldown-cmark produces it, in the library's own terms.
use pulldown_cmark::{Alignment, CodeBlockKind, Event, HeadingLevel, Options, Parser, Tag, TagEnd};
use vstd::prelude::*;
use vstd::string::StringSliceAdditionalSpecFns;

use crate::document::model::TableAlignment;

verus! {

/// A tag that opens an element.
#[derive(Debug)]
pub enum MdTag {
    Paragraph,
    Heading(u8),
    BlockQuote,
    /// `Some` info string for a fenced block, `None` for an indented one.
    CodeBlock(Option<String>),
    HtmlBlock,
    List(Option<u64>),
    Item,
    Table(Vec<TableAlignment>),
    TableHead,
    TableRow,
    TableCell,
    Emphasis,
    Strong,
    Strikethrough,
    Link { destination: String, title: String },
    Image { destination: String, title: String },
    Other,
}

/// A tag that closes an element.
#[derive(Debug, Clone, Copy, PartialEq, Eq, Structural)]
pub enum MdTagEnd {
    Paragraph,
    Heading,
    BlockQuote,
    CodeBlock,
    HtmlBlock,
    List,
    Item,
    Table,
    TableHead,
    TableRow,
    TableCell,
    Emphasis,
    Strong,
    Strikethrough,
    Link,
    Image,
    Other,
}

/// One event of the stream.
#[derive(Debug)]
pub enum MdEvent {
    Start(MdTag),
    End(MdTagEnd),
    Text(String),
    Code(String),
    Html(String),
    InlineHtml(String),
    SoftBreak,
    HardBreak,
    Rule,
    TaskListMarker(bool),
    Other,
}

/// An event with the byte range of the source it stands for.
#[derive(Debug)]
pub struct SourceEvent {
    pub event: MdEvent,
    pub start: usize,
    pub end: usize,
}

/// pulldown-cmark's `ENABLE_TABLES` bit.
pub const ENABLE_TABLES: u32 = 2;

/// pulldown-cmark's `ENABLE_STRIKETHROUGH` bit.
pub const ENABLE_STRIKETHROUGH: u32 = 8;

/// pulldown-cmark's `ENABLE_TASKLISTS` bit.
pub const ENABLE_TASKLISTS: u32 = 16;

#[verifier::external_type_specification]
#[verifier::external_body]
pub struct ExEvent<'a>(Event<'a>);

#[verifier::external_type_specification]
#[verifier::external_body]
pub struct ExTag<'a>(Tag<'a>);

#[verifier::external_type_specification]
#[verifier::external_body]
pub struct ExTagEnd(TagEnd);

#[verifier::external_type_specification]
#[verifier::external_body]
pub struct ExHeadingLevel(HeadingLevel);

#[verifier::external_type_specification]
#[verifier::external_body]
pub struct ExAlignment(Alignment);

#[verifier::external_type_specification]
#[verifier::external_body]
pub struct ExCodeBlockKind<'a>(CodeBlockKind<'a>);

/// The events, with their source ranges, that pulldown-cmark's offset iterator yields for a
/// source text and a set of option bits.
pub uninterp spec fn cmark_source_events(source: Seq<char>, options: u32) -> Seq<SourceEvent>;

/// Runs pulldown-cmark's `Parser::new_ext(..).into_offset_iter()` over `source`. The events
/// are named `cmark_source_events`; the crate documents each range as the part of the source
/// that the event stands for, so it lies within the source's bytes.
#[verifier::external_body]
pub(crate) fn source_events(source: &str, options: u32) -> (events: Vec<SourceEvent>)
    ensures
        events@ == cmark_source_events(source@, options),
        forall|i: int|
            0 <= i < events@.len() ==> #[trigger] events@[i].start <= events@[i].end
                <= source.spec_bytes().len(),
{
    Parser::new_ext(source, Options::from_bits_truncate(options))
        .into_offset_iter()
        .map(|(event, range)| SourceEvent { event: md_event(event), start: range.start, end: range.end })
        .collect()
}

/// Converts a pulldown-cmark `Event` variant for variant.
#[verifier::external_body]
fn md_event(event: Event<'_>) -> MdEvent {
    match event {
        Event::Start(tag) => MdEvent::Start(md_tag(tag)),
        Event::End(tag) => MdEvent::End(md_tag_end(tag)),
        Event::Text(s) => MdEvent::Text(s.into_string()),
        Event::Code(s) => MdEvent::Code(s.into_string()),
        Event::Html(s) => MdEvent::Html(s.into_string()),
        Event::InlineHtml(s) => MdEvent::InlineHtml(s.into_string()),
        Event::SoftBreak => MdEvent::SoftBreak,
        Event::HardBreak => MdEvent::HardBreak,
        Event::Rule => MdEvent::Rule,
        Event::TaskListMarker(checked) => MdEvent::TaskListMarker(checked),
        _ => MdEvent::Other,
    }
}

/// Converts the block-level variants of a pulldown-cmark `Tag`.
#[verifier::external_body]
fn md_tag(tag: Tag<'_>) -> MdTag {
    match tag {
        Tag::Paragraph => MdTag::Paragraph,
        Tag::Heading { level, .. } => MdTag::Heading(heading_level(level)),
        Tag::BlockQuote(_) => MdTag::BlockQuote,
        Tag::CodeBlock(kind) => MdTag::CodeBlock(code_block_info(kind)),
        Tag::HtmlBlock => MdTag::HtmlBlock,
        Tag::List(start) => MdTag::List(start),
        Tag::Item => MdTag::Item,
        Tag::Table(columns) => MdTag::Table(columns.into_iter().map(table_alignment).collect()),
        Tag::TableHead => MdTag::TableHead,
        Tag::TableRow => MdTag::TableRow,
        Tag::TableCell => MdTag::TableCell,
        other => md_inline_tag(other),
    }
}

/// Converts the span-level variants of a pulldown-cmark `Tag`.
#[verifier::external_body]
fn md_inline_tag(tag: Tag<'_>) -> MdTag {
    match tag {
        Tag::Emphasis => MdTag::Emphasis,
        Tag::Strong => MdTag::Strong,
        Tag::Strikethrough => MdTag::Strikethrough,
        Tag::Link { dest_url, title, .. } =>
            MdTag::Link { destination: dest_url.into_string(), title: title.into_string() },
        Tag::Image { dest_url, title, .. } =>
            MdTag::Image { destination: dest_url.into_string(), title: title.into_string() },
        _ => MdTag::Other,
    }
}

/// Converts the block-level variants of a pulldown-cmark `TagEnd`.
#[verifier::external_body]
fn md_tag_end(tag: TagEnd) -> MdTagEnd {
    match tag {
        TagEnd::Paragraph => MdTagEnd::Paragraph,
        TagEnd::Heading(_) => MdTagEnd::Heading,
        TagEnd::BlockQuote(_) => MdTagEnd::BlockQuote,
        TagEnd::CodeBlock => MdTagEnd::CodeBlock,
        TagEnd::HtmlBlock => MdTagEnd::HtmlBlock,
        TagEnd::List(_) => MdTagEnd::List,
        TagEnd::Item => MdTagEnd::Item,
        TagEnd::Table => MdTagEnd::Table,
        TagEnd::TableHead => MdTagEnd::TableHead,
        TagEnd::TableRow => MdTagEnd::TableRow,
        TagEnd::TableCell => MdTagEnd::TableCell,
        other => md_inline_tag_end(other),
    }
}

/// Converts the span-level variants of a pulldown-cmark `TagEnd`.
#[verifier::external_body]
fn md_inline_tag_end(tag: TagEnd) -> MdTagEnd {
    match tag {
        TagEnd::Emphasis => MdTagEnd::Emphasis,
        TagEnd::Strong => MdTagEnd::Strong,
        TagEnd::Strikethrough => MdTagEnd::Strikethrough,
        TagEnd::Link => MdTagEnd::Link,
        TagEnd::Image => MdTagEnd::Image,
        _ => MdTagEnd::Other,
    }
}

/// Converts a pulldown-cmark `HeadingLevel` to its number, 1 to 6.
#[verifier::external_body]
fn heading_level(level: HeadingLevel) -> u8 {
    match level {
        HeadingLevel::H1 => 1,
        HeadingLevel::H2 => 2,
        HeadingLevel::H3 => 3,
        HeadingLevel::H4 => 4,
        HeadingLevel::H5 => 5,
        HeadingLevel::H6 => 6,
    }
}

/// Converts a pulldown-cmark column `Alignment`.
#[verifier::external_body]
fn table_alignment(alignment: Alignment) -> TableAlignment {
    match alignment {
        Alignment::None => TableAlignment::Unaligned,
        Alignment::Left => TableAlignment::Left,
        Alignment::Center => TableAlignment::Center,
        Alignment::Right => TableAlignment::Right,
    }
}

/// Converts a pulldown-cmark `CodeBlockKind`: the info string of a fenced block.
#[verifier::external_body]
fn code_block_info(kind: CodeBlockKind<'_>) -> Option<String> {
    match kind {
        CodeBlockKind::Fenced(info) => Some(info.into_string()),
        CodeBlockKind::Indented => None,
    }
}

} // verus!
