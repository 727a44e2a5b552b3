//! Markdown events as the terminal renderer reads them, and their reading
//! from `pulldown-cmark`'s parser.

use vstd::prelude::*;

use pulldown_cmark::{CodeBlockKind, Event, Options, Parser, Tag, TagEnd};

verus! {

/// An element that opens, with what the renderer reads of it.
#[derive(Debug, PartialEq, Eq)]
pub enum MdTag {
    /// A heading of the given level (1 to 6).
    Heading(u32),
    Paragraph,
    Emphasis,
    Strong,
    Strikethrough,
    /// A link to the given destination.
    Link(String),
    /// An image at the given destination.
    Image(String),
    /// A list; an ordered one holds the number of its first item.
    List(Option<u64>),
    Item,
    /// A code block with its language (empty for an indented block).
    CodeBlock(String),
    /// A table with the given number of aligned columns.
    Table(usize),
    TableHead,
    TableRow,
    TableCell,
    BlockQuote,
    /// Any other element, which the renderer passes over.
    Other,
}

/// An element that closes.
#[derive(Clone, Copy, Debug, PartialEq, Eq, Structural)]
pub enum MdTagEnd {
    Heading,
    Paragraph,
    Emphasis,
    Strong,
    Strikethrough,
    Link,
    Image,
    List,
    Item,
    CodeBlock,
    Table,
    TableHead,
    TableRow,
    TableCell,
    BlockQuote,
    Other,
}

/// One event of a parsed markdown document.
#[derive(Debug, PartialEq, Eq)]
pub enum MdEvent {
    Start(MdTag),
    End(MdTagEnd),
    Text(String),
    /// Inline code.
    Code(String),
    /// A soft or hard line break.
    Break,
    /// A horizontal rule.
    Rule,
    /// A task-list checkbox, checked or not.
    TaskListMarker(bool),
    /// A block of HTML.
    Html(String),
    /// Inline HTML.
    InlineHtml(String),
    /// Any other event, which the renderer passes over.
    Other,
}

#[verifier::external_type_specification]
#[verifier::external_body]
pub struct ExParsedEvent<'a>(pulldown_cmark::Event<'a>);

/// Tells apart the `Start` events of `pulldown_cmark` whose tag carries
/// what the renderer reads, and gives that tag; `None` for every other
/// event.
#[verifier::external_body]
fn start_with_data(e: &Event) -> Option<MdTag> {
    match e {
        Event::Start(Tag::Heading { level, .. }) => Some(MdTag::Heading(*level as u32)),
        Event::Start(Tag::List(first)) => Some(MdTag::List(*first)),
        Event::Start(Tag::Table(aligns)) => Some(MdTag::Table(aligns.len())),
        Event::Start(Tag::CodeBlock(CodeBlockKind::Fenced(info))) => Some(MdTag::CodeBlock(info.to_string())),
        Event::Start(Tag::CodeBlock(CodeBlockKind::Indented)) => Some(MdTag::CodeBlock(String::new())),
        _ => None,
    }
}

/// Tells apart the `Start` events of `pulldown_cmark` for links, images and
/// block quotes, and gives their tag; `None` for every other event.
#[verifier::external_body]
fn start_with_url(e: &Event) -> Option<MdTag> {
    match e {
        Event::Start(Tag::Link { dest_url, .. }) => Some(MdTag::Link(dest_url.to_string())),
        Event::Start(Tag::Image { dest_url, .. }) => Some(MdTag::Image(dest_url.to_string())),
        Event::Start(Tag::BlockQuote(_)) => Some(MdTag::BlockQuote),
        _ => None,
    }
}

/// Tells apart the `Start` events of `pulldown_cmark` for paragraphs, span
/// styles and list items, and gives their tag; `None` for every other
/// event.
#[verifier::external_body]
fn start_plain(e: &Event) -> Option<MdTag> {
    match e {
        Event::Start(Tag::Paragraph) => Some(MdTag::Paragraph),
        Event::Start(Tag::Emphasis) => Some(MdTag::Emphasis),
        Event::Start(Tag::Strong) => Some(MdTag::Strong),
        Event::Start(Tag::Strikethrough) => Some(MdTag::Strikethrough),
        Event::Start(Tag::Item) => Some(MdTag::Item),
        _ => None,
    }
}

/// Tells apart the remaining `Start` events of `pulldown_cmark`: the parts
/// of a table, and any other element as `Other`; `None` for every event
/// that is not a `Start`.
#[verifier::external_body]
fn start_table_part(e: &Event) -> Option<MdTag> {
    match e {
        Event::Start(Tag::TableHead) => Some(MdTag::TableHead),
        Event::Start(Tag::TableRow) => Some(MdTag::TableRow),
        Event::Start(Tag::TableCell) => Some(MdTag::TableCell),
        Event::Start(_) => Some(MdTag::Other),
        _ => None,
    }
}

/// Tells apart the `End` events of `pulldown_cmark` for block elements,
/// and gives their tag; `None` for every other event.
#[verifier::external_body]
fn end_of_block(e: &Event) -> Option<MdTagEnd> {
    match e {
        Event::End(TagEnd::Heading(_)) => Some(MdTagEnd::Heading),
        Event::End(TagEnd::Paragraph) => Some(MdTagEnd::Paragraph),
        Event::End(TagEnd::List(_)) => Some(MdTagEnd::List),
        Event::End(TagEnd::Item) => Some(MdTagEnd::Item),
        Event::End(TagEnd::CodeBlock) => Some(MdTagEnd::CodeBlock),
        Event::End(TagEnd::BlockQuote(_)) => Some(MdTagEnd::BlockQuote),
        _ => None,
    }
}

/// Tells apart the `End` events of `pulldown_cmark` for tables and their
/// parts, and gives their tag; `None` for every other event.
#[verifier::external_body]
fn end_of_table(e: &Event) -> Option<MdTagEnd> {
    match e {
        Event::End(TagEnd::Table) => Some(MdTagEnd::Table),
        Event::End(TagEnd::TableHead) => Some(MdTagEnd::TableHead),
        Event::End(TagEnd::TableRow) => Some(MdTagEnd::TableRow),
        Event::End(TagEnd::TableCell) => Some(MdTagEnd::TableCell),
        _ => None,
    }
}

/// Tells apart the remaining `End` events of `pulldown_cmark`: the span
/// elements, and any other element as `Other`; `None` for every event that
/// is not an `End`.
#[verifier::external_body]
fn end_of_span(e: &Event) -> Option<MdTagEnd> {
    match e {
        Event::End(TagEnd::Emphasis) => Some(MdTagEnd::Emphasis),
        Event::End(TagEnd::Strong) => Some(MdTagEnd::Strong),
        Event::End(TagEnd::Strikethrough) => Some(MdTagEnd::Strikethrough),
        Event::End(TagEnd::Link) => Some(MdTagEnd::Link),
        Event::End(TagEnd::Image) => Some(MdTagEnd::Image),
        Event::End(_) => Some(MdTagEnd::Other),
        _ => None,
    }
}

/// Tells apart the `pulldown_cmark` events that are not `Start` or `End`:
/// text, inline code, line breaks, rules, task markers and HTML; every
/// other event is `Other`.
#[verifier::external_body]
fn inline_event(e: &Event) -> MdEvent {
    match e {
        Event::Text(t) => MdEvent::Text(t.to_string()),
        Event::Code(t) => MdEvent::Code(t.to_string()),
        Event::SoftBreak | Event::HardBreak => MdEvent::Break,
        Event::Rule => MdEvent::Rule,
        Event::TaskListMarker(checked) => MdEvent::TaskListMarker(*checked),
        Event::Html(h) => MdEvent::Html(h.to_string()),
        Event::InlineHtml(h) => MdEvent::InlineHtml(h.to_string()),
        _ => MdEvent::Other,
    }
}

/// The renderer's reading of one `pulldown_cmark` event: the first of the
/// readings above that recognises it. Nothing is stated of the result: the
/// event is a value Verus cannot look into, and the readings promise nothing
/// of it; what the parser's events read as is named by [`markdown_parse`].
fn event_from(e: &Event) -> MdEvent {
    if let Some(t) = start_with_data(e) {
        MdEvent::Start(t)
    } else if let Some(t) = start_with_url(e) {
        MdEvent::Start(t)
    } else if let Some(t) = start_plain(e) {
        MdEvent::Start(t)
    } else if let Some(t) = start_table_part(e) {
        MdEvent::Start(t)
    } else if let Some(t) = end_of_block(e) {
        MdEvent::End(t)
    } else if let Some(t) = end_of_table(e) {
        MdEvent::End(t)
    } else if let Some(t) = end_of_span(e) {
        MdEvent::End(t)
    } else {
        inline_event(e)
    }
}

/// The events `pulldown_cmark` produces for `text`, with every extension
/// enabled, in order and as the renderer reads them (see [`MdEvent`]).
pub uninterp spec fn markdown_parse(text: Seq<char>) -> Seq<MdEvent>;

/// `pulldown_cmark::Parser::new_ext(text, Options::all())`, each event read
/// by [`event_from`]. Claimed: the parser's events, and so their reading, are
/// a function of the text alone.
#[verifier::external_body]
pub(crate) fn markdown_events(text: &str) -> (r: Vec<MdEvent>)
    ensures
        r@ == markdown_parse(text@),
{
    Parser::new_ext(text, Options::all()).map(|e| event_from(&e)).collect()
}

} // verus!
