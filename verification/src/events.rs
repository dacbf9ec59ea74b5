//! The Markdown event stream, as the library reads it.
//!
//! Parsing Markdown is pulldown-cmark's work. The library sees its output as a
//! sequence of [`MdEvent`]s: plain values that carry what the document builder reads.

use vstd::prelude::*;
use pulldown_cmark::{CodeBlockKind, Event, Tag, TagEnd};

verus! {

/// pulldown-cmark's parser event.
#[verifier::external_type_specification]
#[verifier::external_body]
pub struct ExCmarkEvent<'a>(pulldown_cmark::Event<'a>);

/// pulldown-cmark's start tag.
#[verifier::external_type_specification]
#[verifier::external_body]
pub struct ExCmarkTag<'a>(pulldown_cmark::Tag<'a>);

/// pulldown-cmark's end tag.
#[verifier::external_type_specification]
#[verifier::external_body]
pub struct ExCmarkTagEnd(pulldown_cmark::TagEnd);

/// pulldown-cmark's heading level.
#[verifier::external_type_specification]
#[verifier::external_body]
pub struct ExCmarkHeadingLevel(pulldown_cmark::HeadingLevel);

/// A heading level, `#` to `######`.
#[derive(Debug, Clone, Copy, PartialEq, Eq, Structural)]
pub enum MdHeadingLevel {
    H1,
    H2,
    H3,
    H4,
    H5,
    H6,
}

/// The number of a heading level.
pub open spec fn level_number(level: MdHeadingLevel) -> u8 {
    match level {
        MdHeadingLevel::H1 => 1,
        MdHeadingLevel::H2 => 2,
        MdHeadingLevel::H3 => 3,
        MdHeadingLevel::H4 => 4,
        MdHeadingLevel::H5 => 5,
        MdHeadingLevel::H6 => 6,
    }
}

/// The number of a heading level: 1 for `#`, up to 6 for `######`.
pub fn heading_level_to_u8(level: MdHeadingLevel) -> (r: u8)
    ensures
        r == level_number(level),
        1 <= r <= 6,
{
    match level {
        MdHeadingLevel::H1 => 1,
        MdHeadingLevel::H2 => 2,
        MdHeadingLevel::H3 => 3,
        MdHeadingLevel::H4 => 4,
        MdHeadingLevel::H5 => 5,
        MdHeadingLevel::H6 => 6,
    }
}

/// The tag of a start event.
#[derive(Debug)]
pub enum MdTag {
    Heading(MdHeadingLevel),
    Paragraph,
    Emphasis,
    Strong,
    Strikethrough,
    /// A code block, with the language of a fenced block.
    CodeBlock(Option<String>),
    BlockQuote,
    /// A list, with the number of its first item if it is ordered.
    List(Option<u64>),
    Item,
    Link(String),
    Image { url: String, title: String },
    /// Any other tag.
    Other,
}

/// The tag of an end event.
#[derive(Debug, Clone, Copy, PartialEq, Eq, Structural)]
pub enum MdTagEnd {
    Heading,
    Paragraph,
    Emphasis,
    Strong,
    Strikethrough,
    CodeBlock,
    BlockQuote,
    List,
    Item,
    Link,
    /// Any other tag.
    Other,
}

/// One event of a parsed Markdown text.
#[derive(Debug)]
pub enum MdEvent {
    Start(MdTag),
    End(MdTagEnd),
    Text(String),
    Code(String),
    SoftBreak,
    HardBreak,
    FootnoteReference(String),
    /// Any other event (HTML, rules, task markers).
    Other,
}

/// The end tag that closes a start tag.
pub open spec fn closing(t: MdTag) -> MdTagEnd {
    match t {
        MdTag::Heading(_) => MdTagEnd::Heading,
        MdTag::Paragraph => MdTagEnd::Paragraph,
        MdTag::Emphasis => MdTagEnd::Emphasis,
        MdTag::Strong => MdTagEnd::Strong,
        MdTag::Strikethrough => MdTagEnd::Strikethrough,
        MdTag::CodeBlock(_) => MdTagEnd::CodeBlock,
        MdTag::BlockQuote => MdTagEnd::BlockQuote,
        MdTag::List(_) => MdTagEnd::List,
        MdTag::Item => MdTagEnd::Item,
        MdTag::Link(_) => MdTagEnd::Link,
        MdTag::Image { .. } => MdTagEnd::Other,
        MdTag::Other => MdTagEnd::Other,
    }
}

/// The tags left open after the events, innermost last; `None` once an end event does
/// not close the innermost open tag, or a list item starts other than directly in a list.
pub open spec fn open_tags(events: Seq<MdEvent>) -> Option<Seq<MdTagEnd>>
    decreases events.len(),
{
    if events.len() == 0 {
        Some(Seq::empty())
    } else {
        match open_tags(events.drop_last()) {
            None => None,
            Some(open) => match events.last() {
                MdEvent::Start(MdTag::Item) => if open.len() > 0 && open.last() == MdTagEnd::List {
                    Some(open.push(MdTagEnd::Item))
                } else {
                    None
                },
                MdEvent::Start(t) => Some(open.push(closing(t))),
                MdEvent::End(e) => if open.len() > 0 && open.last() == e {
                    Some(open.drop_last())
                } else {
                    None
                },
                _ => Some(open),
            },
        }
    }
}

/// Every start event is closed by its end event, in nesting order, and list items lie
/// directly in lists.
pub open spec fn well_nested(events: Seq<MdEvent>) -> bool {
    open_tags(events) == Some(Seq::<MdTagEnd>::empty())
}

/// The events that pulldown-cmark's `Parser::new` yields for a text (CommonMark, no extensions).
pub uninterp spec fn spec_markdown_events(text: Seq<char>) -> Seq<MdEvent>;

/// The events that pulldown-cmark's `Parser::new_ext` yields for a text with
/// strikethrough and footnotes enabled.
pub uninterp spec fn spec_markdown_events_ext(text: Seq<char>) -> Seq<MdEvent>;

#[verifier::external_body]
fn from_cmark_level(level: pulldown_cmark::HeadingLevel) -> MdHeadingLevel {
    match level {
        pulldown_cmark::HeadingLevel::H1 => MdHeadingLevel::H1,
        pulldown_cmark::HeadingLevel::H2 => MdHeadingLevel::H2,
        pulldown_cmark::HeadingLevel::H3 => MdHeadingLevel::H3,
        pulldown_cmark::HeadingLevel::H4 => MdHeadingLevel::H4,
        pulldown_cmark::HeadingLevel::H5 => MdHeadingLevel::H5,
        pulldown_cmark::HeadingLevel::H6 => MdHeadingLevel::H6,
    }
}

#[verifier::external_body]
fn from_cmark_tag(tag: pulldown_cmark::Tag<'_>) -> MdTag {
    match tag {
        Tag::Heading { level, .. } => MdTag::Heading(from_cmark_level(level)),
        Tag::Paragraph => MdTag::Paragraph,
        Tag::Emphasis => MdTag::Emphasis,
        Tag::Strong => MdTag::Strong,
        Tag::Strikethrough => MdTag::Strikethrough,
        Tag::CodeBlock(CodeBlockKind::Indented) => MdTag::CodeBlock(None),
        Tag::CodeBlock(CodeBlockKind::Fenced(lang)) => MdTag::CodeBlock(Some(lang.into_string())),
        Tag::BlockQuote => MdTag::BlockQuote,
        Tag::List(start) => MdTag::List(start),
        Tag::Item => MdTag::Item,
        Tag::Link { dest_url, .. } => MdTag::Link(dest_url.into_string()),
        Tag::Image { dest_url, title, .. } => MdTag::Image { url: dest_url.into_string(), title: title.into_string() },
        _ => MdTag::Other,
    }
}

#[verifier::external_body]
fn from_cmark_tag_end(tag: pulldown_cmark::TagEnd) -> MdTagEnd {
    match tag {
        TagEnd::Heading(_) => MdTagEnd::Heading,
        TagEnd::Paragraph => MdTagEnd::Paragraph,
        TagEnd::Emphasis => MdTagEnd::Emphasis,
        TagEnd::Strong => MdTagEnd::Strong,
        TagEnd::Strikethrough => MdTagEnd::Strikethrough,
        TagEnd::CodeBlock => MdTagEnd::CodeBlock,
        TagEnd::BlockQuote => MdTagEnd::BlockQuote,
        TagEnd::List(_) => MdTagEnd::List,
        TagEnd::Item => MdTagEnd::Item,
        TagEnd::Link => MdTagEnd::Link,
        _ => MdTagEnd::Other,
    }
}

#[verifier::external_body]
fn from_cmark_event(event: pulldown_cmark::Event<'_>) -> MdEvent {
    match event {
        Event::Start(tag) => MdEvent::Start(from_cmark_tag(tag)),
        Event::End(tag) => MdEvent::End(from_cmark_tag_end(tag)),
        Event::Text(t) => MdEvent::Text(t.into_string()),
        Event::Code(t) => MdEvent::Code(t.into_string()),
        Event::SoftBreak => MdEvent::SoftBreak,
        Event::HardBreak => MdEvent::HardBreak,
        Event::FootnoteReference(name) => MdEvent::FootnoteReference(name.into_string()),
        _ => MdEvent::Other,
    }
}

/// Parses `text` with `pulldown_cmark::Parser::new` and returns its events.
///
/// Trusted: the result is the named sequence [`spec_markdown_events`] of the text.
#[verifier::external_body]
pub(crate) fn markdown_events(text: &str) -> (events: Vec<MdEvent>)
    ensures
        events@ == spec_markdown_events(text@),
{
    pulldown_cmark::Parser::new(text).map(from_cmark_event).collect()
}

/// Parses `text` with `pulldown_cmark::Parser::new_ext`, strikethrough and footnotes
/// enabled, and returns its events.
///
/// Trusted: the result is the named sequence [`spec_markdown_events_ext`] of the text,
/// and it is [`well_nested`]: pulldown-cmark documents that its start and end events are
/// balanced, and its parse tree holds list items only as children of lists.
#[verifier::external_body]
pub(crate) fn markdown_events_ext(text: &str) -> (events: Vec<MdEvent>)
    ensures
        events@ == spec_markdown_events_ext(text@),
        well_nested(events@),
{
    let opts = pulldown_cmark::Options::ENABLE_STRIKETHROUGH | pulldown_cmark::Options::ENABLE_FOOTNOTES;
    pulldown_cmark::Parser::new_ext(text, opts).map(from_cmark_event).collect()
}

} // verus!
