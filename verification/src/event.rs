use pulldown_cmark::{Event, Parser, Tag, TagEnd};
use vstd::prelude::*;

verus! {

/// A structural event of a Markdown source, as the layout engine consumes
/// it. Whatever the engine has no use for, among it the starts of
/// paragraphs and of list items, is `Unsupported`.
#[derive(Clone, Debug, PartialEq, Eq)]
pub enum MarkdownEvent {
    StartHeading(i32),
    EndHeading,
    StartEmphasis,
    EndEmphasis,
    StartStrong,
    EndStrong,
    EndParagraph,
    EndListItem,
    Text(String),
    Code(String),
    SoftBreak,
    HardBreak,
    Unsupported,
}

/// What a [`MarkdownEvent`] stands for.
pub enum EventView {
    StartHeading(int),
    EndHeading,
    StartEmphasis,
    EndEmphasis,
    StartStrong,
    EndStrong,
    EndParagraph,
    EndListItem,
    Text(Seq<char>),
    Code(Seq<char>),
    SoftBreak,
    HardBreak,
    Unsupported,
}

impl View for MarkdownEvent {
    type V = EventView;

    open spec fn view(&self) -> EventView {
        match *self {
            MarkdownEvent::StartHeading(level) => EventView::StartHeading(level as int),
            MarkdownEvent::EndHeading => EventView::EndHeading,
            MarkdownEvent::StartEmphasis => EventView::StartEmphasis,
            MarkdownEvent::EndEmphasis => EventView::EndEmphasis,
            MarkdownEvent::StartStrong => EventView::StartStrong,
            MarkdownEvent::EndStrong => EventView::EndStrong,
            MarkdownEvent::EndParagraph => EventView::EndParagraph,
            MarkdownEvent::EndListItem => EventView::EndListItem,
            MarkdownEvent::Text(s) => EventView::Text(s@),
            MarkdownEvent::Code(s) => EventView::Code(s@),
            MarkdownEvent::SoftBreak => EventView::SoftBreak,
            MarkdownEvent::HardBreak => EventView::HardBreak,
            MarkdownEvent::Unsupported => EventView::Unsupported,
        }
    }
}

/// The view of each event of a stream.
pub open spec fn events_view(events: Seq<MarkdownEvent>) -> Seq<EventView> {
    events.map_values(|e: MarkdownEvent| e@)
}

/// The event stream that the CommonMark tokenizer, with no extension
/// switched on, yields for a source text.
pub uninterp spec fn markdown_events(content: Seq<char>) -> Seq<EventView>;

/// Runs `pulldown_cmark::Parser::new` over `content` and collects the events
/// that it yields, each one turned into a [`MarkdownEvent`] of the same
/// kind: a heading's start keeps its level as a number, text and code keep
/// their content. The stream depends on `content` alone, so it is named by
/// [`markdown_events`]; nothing more is claimed of it.
#[verifier::external_body]
pub(crate) fn tokenize(content: &str) -> (events: Vec<MarkdownEvent>)
    ensures
        events_view(events@) == markdown_events(content@),
{
    Parser::new(content).map(|event| match event {
        Event::Start(Tag::Heading { level, .. }) => MarkdownEvent::StartHeading(level as i32),
        Event::Start(Tag::Emphasis) => MarkdownEvent::StartEmphasis,
        Event::Start(Tag::Strong) => MarkdownEvent::StartStrong,
        Event::End(TagEnd::Heading(..)) => MarkdownEvent::EndHeading,
        Event::End(TagEnd::Emphasis) => MarkdownEvent::EndEmphasis,
        Event::End(TagEnd::Strong) => MarkdownEvent::EndStrong,
        Event::End(TagEnd::Paragraph) => MarkdownEvent::EndParagraph,
        Event::End(TagEnd::Item) => MarkdownEvent::EndListItem,
        Event::Text(text) => MarkdownEvent::Text(text.into_string()),
        Event::Code(text) => MarkdownEvent::Code(text.into_string()),
        Event::SoftBreak => MarkdownEvent::SoftBreak,
        Event::HardBreak => MarkdownEvent::HardBreak,
        _ => MarkdownEvent::Unsupported,
    }).collect()
}

/// The events of a Markdown source text, in order.
pub fn events_of(content: &str) -> (events: Vec<MarkdownEvent>)
    ensures
        events_view(events@) == markdown_events(content@),
{
    tokenize(content)
}

} // verus!
