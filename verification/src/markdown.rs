use crate::document::{block_wf, blocks_view, document_wf, Block, BlockView, Document};
use crate::event::{events_view, markdown_events, tokenize, EventView, MarkdownEvent};
use crate::segment::{
    flatten, flatten_segments, lemma_flatten_segments_keeps_text, lemma_flatten_segments_shown,
    push_text_segments, segments_text, segments_view, text_segments, words_text, Segment,
    SegmentView,
};
use crate::text::solid_chars;
use crate::style::{heading_size, heading_size_of, InlineStyle, BODY_SIZE};
use crate::wrap::{
    lemma_texts_only_keeps_text, lemma_wrap_keeps_words, lemma_wrap_lines_wf, texts_only, wrap,
    wrap_lines,
};
use vstd::prelude::*;
use vstd::string::*;

verus! {

/// What a [`MarkdownRenderer`] stands for: the blocks it has finished, the
/// segments of the block it is collecting, and the style and point size in
/// force.
pub struct RendererView {
    pub blocks: Seq<BlockView>,
    pub segments: Seq<SegmentView>,
    pub style: InlineStyle,
    pub size: u16,
}

/// The renderer before the first event: nothing laid out, nothing collected,
/// plain style, body size.
pub open spec fn renderer_start() -> RendererView {
    RendererView {
        blocks: Seq::empty(),
        segments: Seq::empty(),
        style: InlineStyle::plain(),
        size: BODY_SIZE,
    }
}

/// The block that a buffer of segments makes: its words, wrapped, in one
/// point size.
pub open spec fn block_of(size: u16, segments: Seq<SegmentView>) -> BlockView {
    BlockView { size, lines: wrap_lines(flatten_segments(segments)) }
}

/// The renderer after a flush. An empty buffer changes nothing; any other
/// becomes one more block, and the buffer is emptied.
pub open spec fn flushed(r: RendererView) -> RendererView {
    if r.segments.len() == 0 {
        r
    } else {
        RendererView {
            blocks: r.blocks.push(block_of(r.size, r.segments)),
            segments: Seq::empty(),
            style: r.style,
            size: r.size,
        }
    }
}

/// The marker that opens a list item.
pub open spec fn bullet() -> Seq<char> {
    "• "@
}

/// The renderer with the bullet marker, in the style in force, put in front
/// of what it has collected.
pub open spec fn with_bullet(r: RendererView) -> RendererView {
    RendererView {
        blocks: r.blocks,
        segments: seq![SegmentView::Text(bullet(), r.style)] + r.segments,
        style: r.style,
        size: r.size,
    }
}

/// The renderer with the segments of a text event added to its buffer.
pub open spec fn with_text(r: RendererView, content: Seq<char>) -> RendererView {
    RendererView {
        blocks: r.blocks,
        segments: r.segments + text_segments(content, r.style),
        style: r.style,
        size: r.size,
    }
}

/// The renderer as it stands when a block has been closed: flushed, and back
/// to the plain style.
pub open spec fn closed(r: RendererView) -> RendererView {
    RendererView {
        blocks: flushed(r).blocks,
        segments: flushed(r).segments,
        style: InlineStyle::plain(),
        size: r.size,
    }
}

/// The renderer after one event.
///
/// A heading's start sets the point size. The starts and ends of emphasis and
/// strong text set and clear the italic and the bold flag, each on its own.
/// Text and code join the buffer, and either kind of break becomes a line
/// break. The end of a paragraph closes the block; the end of a list item
/// does so after the bullet is put in front; the end of a heading does so and
/// returns to the body size. Any other event changes nothing.
pub open spec fn after_event(r: RendererView, event: EventView) -> RendererView {
    match event {
        EventView::StartHeading(level) => RendererView {
            blocks: r.blocks,
            segments: r.segments,
            style: r.style,
            size: heading_size_of(level),
        },
        EventView::EndHeading => RendererView {
            blocks: closed(r).blocks,
            segments: closed(r).segments,
            style: closed(r).style,
            size: BODY_SIZE,
        },
        EventView::StartEmphasis => RendererView {
            blocks: r.blocks,
            segments: r.segments,
            style: r.style.with_italic(true),
            size: r.size,
        },
        EventView::EndEmphasis => RendererView {
            blocks: r.blocks,
            segments: r.segments,
            style: r.style.with_italic(false),
            size: r.size,
        },
        EventView::StartStrong => RendererView {
            blocks: r.blocks,
            segments: r.segments,
            style: r.style.with_bold(true),
            size: r.size,
        },
        EventView::EndStrong => RendererView {
            blocks: r.blocks,
            segments: r.segments,
            style: r.style.with_bold(false),
            size: r.size,
        },
        EventView::EndParagraph => closed(r),
        EventView::EndListItem => closed(with_bullet(r)),
        EventView::Text(content) => with_text(r, content),
        EventView::Code(content) => with_text(r, content),
        EventView::SoftBreak => RendererView {
            blocks: r.blocks,
            segments: r.segments.push(SegmentView::LineBreak),
            style: r.style,
            size: r.size,
        },
        EventView::HardBreak => RendererView {
            blocks: r.blocks,
            segments: r.segments.push(SegmentView::LineBreak),
            style: r.style,
            size: r.size,
        },
        EventView::Unsupported => r,
    }
}

/// The renderer after it has gone from `r` through `events`, in order.
pub open spec fn after_events(r: RendererView, events: Seq<EventView>) -> RendererView
    decreases events.len(),
{
    if events.len() == 0 {
        r
    } else {
        after_event(after_events(r, events.drop_last()), events.last())
    }
}

/// The document that an event stream lays out: what a fresh renderer holds
/// after the events and one last flush, which catches content that no event
/// closed.
pub open spec fn layout(events: Seq<EventView>) -> Seq<BlockView> {
    flushed(after_events(renderer_start(), events)).blocks
}

/// The engine that turns an event stream into blocks of wrapped lines. One
/// renderer lays out one source text.
pub struct MarkdownRenderer {
    blocks: Vec<Block>,
    current_block: Vec<Segment>,
    current_style: InlineStyle,
    current_block_size: u16,
}

impl View for MarkdownRenderer {
    type V = RendererView;

    closed spec fn view(&self) -> RendererView {
        RendererView {
            blocks: blocks_view(self.blocks@),
            segments: segments_view(self.current_block@),
            style: self.current_style,
            size: self.current_block_size,
        }
    }
}

impl MarkdownRenderer {
    /// A renderer that has seen nothing yet.
    pub fn new() -> (renderer: MarkdownRenderer)
        ensures
            renderer@ == renderer_start(),
    {
        let renderer = MarkdownRenderer {
            blocks: Vec::new(),
            current_block: Vec::new(),
            current_style: InlineStyle { bold: false, italic: false },
            current_block_size: BODY_SIZE,
        };
        assert(blocks_view(renderer.blocks@) =~= Seq::<BlockView>::empty());
        assert(segments_view(renderer.current_block@) =~= Seq::<SegmentView>::empty());
        renderer
    }

    /// The style in force.
    pub fn style(&self) -> (style: InlineStyle)
        ensures
            style == self@.style,
    {
        self.current_style
    }

    /// The point size in force.
    pub fn size(&self) -> (size: u16)
        ensures
            size == self@.size,
    {
        self.current_block_size
    }

    /// Adds the content of a text event to the block that is being collected.
    pub fn push_text(&mut self, content: &str)
        ensures
            final(self)@ == with_text(old(self)@, content@),
    {
        push_text_segments(&mut self.current_block, content, self.current_style);
    }

    /// Turns what has been collected into a block, if there is anything.
    pub fn flush_block(&mut self)
        ensures
            final(self)@ == flushed(old(self)@),
    {
        if self.current_block.len() == 0 {
            return ;
        }
        let words = flatten(&self.current_block);
        let lines = wrap(&words);
        let block = Block { size: self.current_block_size, lines };
        proof {
            assert(block@ == block_of(self@.size, self@.segments));
            assert(blocks_view(self.blocks@.push(block)) =~= blocks_view(self.blocks@).push(block@));
        }
        self.blocks.push(block);
        self.current_block = Vec::new();
        assert(segments_view(self.current_block@) =~= Seq::<SegmentView>::empty());
    }

    /// Closes a list item: puts the bullet in front of what has been
    /// collected, and flushes.
    pub fn push_list_item(&mut self)
        ensures
            final(self)@ == flushed(with_bullet(old(self)@)),
    {
        let marker = Segment::Text(String::from_str("• "), self.current_style);
        proof {
            assert(segments_view(self.current_block@.insert(0, marker)) =~= seq![marker@]
                + segments_view(self.current_block@));
        }
        self.current_block.insert(0, marker);
        self.flush_block();
    }

    /// Takes one event of the stream.
    pub fn handle_event(&mut self, event: &MarkdownEvent)
        ensures
            final(self)@ == after_event(old(self)@, event@),
    {
        match event {
            MarkdownEvent::StartHeading(level) => {
                self.current_block_size = heading_size(*level);
            },
            MarkdownEvent::EndHeading => {
                self.flush_block();
                self.current_style = InlineStyle { bold: false, italic: false };
                self.current_block_size = BODY_SIZE;
            },
            MarkdownEvent::StartEmphasis => {
                self.current_style.italic = true;
            },
            MarkdownEvent::EndEmphasis => {
                self.current_style.italic = false;
            },
            MarkdownEvent::StartStrong => {
                self.current_style.bold = true;
            },
            MarkdownEvent::EndStrong => {
                self.current_style.bold = false;
            },
            MarkdownEvent::EndParagraph => {
                self.flush_block();
                self.current_style = InlineStyle { bold: false, italic: false };
            },
            MarkdownEvent::EndListItem => {
                self.push_list_item();
                self.current_style = InlineStyle { bold: false, italic: false };
            },
            MarkdownEvent::Text(content) => {
                self.push_text(content.as_str());
            },
            MarkdownEvent::Code(content) => {
                self.push_text(content.as_str());
            },
            MarkdownEvent::SoftBreak => {
                self.push_line_break();
            },
            MarkdownEvent::HardBreak => {
                self.push_line_break();
            },
            MarkdownEvent::Unsupported => {},
        }
    }

    /// Adds a forced line break to the block that is being collected.
    pub fn push_line_break(&mut self)
        ensures
            final(self)@ == (RendererView {
                blocks: old(self)@.blocks,
                segments: old(self)@.segments.push(SegmentView::LineBreak),
                style: old(self)@.style,
                size: old(self)@.size,
            }),
    {
        proof {
            assert(segments_view(self.current_block@.push(Segment::LineBreak)) =~= segments_view(
                self.current_block@,
            ).push(SegmentView::LineBreak));
        }
        self.current_block.push(Segment::LineBreak);
    }

    /// Hands out the blocks that have been finished.
    pub fn finish(self) -> (document: Document)
        ensures
            document@ == self@.blocks,
    {
        Document { blocks: self.blocks }
    }
}

/// Lays out an event stream: every event in order, then one last flush.
pub fn render_events(events: &Vec<MarkdownEvent>) -> (document: Document)
    ensures
        document@ == layout(events_view(events@)),
        document_wf(document@),
{
    let mut renderer = MarkdownRenderer::new();
    let mut i: usize = 0;
    assert(events_view(events@).take(0) =~= Seq::<EventView>::empty());
    while i < events.len()
        invariant
            i <= events.len(),
            renderer@ == after_events(renderer_start(), events_view(events@).take(i as int)),
        decreases events.len() - i,
    {
        proof {
            let next = events_view(events@).take(i + 1);
            assert(next.drop_last() =~= events_view(events@).take(i as int));
            assert(next.last() == events@[i as int]@);
        }
        renderer.handle_event(&events[i]);
        i += 1;
    }
    assert(events_view(events@).take(i as int) =~= events_view(events@));
    renderer.flush_block();
    proof {
        lemma_layout_wf(events_view(events@));
    }
    renderer.finish()
}

/// Lays out a Markdown source text: the events that the tokenizer yields for
/// it, rendered into blocks of wrapped lines.
pub fn markdown(content: &str) -> (document: Document)
    ensures
        document@ == layout(markdown_events(content@)),
        document_wf(document@),
{
    let events = tokenize(content);
    render_events(&events)
}

/// The point sizes that a block can have: the body size and the five other
/// heading sizes.
pub open spec fn is_block_size(size: u16) -> bool {
    size == 12 || size == 14 || size == 16 || size == 18 || size == 22 || size == 26
}

/// Whether `front` is the beginning of `whole`.
pub open spec fn starts_with(whole: Seq<BlockView>, front: Seq<BlockView>) -> bool {
    front.len() <= whole.len() && whole.take(front.len() as int) == front
}

/// A block is well formed whatever was collected for it: each of its lines
/// holds text words only, none of them empty, and keeps to the budget.
pub proof fn lemma_block_of_wf(size: u16, segments: Seq<SegmentView>)
    ensures
        block_wf(block_of(size, segments)),
{
    lemma_flatten_segments_shown(segments);
    lemma_wrap_lines_wf(flatten_segments(segments));
}

/// A block holds the words that were collected for it, all of them and in
/// their order; with them it holds the collected text, less its white space.
pub proof fn lemma_block_of_keeps_text(size: u16, segments: Seq<SegmentView>)
    ensures
        block_of(size, segments).lines.flatten() == texts_only(flatten_segments(segments)),
        words_text(block_of(size, segments).lines.flatten()) == solid_chars(
            segments_text(segments),
        ),
{
    lemma_wrap_keeps_words(flatten_segments(segments));
    lemma_texts_only_keeps_text(flatten_segments(segments));
    lemma_flatten_segments_keeps_text(segments);
}

/// The block of a list item holds the bullet marker, then the words that
/// were collected for the item.
pub proof fn lemma_list_item_block(r: RendererView)
    ensures
        flushed(with_bullet(r)).blocks == r.blocks.push(
            block_of(r.size, seq![SegmentView::Text(bullet(), r.style)] + r.segments),
        ),
        flatten_segments(with_bullet(r).segments) == crate::segment::segment_words(
            SegmentView::Text(bullet(), r.style),
        ) + flatten_segments(r.segments),
{
    lemma_flatten_segments_concat(seq![SegmentView::Text(bullet(), r.style)], r.segments);
    let one = seq![SegmentView::Text(bullet(), r.style)];
    assert(one.drop_last() =~= Seq::<SegmentView>::empty());
    assert(flatten_segments(one.drop_last()) =~= Seq::empty());
    assert(flatten_segments(one) =~= crate::segment::segment_words(one.last()));
}

proof fn lemma_flatten_segments_concat(first: Seq<SegmentView>, second: Seq<SegmentView>)
    ensures
        flatten_segments(first + second) == flatten_segments(first) + flatten_segments(second),
    decreases second.len(),
{
    if second.len() == 0 {
        assert(first + second =~= first);
        assert(flatten_segments(first) + flatten_segments(second) =~= flatten_segments(first));
    } else {
        lemma_flatten_segments_concat(first, second.drop_last());
        assert((first + second).drop_last() =~= first + second.drop_last());
        assert((first + second).last() == second.last());
        assert(flatten_segments(first + second) =~= flatten_segments(first) + flatten_segments(
            second,
        ));
    }
}

/// What every event keeps true of a renderer: its blocks are well formed,
/// and the size in force and the size of each block is one of the six.
pub open spec fn renderer_wf(r: RendererView) -> bool {
    &&& document_wf(r.blocks)
    &&& is_block_size(r.size)
    &&& forall|i: int| 0 <= i < r.blocks.len() ==> is_block_size((#[trigger] r.blocks[i]).size)
}

/// A flush keeps a renderer well formed and loses no block.
pub proof fn lemma_flushed_wf(r: RendererView)
    requires
        renderer_wf(r),
    ensures
        renderer_wf(flushed(r)),
        starts_with(flushed(r).blocks, r.blocks),
        flushed(r).blocks.len() <= r.blocks.len() + 1,
{
    let after = flushed(r);
    assert(after.blocks.take(r.blocks.len() as int) =~= r.blocks);
    if r.segments.len() > 0 {
        lemma_block_of_wf(r.size, r.segments);
        assert forall|i: int| 0 <= i < after.blocks.len() implies block_wf(
            #[trigger] after.blocks[i],
        ) && is_block_size(after.blocks[i].size) by {
            if i < r.blocks.len() {
                assert(after.blocks[i] == r.blocks[i]);
            }
        }
    }
}

/// No event, whatever its kind and wherever it stands, spoils a renderer or
/// loses a block that was laid out: the blocks that were there stay, first
/// and unchanged, and at most one is added.
pub proof fn lemma_after_event_wf(r: RendererView, event: EventView)
    requires
        renderer_wf(r),
    ensures
        renderer_wf(after_event(r, event)),
        starts_with(after_event(r, event).blocks, r.blocks),
        after_event(r, event).blocks.len() <= r.blocks.len() + 1,
{
    assert(r.blocks.take(r.blocks.len() as int) =~= r.blocks);
    match event {
        EventView::EndHeading => {
            lemma_flushed_wf(r);
        },
        EventView::EndParagraph => {
            lemma_flushed_wf(r);
        },
        EventView::EndListItem => {
            lemma_flushed_wf(with_bullet(r));
        },
        _ => {},
    }
}

/// An event that is not supported leaves the renderer exactly as it was.
pub proof fn lemma_unsupported_is_ignored(r: RendererView)
    ensures
        after_event(r, EventView::Unsupported) == r,
{
}

/// The end of a block leaves nothing collected and the plain style in
/// force, so that no style is carried into the next block; the end of a
/// heading also brings back the body size.
pub proof fn lemma_block_end_resets(r: RendererView, event: EventView)
    requires
        event is EndHeading || event is EndParagraph || event is EndListItem,
    ensures
        after_event(r, event).segments.len() == 0,
        after_event(r, event).style == InlineStyle::plain(),
        event is EndHeading ==> after_event(r, event).size == BODY_SIZE,
        !(event is EndHeading) ==> after_event(r, event).size == r.size,
{
}

/// The two style flags are independent, and neither counts how often it was
/// set: emphasis touches the italic flag alone and strong text the bold flag
/// alone, the flag holds what the last such event set, and an end that no
/// start came before clears its own flag only.
pub proof fn lemma_style_flags(r: RendererView)
    ensures
        after_event(r, EventView::StartEmphasis).style == r.style.with_italic(true),
        after_event(r, EventView::EndEmphasis).style == r.style.with_italic(false),
        after_event(r, EventView::StartStrong).style == r.style.with_bold(true),
        after_event(r, EventView::EndStrong).style == r.style.with_bold(false),
        after_event(after_event(r, EventView::StartEmphasis), EventView::StartEmphasis)
            == after_event(r, EventView::StartEmphasis),
        after_event(after_event(r, EventView::StartStrong), EventView::StartStrong)
            == after_event(r, EventView::StartStrong),
        after_event(r, EventView::EndEmphasis).style.bold == r.style.bold,
        after_event(r, EventView::EndStrong).style.italic == r.style.italic,
{
}

proof fn lemma_after_events_wf(events: Seq<EventView>)
    ensures
        renderer_wf(after_events(renderer_start(), events)),
    decreases events.len(),
{
    if events.len() > 0 {
        lemma_after_events_wf(events.drop_last());
        lemma_after_event_wf(after_events(renderer_start(), events.drop_last()), events.last());
    }
}

/// Whatever the events are, the document they lay out is well formed, and
/// each of its blocks has one of the six point sizes.
pub proof fn lemma_layout_wf(events: Seq<EventView>)
    ensures
        document_wf(layout(events)),
        forall|i: int|
            0 <= i < layout(events).len() ==> is_block_size((#[trigger] layout(events)[i]).size),
{
    lemma_after_events_wf(events);
    lemma_flushed_wf(after_events(renderer_start(), events));
}

/// No events, no blocks.
pub proof fn lemma_layout_of_nothing()
    ensures
        layout(Seq::empty()) == Seq::<BlockView>::empty(),
{
}

/// A heading that holds any text is laid out as exactly one block, in the
/// size of its level.
pub proof fn lemma_heading_block(level: int, content: Seq<char>)
    requires
        content.len() > 0,
    ensures
        layout(
            seq![EventView::StartHeading(level), EventView::Text(content), EventView::EndHeading],
        ) == seq![block_of(heading_size_of(level), text_segments(content, InlineStyle::plain()))],
{
    let events = seq![
        EventView::StartHeading(level),
        EventView::Text(content),
        EventView::EndHeading,
    ];
    let two = events.drop_last();
    let one = two.drop_last();
    assert(one.drop_last() =~= Seq::<EventView>::empty());
    assert(after_events(renderer_start(), one.drop_last()) == renderer_start());
    assert(after_events(renderer_start(), one) == after_event(renderer_start(), one.last()));
    assert(after_events(renderer_start(), two) == after_event(
        after_events(renderer_start(), one),
        two.last(),
    ));
    assert(one.last() == EventView::StartHeading(level));
    assert(two.last() == EventView::Text(content));
    assert(events.last() == EventView::EndHeading);
    let segments = text_segments(content, InlineStyle::plain());
    assert(segments.len() > 0) by {
        crate::text::lemma_run_len(content, crate::text::line_feed());
    }
    let collected = after_events(renderer_start(), two);
    assert(collected.segments =~= segments);
    assert(layout(events) =~= seq![block_of(heading_size_of(level), segments)]);
}

} // verus!
