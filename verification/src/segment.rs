use crate::style::InlineStyle;
use crate::document::is_shown_word;
use crate::text::{
    chars_of, lemma_run_len, lemma_words_of_keeps_text, lemma_words_of_solid, line_end, line_feed,
    run_len, solid_chars, split_words, texts_view, words_of,
};
use vstd::prelude::*;
use vstd::string::*;

verus! {

/// A styled run of raw text, or a forced line break, as a block collects
/// them before it is wrapped.
#[derive(Clone, Debug, PartialEq, Eq)]
pub enum Segment {
    Text(String, InlineStyle),
    LineBreak,
}

/// What a [`Segment`] stands for.
pub enum SegmentView {
    Text(Seq<char>, InlineStyle),
    LineBreak,
}

impl View for Segment {
    type V = SegmentView;

    open spec fn view(&self) -> SegmentView {
        match *self {
            Segment::Text(content, style) => SegmentView::Text(content@, style),
            Segment::LineBreak => SegmentView::LineBreak,
        }
    }
}

/// The unit of wrapping: a word with its style, or a forced break.
#[derive(Clone, Debug, PartialEq, Eq)]
pub enum Word {
    Text(String, InlineStyle),
    Break,
}

/// What a [`Word`] stands for.
pub enum WordView {
    Text(Seq<char>, InlineStyle),
    Break,
}

impl View for Word {
    type V = WordView;

    open spec fn view(&self) -> WordView {
        match *self {
            Word::Text(content, style) => WordView::Text(content@, style),
            Word::Break => WordView::Break,
        }
    }
}

/// The view of each segment of a list.
pub open spec fn segments_view(segments: Seq<Segment>) -> Seq<SegmentView> {
    segments.map_values(|s: Segment| s@)
}

/// The view of each word of a list.
pub open spec fn words_view(words: Seq<Word>) -> Seq<WordView> {
    words.map_values(|w: Word| w@)
}

/// The segments of a text event. The text is cut at each line feed; every
/// piece that is not empty becomes a text segment in the given style, and a
/// line break stands wherever a line feed stood.
pub open spec fn text_segments(s: Seq<char>, style: InlineStyle) -> Seq<SegmentView>
    decreases s.len(),
{
    proof {
        lemma_run_len(s, line_feed());
    }
    let n = run_len(s, line_feed());
    let piece = if n > 0 {
        seq![SegmentView::Text(s.take(n), style)]
    } else {
        Seq::empty()
    };
    if n < s.len() {
        piece + seq![SegmentView::LineBreak] + text_segments(s.skip(n + 1), style)
    } else {
        piece
    }
}

/// The words of one segment: those of its text, each in the segment's style,
/// or the one break.
pub open spec fn segment_words(segment: SegmentView) -> Seq<WordView> {
    match segment {
        SegmentView::Text(content, style) => words_of(content).map_values(
            |w: Seq<char>| WordView::Text(w, style),
        ),
        SegmentView::LineBreak => seq![WordView::Break],
    }
}

/// The words of a list of segments, in order.
pub open spec fn flatten_segments(segments: Seq<SegmentView>) -> Seq<WordView>
    decreases segments.len(),
{
    if segments.len() == 0 {
        Seq::empty()
    } else {
        flatten_segments(segments.drop_last()) + segment_words(segments.last())
    }
}

/// Appends the segments of a text event to `buffer`.
pub fn push_text_segments(buffer: &mut Vec<Segment>, content: &str, style: InlineStyle)
    ensures
        segments_view(final(buffer)@) == segments_view(old(buffer)@) + text_segments(
            content@,
            style,
        ),
{
    let chars = chars_of(content);
    let mut at: usize = 0;
    assert(content@.skip(0) =~= content@);
    loop
        invariant_except_break
            at <= chars.len(),
            chars@ == content@,
            segments_view(buffer@) + text_segments(content@.skip(at as int), style)
                == segments_view(old(buffer)@) + text_segments(content@, style),
        ensures
            segments_view(buffer@) == segments_view(old(buffer)@) + text_segments(
                content@,
                style,
            ),
        decreases chars.len() - at,
    {
        let ghost before = segments_view(buffer@);
        let ghost rest = content@.skip(at as int);
        let end = line_end(&chars, at);
        proof {
            lemma_run_len(rest, line_feed());
            assert(rest.take(end - at) =~= content@.subrange(at as int, end as int));
        }
        if end > at {
            let piece = String::from_str(content.substring_char(at, end));
            proof {
                assert(segments_view(buffer@.push(Segment::Text(piece, style))) =~= before.push(
                    SegmentView::Text(piece@, style),
                ));
            }
            buffer.push(Segment::Text(piece, style));
        }
        let ghost with_piece = segments_view(buffer@);
        if end == chars.len() {
            assert(with_piece + Seq::<SegmentView>::empty() =~= with_piece);
            assert(before + text_segments(rest, style) =~= with_piece);
            break ;
        }
        proof {
            assert(segments_view(buffer@.push(Segment::LineBreak)) =~= with_piece.push(
                SegmentView::LineBreak,
            ));
            assert(rest.skip(end - at + 1) =~= content@.skip(end + 1));
            assert(before + text_segments(rest, style) =~= with_piece.push(SegmentView::LineBreak)
                + text_segments(content@.skip(end + 1), style));
        }
        buffer.push(Segment::LineBreak);
        at = end + 1;
    }
}

/// Splits the segments of a block into words and breaks.
pub fn flatten(segments: &Vec<Segment>) -> (words: Vec<Word>)
    ensures
        words_view(words@) == flatten_segments(segments_view(segments@)),
{
    let mut words: Vec<Word> = Vec::new();
    let mut i: usize = 0;
    assert(segments_view(segments@).take(0) =~= Seq::<SegmentView>::empty());
    while i < segments.len()
        invariant
            i <= segments.len(),
            words_view(words@) == flatten_segments(segments_view(segments@).take(i as int)),
        decreases segments.len() - i,
    {
        let ghost done = segments_view(segments@).take(i as int);
        let ghost next = segments_view(segments@).take(i + 1);
        proof {
            assert(next.drop_last() =~= done);
            assert(next.last() == segments@[i as int]@);
        }
        match &segments[i] {
            Segment::Text(content, style) => {
                let pieces = split_words(content.as_str());
                let ghost before = words_view(words@);
                let mut k: usize = 0;
                while k < pieces.len()
                    invariant
                        k <= pieces.len(),
                        texts_view(pieces@) == words_of(content@),
                        words_view(words@) == before + words_of(content@).map_values(
                            |w: Seq<char>| WordView::Text(w, *style),
                        ).take(k as int),
                    decreases pieces.len() - k,
                {
                    let ghost all = words_of(content@).map_values(
                        |w: Seq<char>| WordView::Text(w, *style),
                    );
                    let word = Word::Text(pieces[k].clone(), *style);
                    proof {
                        assert(texts_view(pieces@)[k as int] == pieces@[k as int]@);
                        assert(word@ == all[k as int]);
                        assert(words_view(words@.push(word)) =~= words_view(words@).push(word@));
                        assert(all.take(k + 1) =~= all.take(k as int).push(all[k as int]));
                    }
                    words.push(word);
                    k += 1;
                }
                proof {
                    let all = words_of(content@).map_values(
                        |w: Seq<char>| WordView::Text(w, *style),
                    );
                    assert(texts_view(pieces@).len() == pieces@.len());
                    assert(all.take(k as int) =~= all);
                }
            },
            Segment::LineBreak => {
                proof {
                    assert(words_view(words@.push(Word::Break)) =~= words_view(words@).push(
                        WordView::Break,
                    ));
                }
                words.push(Word::Break);
            },
        }
        i += 1;
    }
    assert(segments_view(segments@).take(i as int) =~= segments_view(segments@));
    words
}

/// What holds of a segment that a text event in the style `style` leaves: a
/// text segment is not empty, holds no line feed and has that style.
pub open spec fn is_piece(segment: SegmentView, style: InlineStyle) -> bool {
    segment matches SegmentView::Text(content, its_style) ==> {
        &&& content.len() > 0
        &&& its_style == style
        &&& forall|i: int| 0 <= i < content.len() ==> #[trigger] content[i] != '\n'
    }
}

/// A text event leaves no empty segment and no line feed inside a segment,
/// and each of its text segments has the style that was in force.
pub proof fn lemma_text_segments_are_pieces(s: Seq<char>, style: InlineStyle)
    ensures
        forall|k: int|
            0 <= k < text_segments(s, style).len() ==> is_piece(
                #[trigger] text_segments(s, style)[k],
                style,
            ),
    decreases s.len(),
{
    lemma_run_len(s, line_feed());
    let n = run_len(s, line_feed());
    let piece = SegmentView::Text(s.take(n), style);
    assert(n > 0 ==> is_piece(piece, style)) by {
        assert forall|i: int| 0 <= i < n implies #[trigger] s.take(n)[i] != '\n' by {
            assert(!line_feed()(s[i]));
        }
    }
    if n < s.len() {
        let rest = text_segments(s.skip(n + 1), style);
        lemma_text_segments_are_pieces(s.skip(n + 1), style);
        assert forall|k: int| 0 <= k < text_segments(s, style).len() implies is_piece(
            #[trigger] text_segments(s, style)[k],
            style,
        ) by {
            let before: int = if n > 0 {
                2
            } else {
                1
            };
            if k >= before {
                assert(text_segments(s, style)[k] == rest[k - before]);
            }
        }
    }
}

/// The characters of a word: its content, and nothing for a break.
pub open spec fn word_text(word: WordView) -> Seq<char> {
    match word {
        WordView::Text(content, _) => content,
        WordView::Break => Seq::empty(),
    }
}

/// The contents of a list of words, written one after another.
pub open spec fn words_text(words: Seq<WordView>) -> Seq<char>
    decreases words.len(),
{
    if words.len() == 0 {
        Seq::empty()
    } else {
        words_text(words.drop_last()) + word_text(words.last())
    }
}

/// The characters of a segment: its content, and nothing for a line break.
pub open spec fn segment_text(segment: SegmentView) -> Seq<char> {
    match segment {
        SegmentView::Text(content, _) => content,
        SegmentView::LineBreak => Seq::empty(),
    }
}

/// The contents of a list of segments, written one after another.
pub open spec fn segments_text(segments: Seq<SegmentView>) -> Seq<char>
    decreases segments.len(),
{
    if segments.len() == 0 {
        Seq::empty()
    } else {
        segments_text(segments.drop_last()) + segment_text(segments.last())
    }
}

/// The contents of two lists of words, one after the other, are the contents
/// of the joined list.
pub proof fn lemma_words_text_concat(first: Seq<WordView>, second: Seq<WordView>)
    ensures
        words_text(first + second) == words_text(first) + words_text(second),
    decreases second.len(),
{
    if second.len() == 0 {
        assert(first + second =~= first);
        assert(words_text(first) + words_text(second) =~= words_text(first));
    } else {
        lemma_words_text_concat(first, second.drop_last());
        assert((first + second).drop_last() =~= first + second.drop_last());
        assert((first + second).last() == second.last());
        assert(words_text(first + second) =~= words_text(first) + words_text(second));
    }
}

proof fn lemma_styled_words_text(texts: Seq<Seq<char>>, style: InlineStyle)
    ensures
        words_text(texts.map_values(|w: Seq<char>| WordView::Text(w, style))) == texts.flatten(),
    decreases texts.len(),
{
    broadcast use Seq::lemma_flatten_push;

    let styled = texts.map_values(|w: Seq<char>| WordView::Text(w, style));
    if texts.len() == 0 {
        assert(texts.flatten() =~= Seq::<char>::empty());
    } else {
        let front = texts.drop_last();
        lemma_styled_words_text(front, style);
        assert(styled.drop_last() =~= front.map_values(|w: Seq<char>| WordView::Text(w, style)));
        assert(texts =~= front.push(texts.last()));
        assert(texts.flatten() =~= front.flatten() + texts.last());
    }
}

proof fn lemma_solid_chars_concat(first: Seq<char>, second: Seq<char>)
    ensures
        solid_chars(first + second) == solid_chars(first) + solid_chars(second),
{
    Seq::filter_distributes_over_add(first, second, |c: char| !crate::text::is_whitespace(c));
}

/// Every text word that flattening yields is a word to show: it is not
/// empty.
pub proof fn lemma_flatten_segments_shown(segments: Seq<SegmentView>)
    ensures
        forall|i: int|
            0 <= i < flatten_segments(segments).len() && (#[trigger] flatten_segments(
                segments,
            )[i]) is Text ==> is_shown_word(flatten_segments(segments)[i]),
    decreases segments.len(),
{
    if segments.len() > 0 {
        let front = flatten_segments(segments.drop_last());
        let tail = segment_words(segments.last());
        lemma_flatten_segments_shown(segments.drop_last());
        assert forall|i: int|
            0 <= i < flatten_segments(segments).len() && (#[trigger] flatten_segments(
                segments,
            )[i]) is Text implies is_shown_word(flatten_segments(segments)[i]) by {
            if i < front.len() {
                assert(flatten_segments(segments)[i] == front[i]);
            } else {
                assert(flatten_segments(segments)[i] == tail[i - front.len()]);
                match segments.last() {
                    SegmentView::Text(content, style) => {
                        lemma_words_of_solid(content);
                        assert(crate::text::is_word(words_of(content)[i - front.len()]));
                    },
                    SegmentView::LineBreak => {},
                }
            }
        }
    }
}

/// Flattening loses white space and nothing else: the words, written one
/// after another, are the segments' text without its white space.
pub proof fn lemma_flatten_segments_keeps_text(segments: Seq<SegmentView>)
    ensures
        words_text(flatten_segments(segments)) == solid_chars(segments_text(segments)),
    decreases segments.len(),
{
    if segments.len() == 0 {
        reveal(Seq::filter);
        assert(solid_chars(segments_text(segments)) =~= Seq::<char>::empty());
    } else {
        let front = segments.drop_last();
        lemma_flatten_segments_keeps_text(front);
        lemma_words_text_concat(flatten_segments(front), segment_words(segments.last()));
        lemma_solid_chars_concat(segments_text(front), segment_text(segments.last()));
        match segments.last() {
            SegmentView::Text(content, style) => {
                lemma_styled_words_text(words_of(content), style);
                lemma_words_of_keeps_text(content);
            },
            SegmentView::LineBreak => {
                reveal(Seq::filter);
                let one = seq![WordView::Break];
                assert(one.drop_last() =~= Seq::<WordView>::empty());
                assert(words_text(one.drop_last()) =~= Seq::<char>::empty());
                assert(one.last() == WordView::Break);
                assert(words_text(one) =~= Seq::<char>::empty());
                assert(solid_chars(Seq::<char>::empty()) =~= Seq::<char>::empty());
            },
        }
    }
}

} // verus!
