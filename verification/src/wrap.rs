use crate::document::{is_shown_word, line_shown, line_wf, lines_view, Line};
use crate::segment::{word_text, words_text, words_view, Word, WordView};
use vstd::prelude::*;
use vstd::string::*;

verus! {

/// The width budget of a line, in characters.
pub const LINE_BUDGET: usize = 80;

/// Where the wrapper stands after some words: the lines it has closed, the
/// line it is filling, and the width that this line has taken up, which
/// counts each of its words and one separator after each.
pub struct WrapState {
    pub lines: Seq<Seq<WordView>>,
    pub current: Seq<WordView>,
    pub width: nat,
}

/// The wrapper before the first word.
pub open spec fn wrap_start() -> WrapState {
    WrapState { lines: Seq::empty(), current: Seq::empty(), width: 0 }
}

/// One step of the wrapper. A text word that would take a line that holds
/// words already past the budget closes that line and opens the next; in
/// every case the word then joins the open line. A break closes the open
/// line, empty or not.
pub open spec fn wrap_step(state: WrapState, word: WordView) -> WrapState {
    match word {
        WordView::Text(content, _) => {
            if state.width + content.len() > LINE_BUDGET && state.current.len() > 0 {
                WrapState {
                    lines: state.lines.push(state.current),
                    current: seq![word],
                    width: content.len() + 1,
                }
            } else {
                WrapState {
                    lines: state.lines,
                    current: state.current.push(word),
                    width: state.width + content.len() + 1,
                }
            }
        },
        WordView::Break => WrapState {
            lines: state.lines.push(state.current),
            current: Seq::empty(),
            width: 0,
        },
    }
}

/// The wrapper after it has gone from `state` through `words`, in order.
pub open spec fn wrap_from(state: WrapState, words: Seq<WordView>) -> WrapState
    decreases words.len(),
{
    if words.len() == 0 {
        state
    } else {
        wrap_step(wrap_from(state, words.drop_last()), words.last())
    }
}

/// The lines that a wrapper leaves behind: those it has closed and, where it
/// holds any word, the open one.
pub open spec fn wrap_finish(state: WrapState) -> Seq<Seq<WordView>> {
    if state.current.len() > 0 {
        state.lines.push(state.current)
    } else {
        state.lines
    }
}

/// The lines of a block: greedy wrapping of its words at the width budget.
pub open spec fn wrap_lines(words: Seq<WordView>) -> Seq<Seq<WordView>> {
    wrap_finish(wrap_from(wrap_start(), words))
}

/// Wraps the words of a block into lines.
pub fn wrap(words: &Vec<Word>) -> (lines: Vec<Line>)
    ensures
        lines_view(lines@) == wrap_lines(words_view(words@)),
{
    let mut lines: Vec<Line> = Vec::new();
    let mut current: Vec<Word> = Vec::new();
    // The width of the open line; beyond the budget its exact value decides
    // nothing, so it is kept at `LINE_BUDGET + 1` there.
    let mut width: usize = 0;
    let mut i: usize = 0;
    assert(words_view(words@).take(0) =~= Seq::<WordView>::empty());
    assert(lines_view(lines@) =~= Seq::<Seq<WordView>>::empty());
    assert(words_view(current@) =~= Seq::<WordView>::empty());
    while i < words.len()
        invariant
            i <= words.len(),
            lines_view(lines@) == wrap_from(wrap_start(), words_view(words@).take(i as int)).lines,
            words_view(current@) == wrap_from(
                wrap_start(),
                words_view(words@).take(i as int),
            ).current,
            width <= LINE_BUDGET + 1,
            width == wrap_from(wrap_start(), words_view(words@).take(i as int)).width || (width
                == LINE_BUDGET + 1 && wrap_from(
                wrap_start(),
                words_view(words@).take(i as int),
            ).width > LINE_BUDGET),
        decreases words.len() - i,
    {
        let ghost state = wrap_from(wrap_start(), words_view(words@).take(i as int));
        let ghost next = words_view(words@).take(i + 1);
        proof {
            assert(next.drop_last() =~= words_view(words@).take(i as int));
            assert(next.last() == words@[i as int]@);
            assert(wrap_from(wrap_start(), next) == wrap_step(state, words@[i as int]@));
        }
        match &words[i] {
            Word::Text(content, style) => {
                let len = content.as_str().unicode_len();
                let held: usize = if len > LINE_BUDGET {
                    LINE_BUDGET + 1
                } else {
                    len
                };
                if width + held > LINE_BUDGET && current.len() > 0 {
                    proof {
                        assert(lines_view(lines@.push(Line { words: current })) =~= lines_view(
                            lines@,
                        ).push(words_view(current@)));
                    }
                    lines.push(Line { words: current });
                    current = Vec::new();
                    width = 0;
                    assert(words_view(current@) =~= Seq::<WordView>::empty());
                }
                let word = Word::Text(content.clone(), *style);
                proof {
                    assert(word@ == words@[i as int]@);
                    assert(words_view(current@.push(word)) =~= words_view(current@).push(word@));
                    assert(Seq::<WordView>::empty().push(word@) =~= seq![word@]);
                }
                current.push(word);
                width = if width + held > LINE_BUDGET {
                    LINE_BUDGET + 1
                } else {
                    width + held + 1
                };
            },
            Word::Break => {
                proof {
                    assert(lines_view(lines@.push(Line { words: current })) =~= lines_view(
                        lines@,
                    ).push(words_view(current@)));
                }
                lines.push(Line { words: current });
                current = Vec::new();
                width = 0;
                assert(words_view(current@) =~= Seq::<WordView>::empty());
            },
        }
        i += 1;
    }
    assert(words_view(words@).take(i as int) =~= words_view(words@));
    if current.len() > 0 {
        proof {
            assert(lines_view(lines@.push(Line { words: current })) =~= lines_view(lines@).push(
                words_view(current@),
            ));
        }
        lines.push(Line { words: current });
    }
    lines
}

/// The predicate that holds of the text words.
pub open spec fn is_text() -> spec_fn(WordView) -> bool {
    |w: WordView| w is Text
}

/// The text words among `words`, in order.
pub open spec fn texts_only(words: Seq<WordView>) -> Seq<WordView> {
    words.filter(is_text())
}

/// Whether every word of a line is a text word.
pub open spec fn line_is_text(line: Seq<WordView>) -> bool {
    forall|i: int| 0 <= i < line.len() ==> (#[trigger] line[i]) is Text
}

/// The characters that a word takes up on its line.
pub open spec fn word_width(word: WordView) -> nat {
    match word {
        WordView::Text(content, _) => content.len(),
        WordView::Break => 0,
    }
}

/// The width that the words of a line take up when one separator follows
/// each of them.
pub open spec fn taken_width(line: Seq<WordView>) -> nat
    decreases line.len(),
{
    if line.len() == 0 {
        0
    } else {
        taken_width(line.drop_last()) + word_width(line.last()) + 1
    }
}

/// The width of a line as it is shown: its words with one separator between
/// each two neighbours.
pub open spec fn line_width(line: Seq<WordView>) -> nat {
    if line.len() == 0 {
        0
    } else {
        (taken_width(line) - 1) as nat
    }
}

/// A line keeps to the budget when it is no wider than the budget, or holds
/// a single word, which is never split.
pub open spec fn line_fits(line: Seq<WordView>) -> bool {
    line.len() >= 2 ==> line_width(line) <= LINE_BUDGET
}

/// The lines that stand before a break that follows `words`: the wrapper's
/// closed lines and its open line, which the break closes even when it is
/// empty.
pub open spec fn closed_lines(words: Seq<WordView>) -> Seq<Seq<WordView>> {
    let state = wrap_from(wrap_start(), words);
    state.lines.push(state.current)
}

proof fn lemma_texts_only_push(words: Seq<WordView>, word: WordView)
    ensures
        texts_only(words.push(word)) == if word is Text {
            texts_only(words).push(word)
        } else {
            texts_only(words)
        },
{
    reveal(Seq::filter);
    assert(words.push(word).drop_last() =~= words);
}

proof fn lemma_wrap_from_keeps_words(state: WrapState, words: Seq<WordView>)
    ensures
        wrap_from(state, words).lines.flatten() + wrap_from(state, words).current
            == state.lines.flatten() + state.current + texts_only(words),
    decreases words.len(),
{
    broadcast use Seq::lemma_flatten_push;

    if words.len() == 0 {
        reveal(Seq::filter);
        assert(texts_only(words) =~= Seq::<WordView>::empty());
        assert(state.lines.flatten() + state.current + texts_only(words) =~= state.lines.flatten()
            + state.current);
    } else {
        let front = words.drop_last();
        let word = words.last();
        let mid = wrap_from(state, front);
        let end = wrap_from(state, words);
        lemma_wrap_from_keeps_words(state, front);
        assert(words =~= front.push(word));
        lemma_texts_only_push(front, word);
        assert(end == wrap_step(mid, word));
        let kept = state.lines.flatten() + state.current;
        assert(mid.lines.flatten() + mid.current == kept + texts_only(front));
        match word {
            WordView::Text(content, _) => {
                assert(end.lines.flatten() + end.current =~= (mid.lines.flatten() + mid.current).push(
                    word,
                ));
                assert((kept + texts_only(front)).push(word) =~= kept + texts_only(front).push(
                    word,
                ));
            },
            WordView::Break => {
                assert(end.lines.flatten() + end.current =~= mid.lines.flatten() + mid.current);
            },
        }
    }
}

/// Wrapping neither loses, adds nor reorders a word: the lines of a block,
/// read one after another, are the text words that went in.
pub proof fn lemma_wrap_keeps_words(words: Seq<WordView>)
    ensures
        wrap_lines(words).flatten() == texts_only(words),
{
    broadcast use Seq::lemma_flatten_push;

    let end = wrap_from(wrap_start(), words);
    lemma_wrap_from_keeps_words(wrap_start(), words);
    assert(wrap_start().lines.flatten() =~= Seq::<WordView>::empty());
    assert(wrap_start().lines.flatten() + wrap_start().current + texts_only(words) =~= texts_only(
        words,
    ));
    if end.current.len() > 0 {
        assert(wrap_lines(words).flatten() =~= end.lines.flatten() + end.current);
    } else {
        assert(end.lines.flatten() + end.current =~= end.lines.flatten());
    }
}

/// Leaving the breaks out of a list of words leaves its text as it is.
pub proof fn lemma_texts_only_keeps_text(words: Seq<WordView>)
    ensures
        words_text(texts_only(words)) == words_text(words),
    decreases words.len(),
{
    if words.len() == 0 {
        reveal(Seq::filter);
        assert(texts_only(words) =~= Seq::<WordView>::empty());
    } else {
        let front = words.drop_last();
        let word = words.last();
        lemma_texts_only_keeps_text(front);
        assert(words =~= front.push(word));
        lemma_texts_only_push(front, word);
        if word is Text {
            assert(texts_only(front).push(word).drop_last() =~= texts_only(front));
        } else {
            assert(words_text(front) + word_text(word) =~= words_text(front));
        }
    }
}

/// What the wrapper keeps true of its lines, closed and open.
spec fn state_sound(state: WrapState, shown: bool) -> bool {
    &&& state.width == taken_width(state.current)
    &&& line_fits(state.current)
    &&& line_is_text(state.current)
    &&& shown ==> line_shown(state.current)
    &&& forall|l: int|
        0 <= l < state.lines.len() ==> {
            &&& line_fits(#[trigger] state.lines[l])
            &&& line_is_text(state.lines[l])
            &&& shown ==> line_shown(state.lines[l])
        }
}

proof fn lemma_taken_width_one(word: WordView)
    ensures
        taken_width(seq![word]) == word_width(word) + 1,
{
    assert(seq![word].drop_last() =~= Seq::<WordView>::empty());
    assert(taken_width(seq![word].drop_last()) == 0);
}

proof fn lemma_taken_width_push(line: Seq<WordView>, word: WordView)
    ensures
        taken_width(line.push(word)) == taken_width(line) + word_width(word) + 1,
{
    assert(line.push(word).drop_last() =~= line);
}

proof fn lemma_wrap_step_sound(state: WrapState, word: WordView, shown: bool)
    requires
        state_sound(state, shown),
        shown && word is Text ==> is_shown_word(word),
    ensures
        state_sound(wrap_step(state, word), shown),
{
    let end = wrap_step(state, word);
    match word {
        WordView::Text(content, _) => {
            if state.width + content.len() > LINE_BUDGET && state.current.len() > 0 {
                lemma_taken_width_one(word);
                assert forall|l: int| 0 <= l < end.lines.len() implies {
                    &&& line_fits(#[trigger] end.lines[l])
                    &&& line_is_text(end.lines[l])
                    &&& shown ==> line_shown(end.lines[l])
                } by {
                    if l < state.lines.len() {
                        assert(end.lines[l] == state.lines[l]);
                    }
                }
            } else {
                lemma_taken_width_push(state.current, word);
                assert forall|i: int| 0 <= i < end.current.len() implies (
                #[trigger] end.current[i]) is Text by {
                    if i < state.current.len() {
                        assert(end.current[i] == state.current[i]);
                    }
                }
                if shown {
                    assert forall|i: int| 0 <= i < end.current.len() implies is_shown_word(
                        #[trigger] end.current[i],
                    ) by {
                        if i < state.current.len() {
                            assert(end.current[i] == state.current[i]);
                        }
                    }
                }
            }
        },
        WordView::Break => {
            assert forall|l: int| 0 <= l < end.lines.len() implies {
                &&& line_fits(#[trigger] end.lines[l])
                &&& line_is_text(end.lines[l])
                &&& shown ==> line_shown(end.lines[l])
            } by {
                if l < state.lines.len() {
                    assert(end.lines[l] == state.lines[l]);
                }
            }
        },
    }
}

proof fn lemma_wrap_from_sound(words: Seq<WordView>, shown: bool)
    requires
        shown ==> forall|i: int|
            0 <= i < words.len() && (#[trigger] words[i]) is Text ==> is_shown_word(words[i]),
    ensures
        state_sound(wrap_from(wrap_start(), words), shown),
    decreases words.len(),
{
    if words.len() > 0 {
        let front = words.drop_last();
        assert forall|i: int| 0 <= i < front.len() && (#[trigger] front[i]) is Text && shown
            implies is_shown_word(front[i]) by {
            assert(front[i] == words[i]);
        }
        lemma_wrap_from_sound(front, shown);
        lemma_wrap_step_sound(wrap_from(wrap_start(), front), words.last(), shown);
    }
}

/// No line holds a break, and no line of two or more words is wider than the
/// budget: only a single word that is too long by itself goes past it.
pub proof fn lemma_wrap_lines_fit(words: Seq<WordView>)
    ensures
        forall|l: int|
            0 <= l < wrap_lines(words).len() ==> {
                &&& line_fits(#[trigger] wrap_lines(words)[l])
                &&& line_is_text(wrap_lines(words)[l])
            },
{
    lemma_wrap_from_sound(words, false);
    let end = wrap_from(wrap_start(), words);
    assert forall|l: int| 0 <= l < wrap_lines(words).len() implies {
        &&& line_fits(#[trigger] wrap_lines(words)[l])
        &&& line_is_text(wrap_lines(words)[l])
    } by {
        if l < end.lines.len() {
            assert(wrap_lines(words)[l] == end.lines[l]);
        }
    }
}

/// Where no text word that goes in is empty, every line that comes out is
/// well formed: it holds text words only, none of them is empty, and it
/// keeps to the budget.
pub proof fn lemma_wrap_lines_wf(words: Seq<WordView>)
    requires
        forall|i: int|
            0 <= i < words.len() && (#[trigger] words[i]) is Text ==> is_shown_word(words[i]),
    ensures
        forall|l: int| 0 <= l < wrap_lines(words).len() ==> line_wf(#[trigger] wrap_lines(words)[l]),
{
    lemma_wrap_from_sound(words, true);
    let end = wrap_from(wrap_start(), words);
    assert forall|l: int| 0 <= l < wrap_lines(words).len() implies line_wf(
        #[trigger] wrap_lines(words)[l],
    ) by {
        if l < end.lines.len() {
            assert(wrap_lines(words)[l] == end.lines[l]);
        }
    }
}

proof fn lemma_line_width_grows(line: Seq<WordView>)
    requires
        line.len() > 0,
    ensures
        line_width(line.drop_last()) <= line_width(line),
        line.drop_last().len() > 0 ==> taken_width(line.drop_last()) + word_width(line.last())
            == line_width(line),
    decreases line.len(),
{
    let front = line.drop_last();
    if front.len() > 0 {
        assert(taken_width(front) >= 1);
    }
}

proof fn lemma_wrap_from_one_line(words: Seq<WordView>)
    requires
        line_is_text(words),
        line_width(words) <= LINE_BUDGET,
    ensures
        wrap_from(wrap_start(), words) == (WrapState {
            lines: Seq::empty(),
            current: words,
            width: taken_width(words),
        }),
    decreases words.len(),
{
    if words.len() == 0 {
        assert(words =~= Seq::<WordView>::empty());
    } else {
        let front = words.drop_last();
        let word = words.last();
        lemma_line_width_grows(words);
        assert forall|i: int| 0 <= i < front.len() implies (#[trigger] front[i]) is Text by {
            assert(front[i] == words[i]);
        }
        lemma_wrap_from_one_line(front);
        assert(word == words[words.len() - 1]);
        assert(front.push(word) =~= words);
    }
}

/// Words that fit the budget side by side stay on one line.
pub proof fn lemma_wrap_one_line(words: Seq<WordView>)
    requires
        words.len() > 0,
        line_is_text(words),
        line_width(words) <= LINE_BUDGET,
    ensures
        wrap_lines(words) == seq![words],
{
    lemma_wrap_from_one_line(words);
    assert(Seq::<Seq<WordView>>::empty().push(words) =~= seq![words]);
}

/// A word that no longer fits on a full line opens the next line: the line
/// before it stays as it was, and the word stands alone on the second.
pub proof fn lemma_wrap_overflow(words: Seq<WordView>, word: WordView)
    requires
        words.len() > 0,
        line_is_text(words),
        line_width(words) <= LINE_BUDGET,
        word is Text,
        line_width(words.push(word)) > LINE_BUDGET,
    ensures
        wrap_lines(words.push(word)) == seq![words, seq![word]],
{
    let all = words.push(word);
    lemma_wrap_from_one_line(words);
    assert(all.drop_last() =~= words);
    assert(all.last() == word);
    lemma_line_width_grows(all);
    let end = wrap_from(wrap_start(), all);
    assert(end == wrap_step(wrap_from(wrap_start(), words), word));
    assert(end.lines =~= seq![words]);
    assert(end.lines.push(end.current) =~= seq![words, seq![word]]);
}

/// A single word makes one line that holds it whole, however long it is.
pub proof fn lemma_wrap_single_word(content: Seq<char>, style: crate::style::InlineStyle)
    ensures
        wrap_lines(seq![WordView::Text(content, style)]) == seq![
            seq![WordView::Text(content, style)],
        ],
{
    let word = WordView::Text(content, style);
    let words = seq![word];
    assert(words.drop_last() =~= Seq::<WordView>::empty());
    assert(wrap_from(wrap_start(), words.drop_last()) == wrap_start());
    let end = wrap_from(wrap_start(), words);
    assert(end == wrap_step(wrap_start(), word));
    assert(end.current =~= words);
    assert(end.lines.push(end.current) =~= seq![words]);
}

/// Whether the break after line `l` comes as late as it can: the line that
/// follows is not empty, and its first word would have taken line `l` past
/// the budget.
pub open spec fn breaks_late(lines: Seq<Seq<WordView>>, l: int) -> bool {
    &&& lines[l + 1].len() > 0
    &&& line_width(lines[l].push(lines[l + 1][0])) > LINE_BUDGET
}

/// Whether every line holds a word and every break between two lines comes
/// as late as it can.
pub open spec fn is_greedy(lines: Seq<Seq<WordView>>) -> bool {
    &&& forall|l: int| 0 <= l < lines.len() ==> (#[trigger] lines[l]).len() > 0
    &&& forall|l: int| 0 <= l < lines.len() - 1 ==> #[trigger] breaks_late(lines, l)
}

/// What the wrapper keeps true while no break comes: its lines, the open
/// one last, are greedy.
spec fn state_greedy(state: WrapState) -> bool {
    &&& state.width == taken_width(state.current)
    &&& state.lines.len() > 0 ==> state.current.len() > 0
    &&& state.current.len() > 0 ==> is_greedy(state.lines.push(state.current))
}

proof fn lemma_wrap_from_greedy(words: Seq<WordView>)
    requires
        line_is_text(words),
    ensures
        state_greedy(wrap_from(wrap_start(), words)),
    decreases words.len(),
{
    if words.len() > 0 {
        let front = words.drop_last();
        let word = words.last();
        lemma_wrap_from_greedy(front);
        let mid = wrap_from(wrap_start(), front);
        let end = wrap_from(wrap_start(), words);
        let before = mid.lines.push(mid.current);
        let after = end.lines.push(end.current);
        if mid.width + word_width(word) > LINE_BUDGET && mid.current.len() > 0 {
            lemma_taken_width_one(word);
            lemma_taken_width_push(mid.current, word);
            assert forall|l: int| 0 <= l < after.len() - 1 implies #[trigger] breaks_late(
                after,
                l,
            ) by {
                if l < before.len() - 1 {
                    assert(breaks_late(before, l));
                }
            }
        } else {
            lemma_taken_width_push(mid.current, word);
            assert forall|l: int| 0 <= l < after.len() implies (#[trigger] after[l]).len() > 0 by {
                if l < mid.lines.len() {
                    assert(after[l] == before[l]);
                }
            }
            assert forall|l: int| 0 <= l < after.len() - 1 implies #[trigger] breaks_late(
                after,
                l,
            ) by {
                assert(breaks_late(before, l));
            }
        }
    }
}

/// Wrapping is greedy. Where no break forces a line to end, no line is left
/// empty, and a line ends only before a word that would have taken it past
/// the budget: no word that still fits is moved down.
pub proof fn lemma_wrap_is_greedy(words: Seq<WordView>)
    requires
        line_is_text(words),
    ensures
        is_greedy(wrap_lines(words)),
{
    lemma_wrap_from_greedy(words);
}

proof fn lemma_wrap_from_concat(state: WrapState, first: Seq<WordView>, second: Seq<WordView>)
    ensures
        wrap_from(state, first + second) == wrap_from(wrap_from(state, first), second),
    decreases second.len(),
{
    if second.len() == 0 {
        assert(first + second =~= first);
    } else {
        lemma_wrap_from_concat(state, first, second.drop_last());
        assert((first + second).drop_last() =~= first + second.drop_last());
        assert((first + second).last() == second.last());
    }
}

proof fn lemma_wrap_from_after_lines(lines: Seq<Seq<WordView>>, words: Seq<WordView>)
    ensures
        wrap_from(WrapState { lines, current: Seq::empty(), width: 0 }, words) == (WrapState {
            lines: lines + wrap_from(wrap_start(), words).lines,
            current: wrap_from(wrap_start(), words).current,
            width: wrap_from(wrap_start(), words).width,
        }),
    decreases words.len(),
{
    let state = WrapState { lines, current: Seq::empty(), width: 0 };
    if words.len() == 0 {
        assert(lines + wrap_start().lines =~= lines);
    } else {
        lemma_wrap_from_after_lines(lines, words.drop_last());
        let mid = wrap_from(wrap_start(), words.drop_last());
        let end = wrap_from(wrap_start(), words);
        assert(end == wrap_step(mid, words.last()));
        assert((lines + mid.lines).push(mid.current) =~= lines + mid.lines.push(mid.current));
        assert(wrap_from(state, words).lines =~= lines + end.lines);
    }
}

/// A break ends the line exactly where it stands. What comes before it is
/// laid out by itself, and its last line is closed even if it is empty; what
/// comes after it is laid out afresh. So a break that words follow leaves at
/// least two lines.
pub proof fn lemma_wrap_break(before: Seq<WordView>, after: Seq<WordView>)
    ensures
        wrap_lines(before + seq![WordView::Break] + after) == closed_lines(before) + wrap_lines(
            after,
        ),
        closed_lines(before) == if wrap_from(wrap_start(), before).current.len() > 0 {
            wrap_lines(before)
        } else {
            wrap_lines(before).push(Seq::empty())
        },
        after.len() > 0 ==> wrap_lines(before + seq![WordView::Break] + after).len() >= 2,
{
    let cut = before + seq![WordView::Break];
    let at_cut = wrap_from(wrap_start(), cut);
    assert(cut.drop_last() =~= before);
    assert(cut.last() == WordView::Break);
    assert(at_cut == wrap_step(wrap_from(wrap_start(), before), WordView::Break));
    assert(at_cut == WrapState { lines: closed_lines(before), current: Seq::empty(), width: 0 });
    lemma_wrap_from_concat(wrap_start(), cut, after);
    lemma_wrap_from_after_lines(closed_lines(before), after);
    let tail = wrap_from(wrap_start(), after);
    let end = wrap_from(wrap_start(), cut + after);
    assert(end.lines == closed_lines(before) + tail.lines);
    if tail.current.len() > 0 {
        assert((closed_lines(before) + tail.lines).push(tail.current) =~= closed_lines(before)
            + tail.lines.push(tail.current));
    }
    if wrap_from(wrap_start(), before).current.len() == 0 {
        assert(wrap_from(wrap_start(), before).current =~= Seq::<WordView>::empty());
    }
    if after.len() > 0 {
        lemma_wrap_lines_nonempty(after);
    }
}

/// Words, or breaks, always leave at least one line.
pub proof fn lemma_wrap_lines_nonempty(words: Seq<WordView>)
    requires
        words.len() > 0,
    ensures
        wrap_lines(words).len() >= 1,
{
    let mid = wrap_from(wrap_start(), words.drop_last());
    let end = wrap_from(wrap_start(), words);
    assert(end == wrap_step(mid, words.last()));
}

} // verus!
