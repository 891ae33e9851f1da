use crate::document::{Block, BlockView, Line};
use crate::segment::{Word, WordView};
use crate::wrap::{line_is_text, line_width, taken_width, word_width};
use crate::style::InlineStyle;
use vstd::prelude::*;
use vstd::string::*;

verus! {

/// One text element of a rendered row: what it shows, in which weight and
/// slant, and at which point size.
#[derive(Clone, Debug, PartialEq, Eq)]
pub struct TextRun {
    pub content: String,
    pub bold: bool,
    pub italic: bool,
    pub size: u16,
}

/// What a [`TextRun`] stands for.
pub struct TextRunView {
    pub content: Seq<char>,
    pub bold: bool,
    pub italic: bool,
    pub size: u16,
}

impl View for TextRun {
    type V = TextRunView;

    open spec fn view(&self) -> TextRunView {
        TextRunView {
            content: self.content@,
            bold: self.bold,
            italic: self.italic,
            size: self.size,
        }
    }
}

/// The view of each run of a row.
pub open spec fn runs_view(runs: Seq<TextRun>) -> Seq<TextRunView> {
    runs.map_values(|r: TextRun| r@)
}

/// The view of each row of a list.
pub open spec fn rows_view(rows: Seq<Vec<TextRun>>) -> Seq<Seq<TextRunView>> {
    rows.map_values(|r: Vec<TextRun>| runs_view(r@))
}

/// The run that shows `content` in the given style and size.
pub open spec fn styled_run(content: Seq<char>, style: InlineStyle, size: u16) -> TextRunView {
    TextRunView { content, bold: style.bold, italic: style.italic, size }
}

/// The run that separates two words of a row: one unstyled space.
pub open spec fn separator(size: u16) -> TextRunView {
    TextRunView { content: " "@, bold: false, italic: false, size }
}

/// The runs of a line: each text word in its own style, and a separator
/// after each of them but the line's last word.
pub open spec fn line_runs(line: Seq<WordView>, size: u16) -> Seq<TextRunView>
    decreases line.len(),
{
    if line.len() == 0 {
        Seq::empty()
    } else {
        match line.first() {
            WordView::Text(content, style) => {
                if line.len() > 1 {
                    seq![styled_run(content, style, size), separator(size)] + line_runs(
                        line.drop_first(),
                        size,
                    )
                } else {
                    seq![styled_run(content, style, size)]
                }
            },
            WordView::Break => line_runs(line.drop_first(), size),
        }
    }
}

/// The rows of a block: the runs of each of its lines, at the block's size.
pub open spec fn block_rows(block: BlockView) -> Seq<Seq<TextRunView>> {
    block.lines.map_values(|line: Seq<WordView>| line_runs(line, block.size))
}

impl InlineStyle {
    /// The text element that shows `content` in this style: bold where the
    /// bold flag is set, italic where the italic flag is set.
    pub fn apply(&self, content: &str, size: u16) -> (run: TextRun)
        ensures
            run@ == styled_run(content@, *self, size),
    {
        TextRun { content: String::from_str(content), bold: self.bold, italic: self.italic, size }
    }
}

impl Line {
    /// The text elements of this line, from left to right.
    pub fn runs(&self, size: u16) -> (runs: Vec<TextRun>)
        ensures
            runs_view(runs@) == line_runs(self@, size),
    {
        let mut runs: Vec<TextRun> = Vec::new();
        let mut i: usize = 0;
        assert(self@.skip(0) =~= self@);
        assert(runs_view(runs@) + line_runs(self@, size) =~= line_runs(self@, size));
        while i < self.words.len()
            invariant
                i <= self.words.len(),
                runs_view(runs@) + line_runs(self@.skip(i as int), size) == line_runs(self@, size),
            decreases self.words.len() - i,
        {
            let ghost rest = self@.skip(i as int);
            proof {
                assert(rest.first() == self.words@[i as int]@);
                assert(rest.drop_first() =~= self@.skip(i + 1));
            }
            match &self.words[i] {
                Word::Text(content, style) => {
                    let run = style.apply(content.as_str(), size);
                    let ghost before = runs_view(runs@);
                    proof {
                        assert(runs_view(runs@.push(run)) =~= before.push(run@));
                    }
                    runs.push(run);
                    if i + 1 < self.words.len() {
                        let gap = TextRun {
                            content: String::from_str(" "),
                            bold: false,
                            italic: false,
                            size,
                        };
                        proof {
                            assert(runs_view(runs@.push(gap)) =~= before.push(run@).push(gap@));
                            assert(before.push(run@).push(gap@) + line_runs(
                                self@.skip(i + 1),
                                size,
                            ) =~= before + line_runs(rest, size));
                        }
                        runs.push(gap);
                    } else {
                        proof {
                            assert(before.push(run@) + line_runs(self@.skip(i + 1), size)
                                =~= before + line_runs(rest, size));
                        }
                    }
                },
                Word::Break => {},
            }
            i += 1;
        }
        assert(runs_view(runs@) + line_runs(self@.skip(i as int), size) =~= runs_view(runs@));
        runs
    }
}

impl Block {
    /// The rows of this block, from top to bottom.
    pub fn rows(&self) -> (rows: Vec<Vec<TextRun>>)
        ensures
            rows_view(rows@) == block_rows(self@),
    {
        let mut rows: Vec<Vec<TextRun>> = Vec::new();
        let mut i: usize = 0;
        while i < self.lines.len()
            invariant
                i <= self.lines.len(),
                rows_view(rows@) == block_rows(self@).take(i as int),
            decreases self.lines.len() - i,
        {
            let row = self.lines[i].runs(self.size);
            proof {
                assert(rows_view(rows@.push(row)) =~= rows_view(rows@).push(runs_view(row@)));
                assert(block_rows(self@).take(i + 1) =~= block_rows(self@).take(i as int).push(
                    runs_view(row@),
                ));
            }
            rows.push(row);
            i += 1;
        }
        assert(block_rows(self@).take(i as int) =~= block_rows(self@));
        rows
    }
}

/// What a row shows: the contents of its runs, written one after another.
pub open spec fn runs_text(runs: Seq<TextRunView>) -> Seq<char>
    decreases runs.len(),
{
    if runs.len() == 0 {
        Seq::empty()
    } else {
        runs.first().content + runs_text(runs.drop_first())
    }
}

proof fn lemma_taken_width_from_first(line: Seq<WordView>)
    requires
        line.len() > 0,
    ensures
        taken_width(line) == word_width(line.first()) + 1 + taken_width(line.drop_first()),
    decreases line.len(),
{
    if line.len() == 1 {
        assert(line.drop_last() =~= Seq::<WordView>::empty());
        assert(line.drop_first() =~= Seq::<WordView>::empty());
        assert(taken_width(line.drop_last()) == 0);
        assert(taken_width(line.drop_first()) == 0);
    } else {
        let front = line.drop_last();
        lemma_taken_width_from_first(front);
        assert(front.first() == line.first());
        assert(front.drop_first() =~= line.drop_first().drop_last());
        assert(line.drop_first().last() == line.last());
    }
}

/// A row is as wide as the width that wrapping counts for its line: the
/// characters of its words, and one for each separator between two of them.
pub proof fn lemma_row_width(line: Seq<WordView>, size: u16)
    requires
        line_is_text(line),
    ensures
        runs_text(line_runs(line, size)).len() == line_width(line),
    decreases line.len(),
{
    reveal_strlit(" ");
    if line.len() > 0 {
        let rest = line.drop_first();
        assert forall|i: int| 0 <= i < rest.len() implies (#[trigger] rest[i]) is Text by {
            assert(rest[i] == line[i + 1]);
        }
        lemma_row_width(rest, size);
        lemma_taken_width_from_first(line);
        assert(line.first() == line[0]);
        match line.first() {
            WordView::Text(content, style) => {
                let head = styled_run(content, style, size);
                if line.len() > 1 {
                    let runs = line_runs(line, size);
                    let tail = line_runs(rest, size);
                    assert(runs == seq![head, separator(size)] + tail);
                    assert(runs.first() == head);
                    assert(runs.drop_first().first() == separator(size));
                    assert(runs.drop_first().drop_first() =~= tail);
                    assert(runs_text(runs) == head.content + runs_text(runs.drop_first()));
                    assert(runs_text(runs.drop_first()) == separator(size).content + runs_text(
                        tail,
                    ));
                } else {
                    let runs = line_runs(line, size);
                    assert(runs.drop_first() =~= Seq::<TextRunView>::empty());
                    assert(runs_text(runs.drop_first()) =~= Seq::<char>::empty());
                    assert(rest =~= Seq::<WordView>::empty());
                    assert(taken_width(rest) == 0);
                }
            },
            WordView::Break => {},
        }
    } else {
        assert(line_runs(line, size) =~= Seq::<TextRunView>::empty());
    }
}

} // verus!
