use crate::segment::{words_view, Word, WordView};
use crate::wrap::line_fits;
use vstd::prelude::*;

verus! {

/// One wrapped line: the words that are shown side by side, a single space
/// apart.
#[derive(Clone, Debug, PartialEq, Eq)]
pub struct Line {
    pub words: Vec<Word>,
}

impl View for Line {
    type V = Seq<WordView>;

    open spec fn view(&self) -> Seq<WordView> {
        words_view(self.words@)
    }
}

/// The view of each line of a list.
pub open spec fn lines_view(lines: Seq<Line>) -> Seq<Seq<WordView>> {
    lines.map_values(|l: Line| l@)
}

/// One heading, paragraph or list item: its lines, all in one point size.
#[derive(Clone, Debug, PartialEq, Eq)]
pub struct Block {
    pub size: u16,
    pub lines: Vec<Line>,
}

/// What a [`Block`] stands for.
pub struct BlockView {
    pub size: u16,
    pub lines: Seq<Seq<WordView>>,
}

impl View for Block {
    type V = BlockView;

    open spec fn view(&self) -> BlockView {
        BlockView { size: self.size, lines: lines_view(self.lines@) }
    }
}

/// The view of each block of a list.
pub open spec fn blocks_view(blocks: Seq<Block>) -> Seq<BlockView> {
    blocks.map_values(|b: Block| b@)
}

/// The laid out text: its blocks from top to bottom.
#[derive(Clone, Debug, PartialEq, Eq)]
pub struct Document {
    pub blocks: Vec<Block>,
}

impl View for Document {
    type V = Seq<BlockView>;

    open spec fn view(&self) -> Seq<BlockView> {
        blocks_view(self.blocks@)
    }
}

/// What holds of every word that is shown: it is text, not a break, and not
/// empty.
pub open spec fn is_shown_word(word: WordView) -> bool {
    word matches WordView::Text(content, _) && content.len() > 0
}

/// Whether every word of a line is a shown word.
pub open spec fn line_shown(line: Seq<WordView>) -> bool {
    forall|i: int| 0 <= i < line.len() ==> is_shown_word(#[trigger] line[i])
}

/// A line is well formed when each of its words is a shown word and it
/// keeps to the width budget.
pub open spec fn line_wf(line: Seq<WordView>) -> bool {
    line_shown(line) && line_fits(line)
}

/// A block is well formed when each of its lines is.
pub open spec fn block_wf(block: BlockView) -> bool {
    forall|i: int| 0 <= i < block.lines.len() ==> line_wf(#[trigger] block.lines[i])
}

/// A document is well formed when each of its blocks is.
pub open spec fn document_wf(blocks: Seq<BlockView>) -> bool {
    forall|i: int| 0 <= i < blocks.len() ==> block_wf(#[trigger] blocks[i])
}

} // verus!
