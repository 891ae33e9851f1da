use vstd::prelude::*;

verus! {

/// The point size of body text, and of whatever follows a heading.
pub const BODY_SIZE: u16 = 14;

/// The inline styling of a run of text: two flags that are set and cleared
/// independently of each other.
#[derive(Clone, Copy, Debug, PartialEq, Eq, Structural)]
pub struct InlineStyle {
    pub bold: bool,
    pub italic: bool,
}

impl InlineStyle {
    /// The style of unstyled text.
    pub open spec fn plain() -> InlineStyle {
        InlineStyle { bold: false, italic: false }
    }

    /// This style with the bold flag set to `bold`.
    pub open spec fn with_bold(self, bold: bool) -> InlineStyle {
        InlineStyle { bold, italic: self.italic }
    }

    /// This style with the italic flag set to `italic`.
    pub open spec fn with_italic(self, italic: bool) -> InlineStyle {
        InlineStyle { bold: self.bold, italic }
    }
}

impl Default for InlineStyle {
    fn default() -> (style: InlineStyle)
        ensures
            style == InlineStyle::plain(),
    {
        InlineStyle { bold: false, italic: false }
    }
}

/// The point size of a heading of the given level: 26, 22, 18, 16 and 14 for
/// the levels 1 to 5, and 12 for every other level.
pub open spec fn heading_size_of(level: int) -> u16 {
    if level == 1 {
        26
    } else if level == 2 {
        22
    } else if level == 3 {
        18
    } else if level == 4 {
        16
    } else if level == 5 {
        14
    } else {
        12
    }
}

/// The point size of a heading of the given level.
pub fn heading_size(level: i32) -> (size: u16)
    ensures
        size == heading_size_of(level as int),
{
    match level {
        1 => 26,
        2 => 22,
        3 => 18,
        4 => 16,
        5 => 14,
        _ => 12,
    }
}

/// From level 1 on, a deeper heading is never larger than a shallower one,
/// and no heading is smaller than 12 points.
pub proof fn lemma_heading_sizes_shrink(shallow: int, deep: int)
    requires
        1 <= shallow <= deep,
    ensures
        heading_size_of(shallow) >= heading_size_of(deep) >= 12,
{
}

} // verus!
