//! Line-drawing glyphs and the four-bit masks that stand for them.
//!
//! A mask has one bit for each direction in which a glyph reaches out of its
//! cell. Joining two glyphs is the bitwise or of their masks.

use vstd::prelude::*;

verus! {

/// The directions of a glyph, one bit each.
pub type BoxCharLayout = u8;

pub const BOX_UP: BoxCharLayout = 8;

pub const BOX_RIGHT: BoxCharLayout = 4;

pub const BOX_DOWN: BoxCharLayout = 2;

pub const BOX_LEFT: BoxCharLayout = 1;

/// The number of masks.
pub const BOX_CHAR_LAYOUT_COUNT: usize = 16;

/// The first code point of the Unicode block of line-drawing glyphs.
pub const BOX_CHAR_OFFSET: usize = 0x2500;

/// The number of code points in that block.
pub const BOX_CHAR_COUNT: usize = 128;

/// The glyph that reaches in exactly the directions of `layout`; a space for
/// the empty mask, and for a value that is no mask.
pub open spec fn glyph_of(layout: BoxCharLayout) -> char {
    if layout == 1 {
        '\u{2574}'
    } else if layout == 2 {
        '\u{2577}'
    } else if layout == 3 {
        '\u{256e}'
    } else if layout == 4 {
        '\u{2576}'
    } else if layout == 5 {
        '\u{2500}'
    } else if layout == 6 {
        '\u{256d}'
    } else if layout == 7 {
        '\u{252c}'
    } else if layout == 8 {
        '\u{2575}'
    } else if layout == 9 {
        '\u{256f}'
    } else if layout == 10 {
        '\u{2502}'
    } else if layout == 11 {
        '\u{2524}'
    } else if layout == 12 {
        '\u{2570}'
    } else if layout == 13 {
        '\u{2534}'
    } else if layout == 14 {
        '\u{251c}'
    } else if layout == 15 {
        '\u{253c}'
    } else {
        ' '
    }
}

/// The directions in which `c` reaches; the empty mask for every character
/// that is not one of the fifteen glyphs.
pub open spec fn layout_of(c: char) -> BoxCharLayout {
    if c == '\u{2574}' {
        1
    } else if c == '\u{2577}' {
        2
    } else if c == '\u{256e}' {
        3
    } else if c == '\u{2576}' {
        4
    } else if c == '\u{2500}' {
        5
    } else if c == '\u{256d}' {
        6
    } else if c == '\u{252c}' {
        7
    } else if c == '\u{2575}' {
        8
    } else if c == '\u{256f}' {
        9
    } else if c == '\u{2502}' {
        10
    } else if c == '\u{2524}' {
        11
    } else if c == '\u{2570}' {
        12
    } else if c == '\u{2534}' {
        13
    } else if c == '\u{251c}' {
        14
    } else if c == '\u{253c}' {
        15
    } else {
        0
    }
}

/// The glyph that results when a line in the directions of `layout` is drawn
/// over a cell that shows `c`.
pub open spec fn overlap(c: char, layout: BoxCharLayout) -> char {
    glyph_of(layout_of(c) | layout)
}

/// The two tables between masks and glyphs.
pub struct BoxCharMap {
    to_char: [char; 16],
    to_layout: [u8; 128],
}

impl BoxCharMap {
    /// Both tables hold what `glyph_of` and `layout_of` say.
    #[verifier::type_invariant]
    pub closed spec fn tables_agree(&self) -> bool {
        &&& forall|layout: u8|
            layout < 16 ==> #[trigger] self.to_char@[layout as int] == glyph_of(layout)
        &&& forall|k: int|
            0 <= k < 128 ==> #[trigger] self.to_layout@[k] == layout_of((0x2500 + k) as char)
    }

    pub fn new() -> (map: Self)
        ensures
            map.tables_agree(),
    {
        let mut to_char = [' ';16];
        let mut to_layout = [0u8;128];

        // Half lines
        to_char[8] = '\u{2575}';
        to_layout[0x75] = 8;
        to_char[4] = '\u{2576}';
        to_layout[0x76] = 4;
        to_char[2] = '\u{2577}';
        to_layout[0x77] = 2;
        to_char[1] = '\u{2574}';
        to_layout[0x74] = 1;

        // Full lines
        to_char[10] = '\u{2502}';
        to_layout[0x02] = 10;
        to_char[5] = '\u{2500}';
        to_layout[0x00] = 5;

        // Corners
        to_char[6] = '\u{256d}';
        to_layout[0x6d] = 6;
        to_char[3] = '\u{256e}';
        to_layout[0x6e] = 3;
        to_char[12] = '\u{2570}';
        to_layout[0x70] = 12;
        to_char[9] = '\u{256f}';
        to_layout[0x6f] = 9;

        // T shapes
        to_char[7] = '\u{252c}';
        to_layout[0x2c] = 7;
        to_char[13] = '\u{2534}';
        to_layout[0x34] = 13;
        to_char[14] = '\u{251c}';
        to_layout[0x1c] = 14;
        to_char[11] = '\u{2524}';
        to_layout[0x24] = 11;

        // Cross
        to_char[15] = '\u{253c}';
        to_layout[0x3c] = 15;

        Self { to_char, to_layout }
    }

    pub fn char_to_layout(&self, current_char: char) -> (layout: BoxCharLayout)
        ensures
            layout == layout_of(current_char),
            layout < 16,
    {
        proof {
            use_type_invariant(self);
        }
        let code = current_char as usize;
        if code < BOX_CHAR_OFFSET || code >= BOX_CHAR_OFFSET + BOX_CHAR_COUNT {
            return 0;
        }
        assert((0x2500 + (code - 0x2500)) as char == current_char);
        self.to_layout[code - BOX_CHAR_OFFSET]
    }

    pub fn layout_to_char(&self, layout: BoxCharLayout) -> (c: char)
        requires
            layout < 16,
        ensures
            c == glyph_of(layout),
    {
        proof {
            use_type_invariant(self);
        }
        self.to_char[layout as usize]
    }

    pub fn overlap_char(&self, c: char, layout: BoxCharLayout) -> (merged: char)
        requires
            layout < 16,
        ensures
            merged == overlap(c, layout),
    {
        let old_layout = self.char_to_layout(c);
        let new_layout = old_layout | layout;
        proof {
            lemma_or_stays_mask(old_layout, layout);
        }
        self.layout_to_char(new_layout)
    }
}

/// The or of two masks is a mask.
pub proof fn lemma_or_stays_mask(a: BoxCharLayout, b: BoxCharLayout)
    requires
        a < 16,
        b < 16,
    ensures
        (a | b) < 16,
{
    assert((a | b) < 16) by (bit_vector)
        requires
            a < 16,
            b < 16,
    ;
}

/// Every character has a mask, and the mask of a glyph leads back to it: the
/// tables are inverse to each other.
pub proof fn lemma_tables_inverse(c: char, layout: BoxCharLayout)
    ensures
        layout_of(c) < 16,
        layout < 16 ==> layout_of(glyph_of(layout)) == layout,
        layout_of(c) != 0 ==> glyph_of(layout_of(c)) == c,
{
}

/// Drawing one line over a cell and then another gives the glyph of both
/// lines drawn at once.
pub proof fn lemma_overlap_combines(c: char, a: BoxCharLayout, b: BoxCharLayout)
    requires
        a < 16,
        b < 16,
    ensures
        overlap(overlap(c, a), b) == overlap(c, a | b),
{
    let m = layout_of(c);
    lemma_or_stays_mask(m, a);
    lemma_tables_inverse(c, m | a);
    assert(((m | a) | b) == (m | (a | b))) by (bit_vector);
}

/// Drawing the same line over a cell twice gives the glyph of drawing it
/// once.
pub proof fn lemma_overlap_idempotent(c: char, layout: BoxCharLayout)
    requires
        layout < 16,
    ensures
        overlap(overlap(c, layout), layout) == overlap(c, layout),
{
    lemma_overlap_combines(c, layout, layout);
    assert((layout | layout) == layout) by (bit_vector);
}

/// Two lines drawn over a cell give the same glyph in either order.
pub proof fn lemma_overlap_commutes(c: char, a: BoxCharLayout, b: BoxCharLayout)
    requires
        a < 16,
        b < 16,
    ensures
        overlap(overlap(c, a), b) == overlap(overlap(c, b), a),
{
    lemma_overlap_combines(c, a, b);
    lemma_overlap_combines(c, b, a);
    assert((a | b) == (b | a)) by (bit_vector);
}

} // verus!
