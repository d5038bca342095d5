//! Styled cells and the row-major grid that holds one frame of them.

use vstd::prelude::*;
use vstd::slice::slice_subrange;

verus! {

/// A terminal colour.
#[derive(Clone, Copy, Debug, PartialEq, Eq, Structural)]
pub enum Color {
    Reset,
    Black,
    DarkGrey,
    Red,
    DarkRed,
    Green,
    DarkGreen,
    Yellow,
    DarkYellow,
    Blue,
    DarkBlue,
    Magenta,
    DarkMagenta,
    Cyan,
    DarkCyan,
    White,
    Grey,
    Rgb { r: u8, g: u8, b: u8 },
    AnsiValue(u8),
}

/// A set of text attributes (bold, italic, ...), one bit each.
#[derive(Clone, Copy, Debug, PartialEq, Eq, Structural)]
pub struct Attributes(pub u32);

/// The colours and attributes a cell is drawn with. `None` leaves a colour at
/// the terminal's default.
#[derive(Clone, Copy, Debug, PartialEq, Eq, Structural)]
pub struct ContentStyle {
    pub foreground_color: Option<Color>,
    pub background_color: Option<Color>,
    pub underline_color: Option<Color>,
    pub attributes: Attributes,
}

/// One cell of the screen: a character and the style it is drawn with.
#[derive(Clone, Copy, Debug, PartialEq, Eq, Structural)]
pub struct BufferCell {
    pub style: ContentStyle,
    pub content: char,
}

/// The style with no colour and no attribute set.
pub open spec fn plain_style() -> ContentStyle {
    ContentStyle {
        foreground_color: None,
        background_color: None,
        underline_color: None,
        attributes: Attributes(0),
    }
}

/// The blank cell: a space in the plain style.
pub open spec fn blank_cell() -> BufferCell {
    BufferCell { style: plain_style(), content: ' ' }
}

/// A grid of `len` blank cells.
pub open spec fn blank_cells(len: nat) -> Seq<BufferCell> {
    Seq::new(len, |i: int| blank_cell())
}

impl ContentStyle {
    pub fn new() -> (style: ContentStyle)
        ensures
            style == plain_style(),
    {
        ContentStyle {
            foreground_color: None,
            background_color: None,
            underline_color: None,
            attributes: Attributes(0),
        }
    }

    /// The cell that shows `content` in this style.
    pub fn apply(self, content: char) -> (cell: BufferCell)
        ensures
            cell == (BufferCell { style: self, content }),
    {
        BufferCell { style: self, content }
    }
}

impl BufferCell {
    pub fn new(style: ContentStyle, content: char) -> (cell: BufferCell)
        ensures
            cell == (BufferCell { style, content }),
    {
        BufferCell { style, content }
    }

    /// The cell that shows `content` in the plain style.
    pub fn plain(content: char) -> (cell: BufferCell)
        ensures
            cell == (BufferCell { style: plain_style(), content }),
    {
        ContentStyle::new().apply(content)
    }

    pub fn content(&self) -> (content: &char)
        ensures
            *content == self.content,
    {
        &self.content
    }

    pub fn style(&self) -> (style: &ContentStyle)
        ensures
            *style == self.style,
    {
        &self.style
    }
}

pub fn empty_cell() -> (cell: BufferCell)
    ensures
        cell == blank_cell(),
{
    ContentStyle::new().apply(' ')
}

/// A `width` by `height` grid of cells, stored row by row.
pub struct ScreenBuffer {
    buffer: Vec<BufferCell>,
    width: usize,
    height: usize,
}

impl View for ScreenBuffer {
    type V = Seq<BufferCell>;

    /// The cells, row by row.
    closed spec fn view(&self) -> Seq<BufferCell> {
        self.buffer@
    }
}

impl ScreenBuffer {
    pub closed spec fn spec_width(&self) -> usize {
        self.width
    }

    pub closed spec fn spec_height(&self) -> usize {
        self.height
    }

    /// The grid holds exactly `width * height` cells.
    pub closed spec fn wf(&self) -> bool {
        self.buffer@.len() == self.width * self.height
    }

    pub proof fn lemma_wf_len(&self)
        requires
            self.wf(),
        ensures
            self@.len() == self.spec_width() * self.spec_height(),
    {
    }

    pub fn new() -> (buffer: Self)
        ensures
            buffer.wf(),
            buffer.spec_width() == 0,
            buffer.spec_height() == 0,
            buffer@ == Seq::<BufferCell>::empty(),
    {
        Self { buffer: Vec::new(), width: 0, height: 0 }
    }

    /// Gives the grid new dimensions. The stored cells keep their place in the
    /// row-by-row sequence: those past the new size are dropped, and blank
    /// cells fill what is new. The number of cells must be one that the
    /// machine can count.
    pub fn resize(&mut self, width: usize, height: usize)
        requires
            width * height <= usize::MAX,
        ensures
            final(self).wf(),
            final(self).spec_width() == width,
            final(self).spec_height() == height,
            final(self)@.len() == width * height,
            forall|i: int|
                0 <= i < width * height ==> #[trigger] final(self)@[i] == if i < old(self)@.len() {
                    old(self)@[i]
                } else {
                    blank_cell()
                },
    {
        let len = width * height;
        self.buffer.truncate(len);
        while self.buffer.len() < len
            invariant
                self.buffer@.len() <= len,
                len <= old(self)@.len() ==> self.buffer@.len() == len,
                len > old(self)@.len() ==> self.buffer@.len() >= old(self)@.len(),
                forall|i: int|
                    0 <= i < self.buffer@.len() ==> #[trigger] self.buffer@[i] == if i < old(
                        self,
                    )@.len() {
                        old(self)@[i]
                    } else {
                        blank_cell()
                    },
            decreases len - self.buffer.len(),
        {
            self.buffer.push(empty_cell());
        }
        self.width = width;
        self.height = height;
    }

    /// Makes every cell blank.
    pub fn clear(&mut self)
        ensures
            final(self).wf() == old(self).wf(),
            final(self).spec_width() == old(self).spec_width(),
            final(self).spec_height() == old(self).spec_height(),
            final(self)@ == blank_cells(old(self)@.len()),
    {
        let len = self.buffer.len();
        let mut i: usize = 0;
        while i < len
            invariant
                i <= len,
                self.buffer@.len() == len,
                self.width == old(self).width,
                self.height == old(self).height,
                forall|j: int| 0 <= j < i ==> #[trigger] self.buffer@[j] == blank_cell(),
            decreases len - i,
        {
            self.buffer[i] = empty_cell();
            i += 1;
        }
        assert(self.buffer@ =~= blank_cells(len as nat));
    }

    pub fn get_by_index(&self, i: usize) -> (cell: Option<&BufferCell>)
        ensures
            cell == if i < self@.len() {
                Some(&self@[i as int])
            } else {
                None
            },
    {
        if i < self.buffer.len() {
            Some(&self.buffer[i])
        } else {
            None
        }
    }

    /// Stores `cell` at position `i` of the row-by-row sequence; does nothing
    /// when `i` is past the end.
    pub fn set_by_index(&mut self, i: usize, cell: BufferCell)
        ensures
            final(self).wf() == old(self).wf(),
            final(self).spec_width() == old(self).spec_width(),
            final(self).spec_height() == old(self).spec_height(),
            final(self)@ == if i < old(self)@.len() {
                old(self)@.update(i as int, cell)
            } else {
                old(self)@
            },
    {
        if i < self.buffer.len() {
            self.buffer[i] = cell;
        }
    }

    /// The cell in column `x` of row `y`, or `None` outside the grid.
    pub fn get(&self, x: usize, y: usize) -> (cell: Option<&BufferCell>)
        requires
            self.wf(),
        ensures
            cell == if x < self.spec_width() && y < self.spec_height() {
                Some(&self@[y * self.spec_width() + x])
            } else {
                None
            },
    {
        if x < self.width && y < self.height {
            proof {
                lemma_cell_index(self.width as int, self.height as int, x as int, y as int);
                assert(self.buffer@.len() == self.buffer.len());
            }
            Some(&self.buffer[y * self.width + x])
        } else {
            None
        }
    }

    /// Stores `cell` in column `x` of row `y`; does nothing outside the grid.
    pub fn set(&mut self, x: usize, y: usize, cell: BufferCell)
        requires
            old(self).wf(),
        ensures
            final(self).wf(),
            final(self).spec_width() == old(self).spec_width(),
            final(self).spec_height() == old(self).spec_height(),
            final(self)@ == if x < old(self).spec_width() && y < old(self).spec_height() {
                old(self)@.update(y * old(self).spec_width() + x, cell)
            } else {
                old(self)@
            },
    {
        if x < self.width && y < self.height {
            proof {
                lemma_cell_index(self.width as int, self.height as int, x as int, y as int);
                assert(self.buffer@.len() == self.buffer.len());
            }
            let i = y * self.width + x;
            self.buffer[i] = cell;
        }
    }

    /// The cells of row `y`, or `None` below the grid.
    pub fn row(&self, y: usize) -> (row: Option<&[BufferCell]>)
        requires
            self.wf(),
        ensures
            y < self.spec_height() ==> row.is_some() && row.unwrap()@ == self@.subrange(
                y * self.spec_width(),
                y * self.spec_width() + self.spec_width(),
            ),
            y >= self.spec_height() ==> row.is_none(),
    {
        if y < self.height {
            proof {
                lemma_row_bounds(self.width as int, self.height as int, y as int);
                assert(self.buffer@.len() == self.buffer.len());
            }
            let start = y * self.width;
            let end = start + self.width;
            Some(slice_subrange(self.buffer.as_slice(), start, end))
        } else {
            None
        }
    }
}

/// Column `x` of row `y` lies inside a `width` by `height` grid stored row by
/// row.
pub proof fn lemma_cell_index(width: int, height: int, x: int, y: int)
    requires
        0 <= x < width,
        0 <= y < height,
    ensures
        0 <= y * width + x < width * height,
        0 <= y * width,
{
    assert(y * width + x < width * height) by (nonlinear_arith)
        requires
            0 <= x < width,
            0 <= y < height,
    ;
    assert(0 <= y * width) by (nonlinear_arith)
        requires
            0 <= width,
            0 <= y,
    ;
}

/// Row `y` lies inside a `width` by `height` grid stored row by row.
pub proof fn lemma_row_bounds(width: int, height: int, y: int)
    requires
        0 <= width,
        0 <= y < height,
    ensures
        0 <= y * width,
        y * width + width <= width * height,
{
    assert(y * width + width <= width * height) by (nonlinear_arith)
        requires
            0 <= width,
            0 <= y < height,
    ;
    assert(0 <= y * width) by (nonlinear_arith)
        requires
            0 <= width,
            0 <= y,
    ;
}

} // verus!
