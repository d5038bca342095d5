//! The renderer: a stack of nested drawing regions over a double-buffered grid
//! of cells, line drawing that joins touching borders, and the comparison of
//! two frames that yields the terminal writes.

use vstd::prelude::*;
use crate::box_chars::{
    lemma_or_stays_mask, lemma_overlap_combines, overlap, BoxCharLayout, BoxCharMap, BOX_DOWN,
    BOX_LEFT, BOX_RIGHT, BOX_UP,
};
use crate::screen_buffer::{
    blank_cells, lemma_cell_index, plain_style, Attributes, BufferCell, Color, ContentStyle,
    ScreenBuffer,
};

verus! {

/// A drawing region: an offset into the grid and a size that clips.
#[derive(Clone, Copy, Debug, PartialEq, Eq, Structural)]
pub struct RenderContext {
    pub x: usize,
    pub y: usize,
    pub width: usize,
    pub height: usize,
}

/// The colours and attributes of the terminal's pen.
#[derive(Clone, Copy, Debug, PartialEq, Eq, Structural)]
pub struct TerminalStyle {
    pub foreground: Color,
    pub background: Color,
    pub underline: Color,
    pub attributes: Attributes,
}

/// One write to the terminal.
#[derive(Debug, PartialEq, Eq)]
pub enum Command {
    /// Moves the cursor to a column and a row.
    MoveTo(usize, usize),
    SetForegroundColor(Color),
    SetBackgroundColor(Color),
    SetUnderlineColor(Color),
    SetAttributes(Attributes),
    /// Prints text at the cursor, in the pen's style.
    Print(String),
}

/// One write to the terminal, as a plain value.
pub enum Write {
    MoveTo(usize, usize),
    SetForegroundColor(Color),
    SetBackgroundColor(Color),
    SetUnderlineColor(Color),
    SetAttributes(Attributes),
    Print(Seq<char>),
}

impl View for Command {
    type V = Write;

    open spec fn view(&self) -> Write {
        match self {
            Command::MoveTo(column, row) => Write::MoveTo(*column, *row),
            Command::SetForegroundColor(color) => Write::SetForegroundColor(*color),
            Command::SetBackgroundColor(color) => Write::SetBackgroundColor(*color),
            Command::SetUnderlineColor(color) => Write::SetUnderlineColor(*color),
            Command::SetAttributes(attributes) => Write::SetAttributes(*attributes),
            Command::Print(text) => Write::Print(text@),
        }
    }
}

/// The writes that `commands` stand for.
pub open spec fn writes_of(commands: Seq<Command>) -> Seq<Write> {
    Seq::new(commands.len(), |i: int| commands[i]@)
}

/// The pen that the terminal starts with.
pub open spec fn default_pen() -> TerminalStyle {
    TerminalStyle {
        foreground: Color::Reset,
        background: Color::Reset,
        underline: Color::Reset,
        attributes: Attributes(0),
    }
}

/// The pen that shows a cell of style `style`: a colour that the style leaves
/// open is the terminal's default.
pub open spec fn pen_for(style: ContentStyle) -> TerminalStyle {
    TerminalStyle {
        foreground: match style.foreground_color {
            Some(color) => color,
            None => Color::Reset,
        },
        background: match style.background_color {
            Some(color) => color,
            None => Color::Reset,
        },
        underline: match style.underline_color {
            Some(color) => color,
            None => Color::Reset,
        },
        attributes: style.attributes,
    }
}

/// The writes that turn the pen `from` into the pen `to`: one for each part
/// that differs, and none for a part that is already right.
pub open spec fn pen_writes(from: TerminalStyle, to: TerminalStyle) -> Seq<Write> {
    (if to.foreground != from.foreground {
        seq![Write::SetForegroundColor(to.foreground)]
    } else {
        seq![]
    }) + (if to.background != from.background {
        seq![Write::SetBackgroundColor(to.background)]
    } else {
        seq![]
    }) + (if to.underline != from.underline {
        seq![Write::SetUnderlineColor(to.underline)]
    } else {
        seq![]
    }) + (if to.attributes != from.attributes {
        seq![Write::SetAttributes(to.attributes)]
    } else {
        seq![]
    })
}

/// What a renderer holds, as plain values.
pub struct RendererView {
    pub width: usize,
    pub height: usize,
    /// The frame that is being drawn, row by row.
    pub current: Seq<BufferCell>,
    /// The frame that the terminal shows, row by row.
    pub previous: Seq<BufferCell>,
    /// The nested regions, the active one last.
    pub contexts: Seq<RenderContext>,
    /// The colours and attributes that the terminal was last set to.
    pub terminal: TerminalStyle,
}

impl RendererView {
    /// The active region: the last one pushed, or the whole grid.
    pub open spec fn context(self) -> RenderContext {
        if self.contexts.len() > 0 {
            self.contexts.last()
        } else {
            RenderContext { x: 0, y: 0, width: self.width, height: self.height }
        }
    }

    /// The column of position `k` of the row-by-row sequence.
    pub open spec fn column(self, k: int) -> int {
        k % (self.width as int)
    }

    /// The row of position `k` of the row-by-row sequence.
    pub open spec fn row(self, k: int) -> int {
        k / (self.width as int)
    }

    /// Whether position `k` lies in the active region.
    pub open spec fn in_context(self, k: int) -> bool {
        let c = self.context();
        &&& c.x <= self.column(k) < c.x + c.width
        &&& c.y <= self.row(k) < c.y + c.height
    }

    /// Whether the place `(x, y)` of the active region is a cell of the grid:
    /// it lies within the region's size and, moved by the region's offset,
    /// within the grid.
    pub open spec fn visible(self, x: int, y: int) -> bool {
        let c = self.context();
        &&& 0 <= x < c.width
        &&& 0 <= y < c.height
        &&& c.x + x < self.width
        &&& c.y + y < self.height
    }

    /// The position of the place `(x, y)` of the active region in the
    /// row-by-row sequence.
    pub open spec fn position(self, x: int, y: int) -> int {
        let c = self.context();
        (c.y + y) * self.width + (c.x + x)
    }

    /// The cell at the place `(x, y)` of the active region, if it is visible.
    pub open spec fn cell(self, x: int, y: int) -> Option<BufferCell> {
        if self.visible(x, y) {
            Some(self.current[self.position(x, y)])
        } else {
            None
        }
    }

    /// The same renderer with `cell` at the place `(x, y)` of the active
    /// region, if that place is visible; unchanged if not.
    pub open spec fn with_cell(self, x: int, y: int, cell: BufferCell) -> RendererView {
        if self.visible(x, y) {
            RendererView { current: self.current.update(self.position(x, y), cell), ..self }
        } else {
            self
        }
    }

    /// The same renderer with every cell of the active region replaced by what
    /// `painter` makes of its place in the region and of the cell.
    pub open spec fn repaint(
        self,
        painter: spec_fn(int, int, BufferCell) -> BufferCell,
    ) -> RendererView {
        let c = self.context();
        RendererView {
            current: Seq::new(
                self.current.len(),
                |k: int|
                    if self.in_context(k) {
                        painter(self.column(k) - c.x, self.row(k) - c.y, self.current[k])
                    } else {
                        self.current[k]
                    },
            ),
            ..self
        }
    }

    /// The same renderer after lines were drawn: `mask` gives for each place of
    /// the active region the directions of the lines through it, and each cell
    /// on a line shows the glyph of its own lines joined with the new ones.
    pub open spec fn stroke(self, mask: spec_fn(int, int) -> BoxCharLayout) -> RendererView {
        self.repaint(stroke_painter(mask))
    }

    /// The same renderer after `text` was written in the plain style from the
    /// place `(x, y)` of the active region to the right.
    pub open spec fn with_text(self, x: int, y: int, text: Seq<char>) -> RendererView {
        self.repaint(text_painter(x, y, text))
    }

    /// The grid and the shown frame have the size that the renderer has.
    pub open spec fn wf(self) -> bool {
        &&& self.current.len() == self.width * self.height
        &&& self.previous.len() == self.width * self.height
    }

    /// Whether the cell at position `k` differs from the one that the terminal
    /// shows.
    pub open spec fn changed(self, k: int) -> bool {
        self.current[k] != self.previous[k]
    }

    /// Whether a run begins at position `k`: the cell there has changed, and
    /// the cell to its left is in another row, has not changed, or has another
    /// style.
    pub open spec fn starts_run(self, k: int) -> bool {
        &&& self.changed(k)
        &&& (self.column(k) == 0 || !self.changed(k - 1) || self.current[k - 1].style
            != self.current[k].style)
    }

    /// Where the run that begins at position `k` ends: the first position from
    /// `from` on that lies in the next row, or whose cell has not changed or
    /// has another style than the cell at `k`.
    pub open spec fn run_end(self, k: int, from: int) -> int
        decreases self.current.len() - from,
    {
        if from < 0 || from >= self.current.len() || self.column(from) == 0 || !self.changed(from)
            || self.current[from].style != self.current[k].style {
            from
        } else {
            self.run_end(k, from + 1)
        }
    }

    /// The characters of the cells from position `from` up to position `to`.
    pub open spec fn text_between(self, from: int, to: int) -> Seq<char> {
        Seq::new((to - from) as nat, |i: int| self.current[from + i].content)
    }

    /// The writes for the run that begins at position `k`, with the pen as
    /// `pen`: the cursor moves to the run's first cell, the pen changes where
    /// it differs from what the run's style asks for, and the run's characters
    /// are printed.
    pub open spec fn run_writes(self, k: int, pen: TerminalStyle) -> Seq<Write> {
        seq![Write::MoveTo(self.column(k) as usize, self.row(k) as usize)] + pen_writes(
            pen,
            pen_for(self.current[k].style),
        ) + seq![Write::Print(self.text_between(k, self.run_end(k, k + 1)))]
    }

    /// The writes for all runs that begin at position `k` or later, row by
    /// row, with the pen as `pen` at the start.
    pub open spec fn writes_from(self, k: int, pen: TerminalStyle) -> Seq<Write>
        decreases self.current.len() - k,
    {
        if k < 0 || k >= self.current.len() {
            seq![]
        } else if self.starts_run(k) {
            self.run_writes(k, pen) + self.writes_from(k + 1, pen_for(self.current[k].style))
        } else {
            self.writes_from(k + 1, pen)
        }
    }

    /// The pen after all runs that begin at position `k` or later were
    /// written, with the pen as `pen` at the start.
    pub open spec fn pen_from(self, k: int, pen: TerminalStyle) -> TerminalStyle
        decreases self.current.len() - k,
    {
        if k < 0 || k >= self.current.len() {
            pen
        } else if self.starts_run(k) {
            self.pen_from(k + 1, pen_for(self.current[k].style))
        } else {
            self.pen_from(k + 1, pen)
        }
    }

    /// The writes that bring the terminal from the frame it shows to the frame
    /// that was drawn: for every largest stretch of changed cells of one style
    /// within a row, one move of the cursor, the pen's changes, and one print.
    pub open spec fn frame_writes(self) -> Seq<Write> {
        self.writes_from(0, self.terminal)
    }

    /// The renderer after the frame was flushed: the drawn frame is the shown
    /// one, the frame to draw is blank, and the pen is where the last run left
    /// it.
    pub open spec fn flushed(self) -> RendererView {
        RendererView {
            current: blank_cells(self.current.len()),
            previous: self.current,
            terminal: self.pen_from(0, self.terminal),
            ..self
        }
    }

    /// The same renderer with one more region, given by its place in the grid.
    pub open spec fn pushed(self, context: RenderContext) -> RendererView {
        RendererView { contexts: self.contexts.push(context), ..self }
    }

    /// The same renderer without its last region.
    pub open spec fn popped(self) -> RendererView {
        if self.contexts.len() > 0 {
            RendererView { contexts: self.contexts.drop_last(), ..self }
        } else {
            self
        }
    }

    /// The region that lies at `(x, y)` of the active region, with the given
    /// size, by its place in the grid.
    pub open spec fn nested(self, x: usize, y: usize, width: usize, height: usize) -> RenderContext {
        nested_in(self.context(), x, y, width, height)
    }
}

/// The region that lies at `(x, y)` of the region `outer`, with the given
/// size, by its place in the grid. An offset that leaves the range of the
/// machine's integers stops at their maximum, where no cell is.
pub open spec fn nested_in(
    outer: RenderContext,
    x: usize,
    y: usize,
    width: usize,
    height: usize,
) -> RenderContext {
    RenderContext {
        x: if outer.x + x > usize::MAX {
            usize::MAX
        } else {
            (outer.x + x) as usize
        },
        y: if outer.y + y > usize::MAX {
            usize::MAX
        } else {
            (outer.y + y) as usize
        },
        width,
        height,
    }
}

/// The cell `cell` after a line in the directions of `mask` was drawn over it:
/// the style stays, the glyph is joined.
pub open spec fn join_cell(cell: BufferCell, mask: BoxCharLayout) -> BufferCell {
    BufferCell { style: cell.style, content: overlap(cell.content, mask) }
}

/// The directions of a vertical line with capped ends through the place
/// `(px, py)`: the line runs down from `(x, y)` over `length` cells, and a line
/// of fewer than two cells is no line.
pub open spec fn v_line_mask(x: int, y: int, length: int, px: int, py: int) -> BoxCharLayout {
    if length > 1 && px == x && y <= py < y + length {
        if py == y {
            BOX_DOWN
        } else if py == y + length - 1 {
            BOX_UP
        } else {
            10
        }
    } else {
        0
    }
}

/// The directions of a horizontal line with capped ends through the place
/// `(px, py)`: the line runs right from `(x, y)` over `length` cells, and a
/// line of fewer than two cells is no line.
pub open spec fn h_line_mask(x: int, y: int, length: int, px: int, py: int) -> BoxCharLayout {
    if length > 1 && py == y && x <= px < x + length {
        if px == x {
            BOX_RIGHT
        } else if px == x + length - 1 {
            BOX_LEFT
        } else {
            5
        }
    } else {
        0
    }
}

/// The directions of the border of a box through the place `(px, py)`: the box
/// has its corner at `(x, y)` and the given size, and a box without width or
/// height has no border.
pub open spec fn box_mask(x: int, y: int, width: int, height: int, px: int, py: int) -> BoxCharLayout {
    if width < 1 || height < 1 {
        0
    } else {
        v_line_mask(x, y, height, px, py) | v_line_mask(x + width - 1, y, height, px, py)
            | h_line_mask(x, y, width, px, py) | h_line_mask(x, y + height - 1, width, px, py)
    }
}

/// A position of the row-by-row sequence is given by its row and its column.
pub proof fn lemma_position(width: int, k: int, column: int, row: int)
    requires
        0 <= column < width,
        0 <= row,
        0 <= k,
    ensures
        (k == row * width + column) <==> (k % width == column && k / width == row),
{
    vstd::arithmetic::div_mod::lemma_fundamental_div_mod(k, width);
    if k == row * width + column {
        vstd::arithmetic::div_mod::lemma_fundamental_div_mod_converse(k, width, row, column);
    }
    if k % width == column && k / width == row {
        assert(width * (k / width) == row * width) by (nonlinear_arith)
            requires
                k / width == row,
        ;
    }
}

/// What drawing lines makes of a cell: a cell on a line shows the glyph of its
/// own lines joined with the new ones, any other cell stays.
pub open spec fn stroke_painter(mask: spec_fn(int, int) -> BoxCharLayout) -> spec_fn(
    int,
    int,
    BufferCell,
) -> BufferCell {
    |x: int, y: int, cell: BufferCell|
        if mask(x, y) != 0 {
            join_cell(cell, mask(x, y))
        } else {
            cell
        }
}

/// What writing `text` from `(x, y)` to the right makes of a cell: a cell under
/// the text shows its character in the plain style, any other cell stays.
pub open spec fn text_painter(x: int, y: int, text: Seq<char>) -> spec_fn(
    int,
    int,
    BufferCell,
) -> BufferCell {
    |px: int, py: int, cell: BufferCell|
        if py == y && x <= px < x + text.len() {
            BufferCell { style: plain_style(), content: text[px - x] }
        } else {
            cell
        }
}

/// Changing one cell after a repaint is a repaint: if `before` leaves the
/// place `(x, y)` alone, and `after` differs from `before` only in making
/// `change` of the cell there, then repainting by `before` and changing the
/// cell at `(x, y)`, where it is visible, repaints by `after`.
pub proof fn lemma_repaint_step(
    v: RendererView,
    before: spec_fn(int, int, BufferCell) -> BufferCell,
    after: spec_fn(int, int, BufferCell) -> BufferCell,
    x: int,
    y: int,
    change: spec_fn(BufferCell) -> BufferCell,
)
    requires
        v.wf(),
        0 <= x,
        0 <= y,
        forall|c: BufferCell| #[trigger] before(x, y, c) == c,
        forall|c: BufferCell| #[trigger] after(x, y, c) == change(c),
        forall|px: int, py: int, c: BufferCell|
            (px != x || py != y) ==> #[trigger] after(px, py, c) == before(px, py, c),
    ensures
        (match v.repaint(before).cell(x, y) {
            Some(c) => v.repaint(before).with_cell(x, y, change(c)),
            None => v.repaint(before),
        }) == v.repaint(after),
{
    let s = v.repaint(before);
    let goal = v.repaint(after);
    let ctx = v.context();
    let w = v.width as int;
    let h = v.height as int;
    assert(s.context() == ctx);
    if s.visible(x, y) {
        lemma_cell_index(w, h, ctx.x + x, ctx.y + y);
    }
    let stepped = match s.cell(x, y) {
        Some(c) => s.with_cell(x, y, change(c)),
        None => s,
    };
    assert(stepped.current =~= goal.current) by {
        assert forall|k: int| 0 <= k < goal.current.len() implies stepped.current[k]
            == goal.current[k] by {
            lemma_row_column(w, h, k);
            if ctx.x + x < w {
                lemma_position(w, k, ctx.x + x, ctx.y + y);
            }
        }
    }
}

/// Every position of a `width` by `height` grid has a column and a row in it.
pub proof fn lemma_row_column(width: int, height: int, k: int)
    requires
        0 <= width,
        0 <= height,
        0 <= k < width * height,
    ensures
        width > 0,
        0 <= k % width < width,
        0 <= k / width < height,
{
    assert(width > 0) by (nonlinear_arith)
        requires
            0 <= width,
            0 <= k < width * height,
    ;
    vstd::arithmetic::div_mod::lemma_fundamental_div_mod(k, width);
    vstd::arithmetic::div_mod::lemma_mod_bound(k, width);
    let r = k / width;
    let c = k % width;
    assert(0 <= r < height) by (nonlinear_arith)
        requires
            k == width * r + c,
            0 <= c < width,
            0 <= k < width * height,
            width > 0,
    ;
}

/// Nothing is drawn outside the active region: a repaint leaves every cell
/// outside it as it was, and so does every write to a place that is not
/// visible.
pub proof fn lemma_drawing_stays_in_region(
    v: RendererView,
    painter: spec_fn(int, int, BufferCell) -> BufferCell,
    x: int,
    y: int,
    cell: BufferCell,
)
    ensures
        forall|k: int|
            0 <= k < v.current.len() && !v.in_context(k) ==> #[trigger] v.repaint(painter).current[k]
                == v.current[k],
        !v.visible(x, y) ==> v.with_cell(x, y, cell) == v && v.cell(x, y).is_none(),
{
}

/// Drawing no line changes nothing.
pub proof fn lemma_stroke_nothing(v: RendererView, mask: spec_fn(int, int) -> BoxCharLayout)
    requires
        forall|px: int, py: int| #[trigger] mask(px, py) == 0,
    ensures
        v.stroke(mask) == v,
{
    assert(v.stroke(mask).current =~= v.current);
}

/// Drawing lines and then more lines draws the lines of both at once.
pub proof fn lemma_stroke_twice(
    v: RendererView,
    first: spec_fn(int, int) -> BoxCharLayout,
    second: spec_fn(int, int) -> BoxCharLayout,
    both: spec_fn(int, int) -> BoxCharLayout,
)
    requires
        forall|px: int, py: int| #[trigger] first(px, py) < 16,
        forall|px: int, py: int| #[trigger] second(px, py) < 16,
        forall|px: int, py: int| #[trigger] both(px, py) == first(px, py) | second(px, py),
    ensures
        v.stroke(first).stroke(second) == v.stroke(both),
{
    let s = v.stroke(first);
    let t = s.stroke(second);
    let goal = v.stroke(both);
    let ctx = v.context();
    assert(t.current =~= goal.current) by {
        assert forall|k: int| 0 <= k < goal.current.len() implies t.current[k] == goal.current[k] by {
            if v.in_context(k) {
                let px = v.column(k) - ctx.x;
                let py = v.row(k) - ctx.y;
                let a = first(px, py);
                let b = second(px, py);
                let c = v.current[k];
                assert(both(px, py) == a | b);
                assert(s.in_context(k));
                assert((a | b) == 0 <==> (a == 0 && b == 0)) by (bit_vector);
                assert(a == 0 ==> (a | b) == b) by (bit_vector);
                assert(b == 0 ==> (a | b) == a) by (bit_vector);
                if a != 0 && b != 0 {
                    lemma_overlap_combines(c.content, a, b);
                }
            }
        }
    }
}

/// Lines drawn in either order show the same.
pub proof fn lemma_stroke_commutes(
    v: RendererView,
    first: spec_fn(int, int) -> BoxCharLayout,
    second: spec_fn(int, int) -> BoxCharLayout,
)
    requires
        forall|px: int, py: int| #[trigger] first(px, py) < 16,
        forall|px: int, py: int| #[trigger] second(px, py) < 16,
    ensures
        v.stroke(first).stroke(second) == v.stroke(second).stroke(first),
{
    let both = |px: int, py: int| first(px, py) | second(px, py);
    assert forall|px: int, py: int| #[trigger] both(px, py) == second(px, py) | first(px, py) by {
        let a = first(px, py);
        let b = second(px, py);
        assert(a | b == b | a) by (bit_vector);
    }
    lemma_stroke_twice(v, first, second, both);
    lemma_stroke_twice(v, second, first, both);
}

/// Drawing the same lines twice shows what drawing them once shows.
pub proof fn lemma_stroke_idempotent(v: RendererView, mask: spec_fn(int, int) -> BoxCharLayout)
    requires
        forall|px: int, py: int| #[trigger] mask(px, py) < 16,
    ensures
        v.stroke(mask).stroke(mask) == v.stroke(mask),
{
    assert forall|px: int, py: int| #[trigger] mask(px, py) == mask(px, py) | mask(px, py) by {
        let m = mask(px, py);
        assert(m == m | m) by (bit_vector);
    }
    lemma_stroke_twice(v, mask, mask, mask);
}

/// A renderer: the frame being drawn, the frame on the terminal, the nested
/// drawing regions, and the style that the terminal was last set to.
pub struct Renderer {
    current_buffer: ScreenBuffer,
    previous_buffer: ScreenBuffer,
    width: usize,
    height: usize,
    current_foreground_color: Color,
    current_background_color: Color,
    current_underline_color: Color,
    current_attributes: Attributes,
    render_context_global: RenderContext,
    render_context_stack: Vec<RenderContext>,
    box_chars: BoxCharMap,
}

impl View for Renderer {
    type V = RendererView;

    closed spec fn view(&self) -> RendererView {
        RendererView {
            width: self.width,
            height: self.height,
            current: self.current_buffer@,
            previous: self.previous_buffer@,
            contexts: self.render_context_stack@,
            terminal: TerminalStyle {
                foreground: self.current_foreground_color,
                background: self.current_background_color,
                underline: self.current_underline_color,
                attributes: self.current_attributes,
            },
        }
    }
}

impl Renderer {
    /// Both frames have the renderer's size, and the region that is active when
    /// none was pushed is the whole grid.
    pub closed spec fn wf(&self) -> bool {
        &&& self.current_buffer.wf()
        &&& self.previous_buffer.wf()
        &&& self.current_buffer.spec_width() == self.width
        &&& self.current_buffer.spec_height() == self.height
        &&& self.previous_buffer.spec_width() == self.width
        &&& self.previous_buffer.spec_height() == self.height
        &&& self.render_context_global == (RenderContext {
            x: 0,
            y: 0,
            width: self.width,
            height: self.height,
        })
    }

    /// A well-formed renderer holds two frames of its own size.
    pub proof fn lemma_wf_view(&self)
        requires
            self.wf(),
        ensures
            self@.wf(),
    {
        self.current_buffer.lemma_wf_len();
        self.previous_buffer.lemma_wf_len();
    }

    /// A renderer of no size: nothing drawn, nothing shown, no region pushed,
    /// the terminal's style at its defaults.
    pub fn new() -> (renderer: Self)
        ensures
            renderer.wf(),
            renderer@ == (RendererView {
                width: 0,
                height: 0,
                current: Seq::empty(),
                previous: Seq::empty(),
                contexts: Seq::empty(),
                terminal: default_pen(),
            }),
    {
        Renderer {
            current_buffer: ScreenBuffer::new(),
            previous_buffer: ScreenBuffer::new(),
            width: 0,
            height: 0,
            current_foreground_color: Color::Reset,
            current_background_color: Color::Reset,
            current_underline_color: Color::Reset,
            current_attributes: Attributes(0),
            render_context_global: RenderContext { x: 0, y: 0, width: 0, height: 0 },
            render_context_stack: Vec::new(),
            box_chars: BoxCharMap::new(),
        }
    }

    /// Gives both frames the size `width` by `height` and makes them blank, so
    /// that the drawn frame and the shown frame have the same size after every
    /// resize. The pushed regions stay as they are. The number of cells must be
    /// one that the machine can count.
    pub fn resize(&mut self, width: usize, height: usize)
        requires
            width * height <= usize::MAX,
        ensures
            final(self).wf(),
            final(self)@ == (RendererView {
                width,
                height,
                current: blank_cells((width * height) as nat),
                previous: blank_cells((width * height) as nat),
                ..old(self)@
            }),
    {
        self.width = width;
        self.height = height;
        self.current_buffer.resize(width, height);
        self.previous_buffer.resize(width, height);
        self.current_buffer.clear();
        self.previous_buffer.clear();
        self.render_context_global.width = width;
        self.render_context_global.height = height;
        self.render_context_global.x = 0;
        self.render_context_global.y = 0;
    }

    /// Leaves the active region; does nothing when none was pushed.
    pub fn pop_render_context(&mut self)
        ensures
            final(self).wf() == old(self).wf(),
            final(self)@ == old(self)@.popped(),
    {
        self.render_context_stack.pop();
    }

    /// Enters the region that lies at `(x, y)` of the active region, or of the
    /// grid when no region was pushed, with the given size. The region is kept
    /// by its place in the grid.
    pub fn push_render_context(&mut self, x: usize, y: usize, width: usize, height: usize)
        requires
            old(self).wf(),
        ensures
            final(self).wf(),
            final(self)@ == old(self)@.pushed(old(self)@.nested(x, y, width, height)),
    {
        let current = *self.current_render_context();
        self.render_context_stack.push(
            RenderContext {
                x: current.x.saturating_add(x),
                y: current.y.saturating_add(y),
                width,
                height,
            },
        );
    }

    /// Enters the region that lies at `(x, y)` of the active region; another
    /// name for `push_render_context`.
    pub fn push_relative_render_context(&mut self, x: usize, y: usize, width: usize, height: usize)
        requires
            old(self).wf(),
        ensures
            final(self).wf(),
            final(self)@ == old(self)@.pushed(old(self)@.nested(x, y, width, height)),
    {
        self.push_render_context(x, y, width, height);
    }

    pub fn current_render_context(&self) -> (context: &RenderContext)
        requires
            self.wf(),
        ensures
            *context == self@.context(),
    {
        let depth = self.render_context_stack.len();
        if depth > 0 {
            &self.render_context_stack[depth - 1]
        } else {
            &self.render_context_global
        }
    }

    /// The cell at the place `(x, y)` of the active region; `None` where that
    /// place lies outside the region or outside the grid.
    pub fn get(&self, x: usize, y: usize) -> (cell: Option<&BufferCell>)
        requires
            self.wf(),
        ensures
            match cell {
                Some(found) => self@.cell(x as int, y as int) == Some(*found),
                None => self@.cell(x as int, y as int).is_none(),
            },
    {
        let context = self.current_render_context();
        if x >= context.width || y >= context.height {
            return None;
        }
        match (x.checked_add(context.x), y.checked_add(context.y)) {
            (Some(column), Some(row)) => self.current_buffer.get(column, row),
            _ => None,
        }
    }

    /// Stores `cell` at the place `(x, y)` of the active region; does nothing
    /// where that place lies outside the region or outside the grid.
    pub fn set(&mut self, x: usize, y: usize, cell: BufferCell)
        requires
            old(self).wf(),
        ensures
            final(self).wf(),
            final(self)@ == old(self)@.with_cell(x as int, y as int, cell),
    {
        let context = *self.current_render_context();
        if x >= context.width || y >= context.height {
            return ;
        }
        match (x.checked_add(context.x), y.checked_add(context.y)) {
            (Some(column), Some(row)) => {
                self.current_buffer.set(column, row, cell);
            },
            _ => {},
        }
    }

    pub fn size(&self) -> (size: (usize, usize))
        ensures
            size == (self@.width, self@.height),
    {
        (self.width, self.height)
    }

    /// Draws a line in the directions of `box_char` through the place `(x, y)`
    /// of the active region: the cell there keeps its style and shows the glyph
    /// of its own lines joined with the new one. Does nothing where the place
    /// is not visible.
    pub fn draw_box_char(&mut self, x: usize, y: usize, box_char: BoxCharLayout)
        requires
            old(self).wf(),
            box_char < 16,
        ensures
            final(self).wf(),
            final(self)@ == match old(self)@.cell(x as int, y as int) {
                Some(cell) => old(self)@.with_cell(x as int, y as int, join_cell(cell, box_char)),
                None => old(self)@,
            },
    {
        let found = match self.get(x, y) {
            Some(cell) => Some(*cell),
            None => None,
        };
        if let Some(cell) = found {
            let new_char = self.box_chars.overlap_char(*cell.content(), box_char);
            self.set(x, y, BufferCell::new(*cell.style(), new_char));
        }
    }
}

/// The vertical line that runs down from `(x, y)` over `length` cells.
pub open spec fn v_line(x: int, y: int, length: int) -> spec_fn(int, int) -> BoxCharLayout {
    |px: int, py: int| v_line_mask(x, y, length, px, py)
}

/// The horizontal line that runs right from `(x, y)` over `length` cells.
pub open spec fn h_line(x: int, y: int, length: int) -> spec_fn(int, int) -> BoxCharLayout {
    |px: int, py: int| h_line_mask(x, y, length, px, py)
}

/// The border of the box with its corner at `(x, y)` and the given size.
pub open spec fn box_lines(x: int, y: int, width: int, height: int) -> spec_fn(
    int,
    int,
) -> BoxCharLayout {
    |px: int, py: int| box_mask(x, y, width, height, px, py)
}

/// The part of a vertical line that is drawn first: its two ends, and the
/// cells above row `done`.
spec fn v_line_upto(x: int, y: int, length: int, done: int) -> spec_fn(int, int) -> BoxCharLayout {
    |px: int, py: int|
        if py < done || py == y + length - 1 {
            v_line_mask(x, y, length, px, py)
        } else {
            0
        }
}

/// The part of a horizontal line that is drawn first: its two ends, and the
/// cells left of column `done`.
spec fn h_line_upto(x: int, y: int, length: int, done: int) -> spec_fn(int, int) -> BoxCharLayout {
    |px: int, py: int|
        if px < done || px == x + length - 1 {
            h_line_mask(x, y, length, px, py)
        } else {
            0
        }
}

/// The single line through `(x, y)`.
spec fn one_cell(x: int, y: int, mask: BoxCharLayout) -> spec_fn(int, int) -> BoxCharLayout {
    |px: int, py: int|
        if px == x && py == y {
            mask
        } else {
            0
        }
}

/// Lines that agree at every place within the size of the active region draw
/// the same: what lies outside the region is not drawn.
pub proof fn lemma_stroke_same(
    v: RendererView,
    a: spec_fn(int, int) -> BoxCharLayout,
    b: spec_fn(int, int) -> BoxCharLayout,
)
    requires
        forall|px: int, py: int|
            0 <= px < v.context().width && 0 <= py < v.context().height ==> #[trigger] a(px, py)
                == b(px, py),
    ensures
        v.stroke(a) == v.stroke(b),
{
    let c = v.context();
    assert(v.stroke(a).current =~= v.stroke(b).current) by {
        assert forall|k: int| 0 <= k < v.current.len() implies v.stroke(a).current[k] == v.stroke(
            b,
        ).current[k] by {
            if v.in_context(k) {
                assert(a(v.column(k) - c.x, v.row(k) - c.y) == b(
                    v.column(k) - c.x,
                    v.row(k) - c.y,
                ));
            }
        }
    }
}

/// No line.
spec fn no_line() -> spec_fn(int, int) -> BoxCharLayout {
    |px: int, py: int| 0
}

/// Drawing the same line or the same box twice shows what drawing it once
/// shows, whatever the place and the size.
pub proof fn lemma_drawn_twice(v: RendererView, x: int, y: int, width: int, height: int)
    ensures
        v.stroke(h_line(x, y, width)).stroke(h_line(x, y, width)) == v.stroke(h_line(x, y, width)),
        v.stroke(v_line(x, y, height)).stroke(v_line(x, y, height)) == v.stroke(
            v_line(x, y, height),
        ),
        v.stroke(box_lines(x, y, width, height)).stroke(box_lines(x, y, width, height))
            == v.stroke(box_lines(x, y, width, height)),
{
    lemma_stroke_idempotent(v, h_line(x, y, width));
    lemma_stroke_idempotent(v, v_line(x, y, height));
    assert forall|px: int, py: int| #[trigger] box_lines(x, y, width, height)(px, py) < 16 by {
        lemma_box_mask_is_mask(x, y, width, height, px, py);
    }
    lemma_stroke_idempotent(v, box_lines(x, y, width, height));
}

proof fn lemma_box_mask_is_mask(x: int, y: int, width: int, height: int, px: int, py: int)
    ensures
        box_mask(x, y, width, height, px, py) < 16,
{
    if width >= 1 && height >= 1 {
        let left = v_line_mask(x, y, height, px, py);
        let right = v_line_mask(x + width - 1, y, height, px, py);
        let top = h_line_mask(x, y, width, px, py);
        let bottom = h_line_mask(x, y + height - 1, width, px, py);
        lemma_or_stays_mask(left, right);
        lemma_or_stays_mask(left | right, top);
        lemma_or_stays_mask(left | right | top, bottom);
    }
}

/// Drawing one more cell of a line: `after` is `before` with a line through
/// `(x, y)`, where `before` has none.
proof fn lemma_stroke_step(
    v: RendererView,
    before: spec_fn(int, int) -> BoxCharLayout,
    after: spec_fn(int, int) -> BoxCharLayout,
    x: int,
    y: int,
    mask: BoxCharLayout,
)
    requires
        v.wf(),
        0 <= x,
        0 <= y,
        mask != 0,
        before(x, y) == 0,
        after(x, y) == mask,
        forall|px: int, py: int| (px != x || py != y) ==> #[trigger] after(px, py) == before(px, py),
    ensures
        (match v.stroke(before).cell(x, y) {
            Some(c) => v.stroke(before).with_cell(x, y, join_cell(c, mask)),
            None => v.stroke(before),
        }) == v.stroke(after),
{
    lemma_repaint_step(
        v,
        stroke_painter(before),
        stroke_painter(after),
        x,
        y,
        |c: BufferCell| join_cell(c, mask),
    );
}

impl Renderer {
    /// Draws a vertical line with capped ends down from the place `(x, y)` of
    /// the active region over `length` cells, joining it with the lines that
    /// the cells already show. A line of fewer than two cells is not drawn.
    /// Only the cells within the region are visited.
    pub fn draw_v_capped_line(&mut self, x: usize, y: usize, length: usize)
        requires
            old(self).wf(),
        ensures
            final(self).wf(),
            final(self)@ == old(self)@.stroke(v_line(x as int, y as int, length as int)),
    {
        let ghost v = self@;
        let ghost (gx, gy, gl) = (x as int, y as int, length as int);
        proof {
            self.lemma_wf_view();
        }
        if length <= 1 {
            proof {
                lemma_stroke_nothing(v, v_line(gx, gy, gl));
            }
            return ;
        }
        proof {
            lemma_stroke_nothing(v, one_cell(gx, gy, 0));
            lemma_stroke_step(v, one_cell(gx, gy, 0), one_cell(gx, gy, BOX_DOWN), gx, gy, BOX_DOWN);
        }
        self.draw_box_char(x, y, BOX_DOWN);
        match y.checked_add(length - 1) {
            Some(last) => {
                proof {
                    lemma_stroke_step(
                        v,
                        one_cell(gx, gy, BOX_DOWN),
                        v_line_upto(gx, gy, gl, gy + 1),
                        gx,
                        gy + gl - 1,
                        BOX_UP,
                    );
                }
                self.draw_box_char(x, last, BOX_UP);
            },
            None => {
                proof {
                    lemma_stroke_same(
                        v,
                        one_cell(gx, gy, BOX_DOWN),
                        v_line_upto(gx, gy, gl, gy + 1),
                    );
                }
            },
        }
        let height = self.current_render_context().height;
        let end = y.saturating_add(length - 1);
        let limit = if end < height {
            end
        } else {
            height
        };
        let ghost mut done = gy + 1;
        if y < limit {
            let mut row = y + 1;
            while row < limit
                invariant
                    self.wf(),
                    v.wf(),
                    length > 1,
                    y < row,
                    row <= limit || row == y + 1,
                    limit <= gy + gl - 1,
                    limit <= usize::MAX,
                    gx == x,
                    gy == y,
                    gl == length,
                    done == row,
                    self@ == v.stroke(v_line_upto(gx, gy, gl, row as int)),
                decreases limit - row,
            {
                assert(BOX_DOWN | BOX_UP == 10) by (bit_vector);
                proof {
                    lemma_stroke_step(
                        v,
                        v_line_upto(gx, gy, gl, row as int),
                        v_line_upto(gx, gy, gl, row + 1),
                        gx,
                        row as int,
                        10,
                    );
                }
                self.draw_box_char(x, row, BOX_DOWN | BOX_UP);
                row += 1;
                proof {
                    done = row as int;
                }
            }
        }
        proof {
            lemma_stroke_same(v, v_line_upto(gx, gy, gl, done), v_line(gx, gy, gl));
        }
    }

    /// Draws a horizontal line with capped ends right from the place `(x, y)`
    /// of the active region over `length` cells, joining it with the lines that
    /// the cells already show. A line of fewer than two cells is not drawn.
    /// Only the cells within the region are visited.
    pub fn draw_h_capped_line(&mut self, x: usize, y: usize, length: usize)
        requires
            old(self).wf(),
        ensures
            final(self).wf(),
            final(self)@ == old(self)@.stroke(h_line(x as int, y as int, length as int)),
    {
        let ghost v = self@;
        let ghost (gx, gy, gl) = (x as int, y as int, length as int);
        proof {
            self.lemma_wf_view();
        }
        if length <= 1 {
            proof {
                lemma_stroke_nothing(v, h_line(gx, gy, gl));
            }
            return ;
        }
        proof {
            lemma_stroke_nothing(v, one_cell(gx, gy, 0));
            lemma_stroke_step(
                v,
                one_cell(gx, gy, 0),
                one_cell(gx, gy, BOX_RIGHT),
                gx,
                gy,
                BOX_RIGHT,
            );
        }
        self.draw_box_char(x, y, BOX_RIGHT);
        match x.checked_add(length - 1) {
            Some(last) => {
                proof {
                    lemma_stroke_step(
                        v,
                        one_cell(gx, gy, BOX_RIGHT),
                        h_line_upto(gx, gy, gl, gx + 1),
                        gx + gl - 1,
                        gy,
                        BOX_LEFT,
                    );
                }
                self.draw_box_char(last, y, BOX_LEFT);
            },
            None => {
                proof {
                    lemma_stroke_same(
                        v,
                        one_cell(gx, gy, BOX_RIGHT),
                        h_line_upto(gx, gy, gl, gx + 1),
                    );
                }
            },
        }
        let width = self.current_render_context().width;
        let end = x.saturating_add(length - 1);
        let limit = if end < width {
            end
        } else {
            width
        };
        let ghost mut done = gx + 1;
        if x < limit {
            let mut column = x + 1;
            while column < limit
                invariant
                    self.wf(),
                    v.wf(),
                    length > 1,
                    x < column,
                    column <= limit || column == x + 1,
                    limit <= gx + gl - 1,
                    limit <= usize::MAX,
                    gx == x,
                    gy == y,
                    gl == length,
                    done == column,
                    self@ == v.stroke(h_line_upto(gx, gy, gl, column as int)),
                decreases limit - column,
            {
                assert(BOX_RIGHT | BOX_LEFT == 5) by (bit_vector);
                proof {
                    lemma_stroke_step(
                        v,
                        h_line_upto(gx, gy, gl, column as int),
                        h_line_upto(gx, gy, gl, column + 1),
                        column as int,
                        gy,
                        5,
                    );
                }
                self.draw_box_char(column, y, BOX_RIGHT | BOX_LEFT);
                column += 1;
                proof {
                    done = column as int;
                }
            }
        }
        proof {
            lemma_stroke_same(v, h_line_upto(gx, gy, gl, done), h_line(gx, gy, gl));
        }
    }

    /// Draws the border of the box with its corner at the place `(x, y)` of
    /// the active region and the given size, joining it with the lines that
    /// the cells already show. A box without width or height is not drawn.
    pub fn draw_box(&mut self, x: usize, y: usize, width: usize, height: usize)
        requires
            old(self).wf(),
        ensures
            final(self).wf(),
            final(self)@ == old(self)@.stroke(
                box_lines(x as int, y as int, width as int, height as int),
            ),
    {
        let ghost v = self@;
        let ghost (gx, gy, gw, gh) = (x as int, y as int, width as int, height as int);
        if width == 0 || height == 0 {
            proof {
                lemma_stroke_nothing(v, box_lines(gx, gy, gw, gh));
            }
            return ;
        }
        let ghost left = v_line(gx, gy, gh);
        let ghost top = h_line(gx, gy, gw);
        let ghost mut right = no_line();
        let ghost mut bottom = no_line();
        self.draw_v_capped_line(x, y, height);
        let ghost one = self@;
        match x.checked_add(width - 1) {
            Some(far) => {
                self.draw_v_capped_line(far, y, height);
                proof {
                    right = v_line(gx + gw - 1, gy, gh);
                }
            },
            None => {
                proof {
                    lemma_stroke_nothing(one, no_line());
                }
            },
        }
        assert(self@ == v.stroke(left).stroke(right));
        self.draw_h_capped_line(x, y, width);
        let ghost three = self@;
        match y.checked_add(height - 1) {
            Some(far) => {
                self.draw_h_capped_line(x, far, width);
                proof {
                    bottom = h_line(gx, gy + gh - 1, gw);
                }
            },
            None => {
                proof {
                    lemma_stroke_nothing(three, no_line());
                }
            },
        }
        assert(self@ == v.stroke(left).stroke(right).stroke(top).stroke(bottom));
        proof {
            let sides = |px: int, py: int| left(px, py) | right(px, py);
            let open = |px: int, py: int| sides(px, py) | top(px, py);
            let all = |px: int, py: int| open(px, py) | bottom(px, py);
            assert forall|px: int, py: int| (#[trigger] sides(px, py)) < 16 by {
                lemma_or_stays_mask(left(px, py), right(px, py));
            }
            assert forall|px: int, py: int| (#[trigger] open(px, py)) < 16 by {
                lemma_or_stays_mask(sides(px, py), top(px, py));
            }
            lemma_stroke_twice(v, left, right, sides);
            lemma_stroke_twice(v, sides, top, open);
            lemma_stroke_twice(v, open, bottom, all);
            lemma_stroke_same(v, all, box_lines(gx, gy, gw, gh));
        }
    }

    /// Writes `text` in the plain style from the place `(x, y)` of the active
    /// region to the right, one character to a cell. What lies outside the
    /// region or the grid is not written.
    pub fn draw_text(&mut self, x: usize, y: usize, text: &str)
        requires
            old(self).wf(),
        ensures
            final(self).wf(),
            final(self)@ == old(self)@.with_text(x as int, y as int, text@),
    {
        let ghost v = self@;
        let ghost (gx, gy) = (x as int, y as int);
        proof {
            self.lemma_wf_view();
            assert(v.with_text(gx, gy, text@.take(0)).current =~= v.current);
        }
        let length = text.unicode_len();
        let mut i: usize = 0;
        while i < length
            invariant
                self.wf(),
                v.wf(),
                i <= length,
                length == text@.len(),
                gx == x,
                gy == y,
                self@ == v.with_text(gx, gy, text@.take(i as int)),
            decreases length - i,
        {
            let c = text.get_char(i);
            proof {
                lemma_repaint_step(
                    v,
                    text_painter(gx, gy, text@.take(i as int)),
                    text_painter(gx, gy, text@.take(i + 1)),
                    gx + i,
                    gy,
                    |cell: BufferCell| BufferCell { style: plain_style(), content: c },
                );
            }
            match x.checked_add(i) {
                Some(column) => {
                    self.set(column, y, BufferCell::plain(c));
                },
                None => {},
            }
            i += 1;
        }
        assert(text@.take(length as int) =~= text@);
    }
}

/// `String::push` of the standard library: the text grows by the one
/// character given, at its end.
pub assume_specification[ String::push ](text: &mut String, ch: char)
    ensures
        final(text)@ == old(text)@.push(ch),
;

/// Where no cell has changed, no run begins: nothing is written and the pen
/// stays.
pub proof fn lemma_nothing_changed(v: RendererView, k: int, pen: TerminalStyle)
    requires
        forall|j: int| 0 <= j < v.current.len() ==> !v.changed(j),
    ensures
        v.writes_from(k, pen) == Seq::<Write>::empty(),
        v.pen_from(k, pen) == pen,
    decreases v.current.len() - k,
{
    if 0 <= k < v.current.len() {
        lemma_nothing_changed(v, k + 1, pen);
    }
}

/// A frame that equals the frame on the terminal is flushed without a write.
pub proof fn lemma_same_frame_writes_nothing(v: RendererView)
    requires
        v.current == v.previous,
    ensures
        v.frame_writes() == Seq::<Write>::empty(),
        v.flushed().terminal == v.terminal,
{
    lemma_nothing_changed(v, 0, v.terminal);
}

/// Flushing the same frame twice writes nothing the second time: after the
/// flush of `first`, a renderer into which the same cells were drawn again has
/// nothing to write.
pub proof fn lemma_second_flush_is_empty(first: RendererView, second: RendererView)
    requires
        second.previous == first.flushed().previous,
        second.current == first.current,
    ensures
        second.frame_writes() == Seq::<Write>::empty(),
{
    lemma_same_frame_writes_nothing(second);
}

/// Appends one write.
fn push_command(out: &mut Vec<Command>, command: Command)
    ensures
        writes_of(final(out)@) == writes_of(old(out)@).push(command@),
{
    out.push(command);
    assert(writes_of(out@) =~= writes_of(old(out)@).push(command@));
}

impl Renderer {
    /// The drawn cell and the shown cell in column `x` of row `y`.
    fn cells_at(&self, x: usize, y: usize) -> (cells: (BufferCell, BufferCell))
        requires
            self.wf(),
            x < self.width,
            y < self.height,
        ensures
            cells.0 == self@.current[y * self.width + x],
            cells.1 == self@.previous[y * self.width + x],
    {
        let drawn = match self.current_buffer.get(x, y) {
            Some(cell) => *cell,
            None => BufferCell::plain(' '),
        };
        let shown = match self.previous_buffer.get(x, y) {
            Some(cell) => *cell,
            None => BufferCell::plain(' '),
        };
        (drawn, shown)
    }

    /// The characters of the drawn cells of row `y` from column `start` up to
    /// column `end`.
    fn slice_string(&self, start: usize, end: usize, y: usize) -> (text: String)
        requires
            self.wf(),
            start <= end <= self.width,
            y < self.height,
        ensures
            text@ == self@.text_between(y * self.width + start, y * self.width + end),
    {
        let mut text = String::new();
        let mut x = start;
        while x < end
            invariant
                self.wf(),
                start <= x <= end <= self.width,
                y < self.height,
                text@ == self@.text_between(y * self.width + start, y * self.width + x),
            decreases end - x,
        {
            let (drawn, _) = self.cells_at(x, y);
            text.push(*drawn.content());
            x += 1;
            assert(text@ =~= self@.text_between(y * self.width + start, y * self.width + x));
        }
        text
    }

    /// Appends to `out` the writes that give the terminal the pen for `style`,
    /// one for each part of the pen that differs, and remembers the new pen.
    fn queue_pen(&mut self, out: &mut Vec<Command>, style: &ContentStyle)
        requires
            old(self).wf(),
        ensures
            final(self).wf(),
            final(self)@ == (RendererView { terminal: pen_for(*style), ..old(self)@ }),
            writes_of(final(out)@) == writes_of(old(out)@) + pen_writes(
                old(self)@.terminal,
                pen_for(*style),
            ),
    {
        let foreground_color = match style.foreground_color {
            Some(color) => color,
            None => Color::Reset,
        };
        let background_color = match style.background_color {
            Some(color) => color,
            None => Color::Reset,
        };
        let underline_color = match style.underline_color {
            Some(color) => color,
            None => Color::Reset,
        };
        let attributes = style.attributes;
        let ghost before = writes_of(out@);
        let ghost mut added = Seq::<Write>::empty();
        assert(writes_of(out@) =~= before + added);

        if foreground_color != self.current_foreground_color {
            push_command(out, Command::SetForegroundColor(foreground_color));
            self.current_foreground_color = foreground_color;
            proof {
                added = added.push(Write::SetForegroundColor(foreground_color));
            }
            assert(writes_of(out@) =~= before + added);
        }
        if background_color != self.current_background_color {
            push_command(out, Command::SetBackgroundColor(background_color));
            self.current_background_color = background_color;
            proof {
                added = added.push(Write::SetBackgroundColor(background_color));
            }
            assert(writes_of(out@) =~= before + added);
        }
        if underline_color != self.current_underline_color {
            push_command(out, Command::SetUnderlineColor(underline_color));
            self.current_underline_color = underline_color;
            proof {
                added = added.push(Write::SetUnderlineColor(underline_color));
            }
            assert(writes_of(out@) =~= before + added);
        }
        if attributes != self.current_attributes {
            push_command(out, Command::SetAttributes(attributes));
            self.current_attributes = attributes;
            proof {
                added = added.push(Write::SetAttributes(attributes));
            }
            assert(writes_of(out@) =~= before + added);
        }
        assert(added =~= pen_writes(old(self)@.terminal, pen_for(*style)));
    }

    /// Appends the writes for one run to `out`: the cursor moves to column `x`
    /// of row `y`, the pen changes where `style` asks for another than the
    /// terminal has, and `content` is printed. The renderer remembers the new
    /// pen.
    fn queue_styled_string(
        &mut self,
        out: &mut Vec<Command>,
        x: usize,
        y: usize,
        style: &ContentStyle,
        content: String,
    )
        requires
            old(self).wf(),
        ensures
            final(self).wf(),
            final(self)@ == (RendererView { terminal: pen_for(*style), ..old(self)@ }),
            writes_of(final(out)@) == writes_of(old(out)@) + seq![Write::MoveTo(x, y)] + pen_writes(
                old(self)@.terminal,
                pen_for(*style),
            ) + seq![Write::Print(content@)],
    {
        let ghost before = writes_of(out@);
        let ghost pens = pen_writes(self@.terminal, pen_for(*style));
        let ghost text = content@;
        push_command(out, Command::MoveTo(x, y));
        self.queue_pen(out, style);
        push_command(out, Command::Print(content));
        assert(writes_of(out@) =~= before + seq![Write::MoveTo(x, y)] + pens + seq![
            Write::Print(text),
        ]);
    }

    /// Compares the drawn frame with the frame on the terminal and returns the
    /// writes that bring the terminal up to date: one run of writes for every
    /// largest stretch of changed cells of one style within a row, rows from
    /// top to bottom. Then the drawn frame becomes the shown one, and the frame
    /// to draw is blank again.
    pub fn render(&mut self) -> (commands: Vec<Command>)
        requires
            old(self).wf(),
        ensures
            final(self).wf(),
            writes_of(commands@) == old(self)@.frame_writes(),
            final(self)@ == old(self)@.flushed(),
            old(self)@.current == old(self)@.previous ==> commands@.len() == 0,
    {
        let ghost v = self@;
        let ghost w = self.width as int;
        let ghost h = self.height as int;
        proof {
            self.lemma_wf_view();
        }
        let mut commands: Vec<Command> = Vec::new();
        assert(writes_of(commands@) + v.frame_writes() =~= v.frame_writes());
        let mut y: usize = 0;
        while y < self.height
            invariant
                self.wf(),
                v.wf(),
                w == self.width == v.width,
                h == self.height == v.height,
                y <= self.height,
                self@ == (RendererView { terminal: self@.terminal, ..v }),
                v.frame_writes() == writes_of(commands@) + v.writes_from(y * w, self@.terminal),
                v.pen_from(0, v.terminal) == v.pen_from(y * w, self@.terminal),
            decreases self.height - y,
        {
            let ghost base = y * w;
            proof {
                crate::screen_buffer::lemma_row_bounds(w, h, y as int);
                assert((y + 1) * w == base + w) by (nonlinear_arith)
                    requires
                        base == y * w,
                ;
            }
            let mut x: usize = 0;
            while x < self.width
                invariant
                    self.wf(),
                    v.wf(),
                    w == self.width == v.width,
                    h == self.height == v.height,
                    y < self.height,
                    x <= self.width,
                    base == y * w,
                    base + w == (y + 1) * w,
                    0 <= base,
                    base + w <= w * h,
                    self@ == (RendererView { terminal: self@.terminal, ..v }),
                    v.frame_writes() == writes_of(commands@) + v.writes_from(
                        base + x,
                        self@.terminal,
                    ),
                    v.pen_from(0, v.terminal) == v.pen_from(base + x, self@.terminal),
                decreases self.width - x,
            {
                let ghost k = base + x;
                let ghost pen = self@.terminal;
                let ghost done = writes_of(commands@);
                proof {
                    lemma_position(w, k, x as int, y as int);
                }
                let (drawn, shown) = self.cells_at(x, y);
                let mut begins = false;
                if drawn != shown {
                    if x == 0 {
                        begins = true;
                    } else {
                        let (left_drawn, left_shown) = self.cells_at(x - 1, y);
                        begins = left_drawn == left_shown || left_drawn.style != drawn.style;
                    }
                }
                assert(begins == v.starts_run(k));
                if begins {
                    proof {
                        if base + w < w * h {
                            lemma_position(w, base + w, 0, y + 1);
                        }
                        assert(v.run_end(k, base + w) == base + w);
                    }
                    let mut end = x + 1;
                    while end < self.width
                        invariant
                            v.run_end(k, base + w) == base + w,
                            self.wf(),
                            v.wf(),
                            w == self.width == v.width,
                            h == self.height == v.height,
                            y < self.height,
                            x < end <= self.width,
                            base == y * w,
                            0 <= base,
                            base + w <= w * h,
                            k == base + x,
                            drawn == v.current[k],
                            self@ == (RendererView { terminal: pen, ..v }),
                            v.run_end(k, k + 1) == v.run_end(k, base + end),
                        ensures
                            x < end <= self.width,
                            v.run_end(k, k + 1) == base + end,
                        decreases self.width - end,
                    {
                        proof {
                            lemma_position(w, base + end, end as int, y as int);
                        }
                        let (next_drawn, next_shown) = self.cells_at(end, y);
                        if next_drawn == next_shown || next_drawn.style != drawn.style {
                            break ;
                        }
                        end += 1;
                    }
                    let content = self.slice_string(x, end, y);
                    self.queue_styled_string(&mut commands, x, y, &drawn.style, content);
                    proof {
                        let rest = v.writes_from(k + 1, pen_for(drawn.style));
                        assert(writes_of(commands@) == done + v.run_writes(k, pen)) by {
                            assert(done + seq![Write::MoveTo(x, y)] + pen_writes(
                                pen,
                                pen_for(drawn.style),
                            ) + seq![Write::Print(content@)] =~= done + v.run_writes(k, pen));
                        }
                        assert(done + v.writes_from(k, pen) =~= (done + v.run_writes(k, pen)) + rest);
                    }
                }
                x += 1;
            }
            y += 1;
        }
        proof {
            assert(y * w == w * h) by (nonlinear_arith)
                requires
                    y == h,
            ;
            assert(writes_of(commands@) + Seq::<Write>::empty() =~= writes_of(commands@));
            if v.current == v.previous {
                lemma_same_frame_writes_nothing(v);
            }
        }
        core::mem::swap(&mut self.previous_buffer, &mut self.current_buffer);
        self.current_buffer.clear();
        commands
    }
}

} // verus!
