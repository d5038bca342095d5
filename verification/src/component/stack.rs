//! The container: a box that places its children one after another along one
//! axis, with an optional border and padding.

use vstd::prelude::*;
use crate::component::{
    lemma_occurrences_concat, occurrences, own_targets, rect_of, Component, ComponentEvent,
    HandlerId, Rect,
};
use crate::layout::{
    distribute, lead_count, resolve_container, resolved_container, saturate, segment_total,
    segments, Direction, ResolvedStackWidth, Sides, StackAlign, StackWidth, WidthSegment,
};
use crate::renderer::{box_lines, nested_in, RenderContext, Renderer, RendererView};
use crate::screen_buffer::BufferCell;
use crate::state::StateContext;

verus! {

/// What a container is made from.
pub struct StackProps {
    /// Whether a border is drawn around the container.
    pub border: bool,
    /// The axis along which the children are placed.
    pub direction: Direction,
    /// The children, in their order along that axis.
    pub children: Vec<Box<dyn Component>>,
    /// The handler that a click on the container fires.
    pub on_click: Option<HandlerId>,
    /// The extent along the main axis of the container that holds this one.
    pub width: StackWidth,
    /// Where the children stand when none of them is flexible.
    pub align: StackAlign,
    /// The free cells above, right of, below and left of the children.
    pub padding: Sides,
}

impl Default for StackProps {
    fn default() -> (props: Self)
        ensures
            !props.border,
            props.direction == Direction::Row,
            props.children@.len() == 0,
            props.on_click.is_none(),
            props.width == StackWidth::Content,
            props.align == StackAlign::Start,
            props.padding == (0usize, 0usize, 0usize, 0usize),
    {
        StackProps {
            border: false,
            direction: Direction::Row,
            children: Vec::new(),
            on_click: None,
            width: StackWidth::Content,
            align: StackAlign::Start,
            padding: (0, 0, 0, 0),
        }
    }
}

/// A container.
pub struct StackComponent {
    bounds: Rect,
    props: StackProps,
}

/// The sequences of `parts` one after another.
pub open spec fn joined(parts: Seq<Seq<HandlerId>>) -> Seq<HandlerId>
    decreases parts.len(),
{
    if parts.len() == 0 {
        Seq::empty()
    } else {
        joined(parts.drop_last()) + parts.last()
    }
}

/// Whether `parts` holds, child for child, handlers that a click at column `x`
/// of row `y` may fire in the child.
pub open spec fn children_fire(
    children: Seq<Box<dyn Component>>,
    x: usize,
    y: usize,
    parts: Seq<Seq<HandlerId>>,
) -> bool {
    &&& parts.len() == children.len()
    &&& forall|i: int| 0 <= i < children.len() ==> (#[trigger] children[i]).fires(x, y, parts[i])
}

/// Whether `widths` holds, child for child, an extent that the child may
/// report to a container that places its children along `direction`.
pub open spec fn measured(
    children: Seq<Box<dyn Component>>,
    direction: Direction,
    widths: Seq<ResolvedStackWidth>,
) -> bool {
    &&& widths.len() == children.len()
    &&& forall|i: int|
        0 <= i < children.len() ==> (#[trigger] children[i]).measures(direction, widths[i])
}

/// The part of a container's region that is left for its children, by its
/// place in that region: a border takes one cell on each side, the padding
/// what it asks for, and neither more than there is.
pub open spec fn content_rect(width: usize, height: usize, border: bool, padding: Sides) -> Rect {
    let inset: int = if border {
        1
    } else {
        0
    };
    let inner_width = if width < 2 * inset {
        0
    } else {
        width - 2 * inset
    };
    let inner_height = if height < 2 * inset {
        0
    } else {
        height - 2 * inset
    };
    Rect {
        x: saturate(inset + padding.3),
        y: saturate(inset + padding.0),
        width: if inner_width < padding.3 + padding.1 {
            0
        } else {
            (inner_width - (padding.3 + padding.1)) as usize
        },
        height: if inner_height < padding.0 + padding.2 {
            0
        } else {
            (inner_height - (padding.0 + padding.2)) as usize
        },
    }
}

/// The extent of a region of the given size along `direction`.
pub open spec fn main_space(direction: Direction, width: usize, height: usize) -> usize {
    match direction {
        Direction::Row => height,
        Direction::Column => width,
    }
}

/// The place of one child in the region left for the children, which has the
/// given size: the child starts `offset` cells along the main axis, takes
/// `amount` cells of it, and spans the region across.
pub open spec fn slot(
    direction: Direction,
    width: usize,
    height: usize,
    offset: usize,
    amount: usize,
) -> Rect {
    match direction {
        Direction::Row => Rect { x: 0, y: offset, width, height: amount },
        Direction::Column => Rect { x: offset, y: 0, width: amount, height },
    }
}

/// The stretches into which the main axis of the region `inner` is cut when the
/// children report `widths`, in order.
#[verifier::opaque]
pub open spec fn stretches_of(
    inner: RenderContext,
    direction: Direction,
    align: StackAlign,
    widths: Seq<ResolvedStackWidth>,
) -> Seq<WidthSegment> {
    segments(main_space(direction, inner.width, inner.height), widths, align)
}

/// The region in which child `i` of a container is drawn, by its place in the
/// grid, when `inner` is the region left for the children and the children
/// report `widths`: the child's stretch of the main axis, after the stretches
/// before it.
pub open spec fn slot_region(
    inner: RenderContext,
    direction: Direction,
    align: StackAlign,
    widths: Seq<ResolvedStackWidth>,
    i: int,
) -> RenderContext {
    let stretches = stretches_of(inner, direction, align, widths);
    let k = lead_count(widths, align) + i;
    let place = slot(
        direction,
        inner.width,
        inner.height,
        saturate(segment_total(stretches.take(k)) as int),
        stretches[k].amount() as usize,
    );
    nested_in(inner, place.x, place.y, place.width, place.height)
}

/// Every child has its stretch, in the children's order, and at most one
/// filler stands before them and one after them.
pub proof fn lemma_stretch_shape(
    inner: RenderContext,
    direction: Direction,
    align: StackAlign,
    widths: Seq<ResolvedStackWidth>,
)
    requires
        widths.len() <= usize::MAX,
    ensures
        0 <= lead_count(widths, align) <= 1,
        lead_count(widths, align) + widths.len() <= stretches_of(
            inner,
            direction,
            align,
            widths,
        ).len() <= lead_count(widths, align) + widths.len() + 1,
        forall|k: int|
            0 <= k < stretches_of(inner, direction, align, widths).len() ==> match (
            #[trigger] stretches_of(inner, direction, align, widths)[k]) {
                WidthSegment::Child(_, i) => i == k - lead_count(widths, align) && 0 <= i
                    < widths.len(),
                WidthSegment::Filler(_) => k < lead_count(widths, align) || k >= lead_count(
                    widths,
                    align,
                ) + widths.len(),
            },
{
    reveal(stretches_of);
}

/// The region in which child `i` of a container is drawn, by its place in the
/// grid. The container is drawn in `region` and its children report `widths`.
pub open spec fn child_region(
    region: RenderContext,
    border: bool,
    padding: Sides,
    direction: Direction,
    align: StackAlign,
    widths: Seq<ResolvedStackWidth>,
    i: int,
) -> RenderContext {
    let content = content_rect(region.width, region.height, border, padding);
    slot_region(
        nested_in(region, content.x, content.y, content.width, content.height),
        direction,
        align,
        widths,
        i,
    )
}

/// Whether `grids` holds the frames that drawing `children` one after another
/// leaves: the first is the frame of `base`, and each child makes the next of
/// the one before it, drawn into its own stretch of the active region of
/// `base`. The children report `widths`.
pub open spec fn children_painted(
    children: Seq<Box<dyn Component>>,
    base: RendererView,
    direction: Direction,
    align: StackAlign,
    widths: Seq<ResolvedStackWidth>,
    grids: Seq<Seq<BufferCell>>,
) -> bool {
    &&& grids.len() == children.len() + 1
    &&& grids[0] == base.current
    &&& forall|i: int|
        0 <= i < children.len() ==> (#[trigger] children[i]).paints(
            (RendererView { current: grids[i], ..base }).pushed(
                slot_region(base.context(), direction, align, widths, i),
            ),
            (RendererView { current: grids[i + 1], ..base }).pushed(
                slot_region(base.context(), direction, align, widths, i),
            ),
        )
}

/// Whether `after` is what drawing a container into the active region of
/// `before` leaves, when its children report `widths` and leave the frames
/// `grids`: the border is drawn around the region, if there is one, and then
/// the children are drawn, each in its stretch of what the border and the
/// padding leave.
pub open spec fn laid_out(
    props: StackProps,
    before: RendererView,
    after: RendererView,
    widths: Seq<ResolvedStackWidth>,
    grids: Seq<Seq<BufferCell>>,
) -> bool {
    let region = before.context();
    let content = content_rect(region.width, region.height, props.border, props.padding);
    let framed = if props.border {
        before.stroke(box_lines(0, 0, region.width as int, region.height as int))
    } else {
        before
    };
    let base = framed.pushed(
        nested_in(region, content.x, content.y, content.width, content.height),
    );
    &&& measured(props.children@, props.direction, widths)
    &&& children_painted(props.children@, base, props.direction, props.align, widths, grids)
    &&& after == (RendererView { current: grids.last(), ..before })
}

impl StackComponent {
    pub closed spec fn spec_props(&self) -> StackProps {
        self.props
    }

    pub closed spec fn spec_bounds(&self) -> Rect {
        self.bounds
    }

    /// The rectangle in which the container was drawn last.
    pub fn get_bounds(&self) -> (bounds: Rect)
        ensures
            bounds == self.spec_bounds(),
    {
        self.bounds
    }

    pub fn get_border(&self) -> (border: bool)
        ensures
            border == self.spec_props().border,
    {
        self.props.border
    }

    pub fn get_direction(&self) -> (direction: Direction)
        ensures
            direction == self.spec_props().direction,
    {
        self.props.direction
    }

    /// What the children report to a container that places its children along
    /// `direction`.
    fn measure_children(&self, direction: Direction) -> (widths: Vec<ResolvedStackWidth>)
        ensures
            measured(self.props.children@, direction, widths@),
    {
        let mut widths: Vec<ResolvedStackWidth> = Vec::new();
        let mut i: usize = 0;
        while i < self.props.children.len()
            invariant
                i <= self.props.children.len(),
                widths@.len() == i,
                forall|j: int|
                    0 <= j < i ==> (#[trigger] self.props.children@[j]).measures(direction, widths@[j]),
            decreases self.props.children.len() - i,
        {
            let width = self.props.children[i].resolve_stack_width(direction);
            widths.push(width);
            i += 1;
        }
        widths
    }

    /// Cuts the main axis of the active region into the stretches of the
    /// children and the fillers.
    fn calc_render_widths(&self, renderer: &Renderer) -> (out: (
        Vec<WidthSegment>,
        Ghost<Seq<ResolvedStackWidth>>,
    ))
        requires
            renderer.wf(),
        ensures
            measured(self.props.children@, self.props.direction, out.1@),
            out.0@ == stretches_of(
                renderer@.context(),
                self.props.direction,
                self.props.align,
                out.1@,
            ),
    {
        reveal(stretches_of);
        let widths = self.measure_children(self.props.direction);
        let render_context = renderer.current_render_context();
        let total_potential_width = match self.props.direction {
            Direction::Row => render_context.height,
            Direction::Column => render_context.width,
        };
        let stretches = distribute(total_potential_width, &widths, self.props.align);
        (stretches, Ghost(widths@))
    }

    /// Draws the children, each in its stretch of the active region.
    #[verifier::rlimit(30)]
    fn render_children(&mut self, renderer: &mut Renderer) -> (out: (
        Ghost<Seq<ResolvedStackWidth>>,
        Ghost<Seq<Seq<BufferCell>>>,
    ))
        requires
            old(renderer).wf(),
        ensures
            children_painted(
                old(self).props.children@,
                old(renderer)@,
                old(self).props.direction,
                old(self).props.align,
                out.0@,
                out.1@,
            ),
            final(renderer)@.current == out.1@.last(),
            final(renderer).wf(),
            final(renderer)@ == (RendererView {
                current: final(renderer)@.current,
                ..old(renderer)@
            }),
            final(self).bounds == old(self).bounds,
            final(self).props.border == old(self).props.border,
            final(self).props.direction == old(self).props.direction,
            final(self).props.on_click == old(self).props.on_click,
            final(self).props.width == old(self).props.width,
            final(self).props.align == old(self).props.align,
            final(self).props.padding == old(self).props.padding,
            final(self).props.children@.len() == old(self).props.children@.len(),
            measured(old(self).props.children@, old(self).props.direction, out.0@),
            forall|i: int|
                0 <= i < final(self).props.children@.len() ==> (
                #[trigger] final(self).props.children@[i]).has_bounds(
                    rect_of(
                        slot_region(
                            old(renderer)@.context(),
                            old(self).props.direction,
                            old(self).props.align,
                            out.0@,
                            i,
                        ),
                    ),
                ),
    {
        let (stretches, Ghost(widths)) = self.calc_render_widths(renderer);
        let render_context = *renderer.current_render_context();
        let width = render_context.width;
        let height = render_context.height;
        let direction = self.props.direction;
        let ghost v = renderer@;
        let ghost inner = v.context();
        let ghost align = self.props.align;
        let ghost count = self.props.children@.len();
        let ghost lead = lead_count(widths, align);
        let ghost plan = stretches_of(inner, direction, align, widths);
        proof {
            assert(widths.len() == self.props.children.len());
            lemma_stretch_shape(inner, direction, align, widths);
        }

        let ghost held = self.props.children@;
        let ghost mut grids: Seq<Seq<BufferCell>> = seq![v.current];
        let mut offset: usize = 0;
        let mut k: usize = 0;
        while k < stretches.len()
            invariant
                k <= stretches.len(),
                renderer.wf(),
                renderer@ == (RendererView { current: renderer@.current, ..v }),
                held == old(self).props.children@,
                grids.len() >= 1,
                grids[0] == v.current,
                grids.last() == renderer@.current,
                grids.len() - 1 == if k < lead {
                    0
                } else if k - lead > count {
                    count as int
                } else {
                    k - lead
                },
                forall|i: int|
                    grids.len() - 1 <= i < count ==> (#[trigger] self.props.children@[i]) == held[i],
                forall|i: int|
                    0 <= i < grids.len() - 1 ==> (#[trigger] held[i]).paints(
                        (RendererView { current: grids[i], ..v }).pushed(
                            slot_region(inner, direction, align, widths, i),
                        ),
                        (RendererView { current: grids[i + 1], ..v }).pushed(
                            slot_region(inner, direction, align, widths, i),
                        ),
                    ),
                inner == v.context(),
                inner.width == width,
                inner.height == height,
                self.bounds == old(self).bounds,
                self.props.border == old(self).props.border,
                self.props.direction == old(self).props.direction,
                self.props.on_click == old(self).props.on_click,
                self.props.width == old(self).props.width,
                self.props.align == old(self).props.align,
                self.props.padding == old(self).props.padding,
                direction == self.props.direction,
                align == self.props.align,
                self.props.children@.len() == count,
                widths.len() == count,
                lead == lead_count(widths, align),
                0 <= lead <= 1,
                plan == stretches_of(inner, direction, align, widths),
                stretches@ == plan,
                lead + count <= plan.len(),
                forall|j: int|
                    0 <= j < plan.len() ==> match (#[trigger] plan[j]) {
                        WidthSegment::Child(_, i) => i == j - lead && 0 <= i < count,
                        WidthSegment::Filler(_) => j < lead || j >= lead + count,
                    },
                offset == saturate(segment_total(plan.take(k as int)) as int),
                forall|i: int|
                    0 <= i < count && lead + i < k ==> (#[trigger] self.props.children@[i]).has_bounds(
                        rect_of(slot_region(inner, direction, align, widths, i)),
                    ),
            decreases stretches.len() - k,
        {
            assert(plan.take(k + 1).drop_last() =~= plan.take(k as int));
            let amount = match stretches[k] {
                WidthSegment::Child(amount, i) => {
                    assert(i == k - lead && i < count);
                    let (new_x, new_y, new_width, new_height) = match direction {
                        Direction::Row => (0, offset, width, amount),
                        Direction::Column => (offset, 0, amount, height),
                    };
                    let ghost before = renderer@;
                    renderer.push_relative_render_context(new_x, new_y, new_width, new_height);
                    let ghost pushed = renderer@;
                    self.props.children[i].render(renderer);
                    let ghost painted = renderer@;
                    renderer.pop_render_context();
                    proof {
                        assert(renderer@.contexts =~= v.contexts);
                        let place = slot_region(inner, direction, align, widths, i as int);
                        assert(pushed == (RendererView { current: grids[i as int], ..v }).pushed(
                            place,
                        ));
                        assert(painted == (RendererView { current: painted.current, ..v }).pushed(
                            place,
                        ));
                        assert(held[i as int].paints(pushed, painted));
                        grids = grids.push(painted.current);
                    }
                    amount
                },
                WidthSegment::Filler(amount) => amount,
            };
            offset = offset.saturating_add(amount);
            k += 1;
        }
        (Ghost(widths), Ghost(grids))
    }
}

impl Component for StackComponent {
    open spec fn has_bounds(&self, bounds: Rect) -> bool {
        bounds == self.spec_bounds()
    }

    /// The container's own handler, if the click lies in the container's
    /// bounds, and then what the children fire, child after child: every child
    /// is asked, whether or not the click lies in the container.
    open spec fn fires(&self, x: usize, y: usize, fired: Seq<HandlerId>) -> bool {
        exists|parts: Seq<Seq<HandlerId>>|
            #[trigger] children_fire(self.spec_props().children@, x, y, parts) && fired
                == own_targets(self.spec_bounds(), self.spec_props().on_click, x, y) + joined(
                parts,
            )
    }

    /// A container of declared extent `Content` has the extent of its border,
    /// its padding and what its children report.
    open spec fn measures(&self, direction: Direction, width: ResolvedStackWidth) -> bool {
        match self.spec_props().width {
            StackWidth::Content => exists|widths: Seq<ResolvedStackWidth>|
                #![trigger measured(self.spec_props().children@, direction, widths)]
                measured(self.spec_props().children@, direction, widths) && width
                    == resolved_container(
                    StackWidth::Content,
                    self.spec_props().border,
                    self.spec_props().padding,
                    self.spec_props().direction,
                    direction,
                    widths,
                ),
            StackWidth::Flex(weight) => width == ResolvedStackWidth::Flex(weight),
            StackWidth::Exact(cells) => width == ResolvedStackWidth::Exact(cells),
        }
    }

    /// A region without width or without height is left alone. Into any other
    /// the border and the children are drawn, for some extents that the
    /// children may report.
    open spec fn paints(&self, before: RendererView, after: RendererView) -> bool {
        if before.context().width == 0 || before.context().height == 0 {
            after == before
        } else {
            exists|widths: Seq<ResolvedStackWidth>, grids: Seq<Seq<BufferCell>>|
                #[trigger] laid_out(self.spec_props(), before, after, widths, grids)
        }
    }

    fn propagate_event(&self, event: &ComponentEvent, fired: &mut Vec<HandlerId>) {
        let ghost before = fired@;
        let ComponentEvent::OnClick(x, y) = *event;
        let ghost own = own_targets(self.bounds, self.props.on_click, x, y);
        if self.bounds.includes(x, y) {
            if let Some(handler) = self.props.on_click {
                fired.push(handler);
            }
        }
        assert(fired@ =~= before + own);
        let ghost mut parts: Seq<Seq<HandlerId>> = Seq::empty();
        let mut i: usize = 0;
        while i < self.props.children.len()
            invariant
                i <= self.props.children.len(),
                *event == ComponentEvent::OnClick(x, y),
                parts.len() == i,
                forall|j: int|
                    0 <= j < i ==> (#[trigger] self.props.children@[j]).fires(x, y, parts[j]),
                fired@ == before + own + joined(parts),
            decreases self.props.children.len() - i,
        {
            let ghost so_far = fired@;
            self.props.children[i].propagate_event(event, fired);
            proof {
                let more = fired@.subrange(so_far.len() as int, fired@.len() as int);
                assert(fired@ =~= so_far + more);
                assert(parts.push(more).drop_last() =~= parts);
                assert((before + own + joined(parts)) + more =~= before + own + (joined(parts)
                    + more));
                parts = parts.push(more);
            }
            i += 1;
        }
        proof {
            assert(children_fire(self.props.children@, x, y, parts));
            assert(fired@ =~= before + (own + joined(parts)));
            assert(fired@.subrange(0, before.len() as int) =~= before);
            assert(fired@.subrange(before.len() as int, fired@.len() as int) =~= own + joined(
                parts,
            ));
        }
    }

    /// Draws the border, if there is one, and then the children, each in its
    /// stretch of what the border and the padding leave of the active region.
    /// A region without width or without height is left alone, and so are the
    /// children: nothing is drawn, and only the container's bounds are
    /// recorded.
    fn render(&mut self, renderer: &mut Renderer)
        ensures
            final(self).spec_props().border == old(self).spec_props().border,
            final(self).spec_props().direction == old(self).spec_props().direction,
            final(self).spec_props().on_click == old(self).spec_props().on_click,
            final(self).spec_props().width == old(self).spec_props().width,
            final(self).spec_props().align == old(self).spec_props().align,
            final(self).spec_props().padding == old(self).spec_props().padding,
            final(self).spec_props().children@.len() == old(self).spec_props().children@.len(),
            old(renderer)@.context().width == 0 || old(renderer)@.context().height == 0 ==> {
                &&& final(renderer)@ == old(renderer)@
                &&& final(self).spec_props().children@ == old(self).spec_props().children@
            },
            old(renderer)@.context().width != 0 && old(renderer)@.context().height != 0
                ==> exists|widths: Seq<ResolvedStackWidth>, grids: Seq<Seq<BufferCell>>|
                {
                    &&& #[trigger] laid_out(
                        old(self).spec_props(),
                        old(renderer)@,
                        final(renderer)@,
                        widths,
                        grids,
                    )
                    &&& forall|i: int|
                        0 <= i < final(self).spec_props().children@.len() ==> (
                        #[trigger] final(self).spec_props().children@[i]).has_bounds(
                            rect_of(
                                child_region(
                                    old(renderer)@.context(),
                                    old(self).spec_props().border,
                                    old(self).spec_props().padding,
                                    old(self).spec_props().direction,
                                    old(self).spec_props().align,
                                    widths,
                                    i,
                                ),
                            ),
                        )
                },
    {
        let ghost v = renderer@;
        let render_context = *renderer.current_render_context();
        self.bounds = Rect {
            x: render_context.x,
            y: render_context.y,
            width: render_context.width,
            height: render_context.height,
        };
        let width = render_context.width;
        let height = render_context.height;
        if width == 0 || height == 0 {
            return ;
        }
        let (mut x, mut y, mut inner_width, mut inner_height): (usize, usize, usize, usize) =
            if self.props.border {
            renderer.draw_box(0, 0, width, height);
            (
                1,
                1,
                width - if width < 2 {
                    width
                } else {
                    2
                },
                height - if height < 2 {
                    height
                } else {
                    2
                },
            )
        } else {
            (0, 0, width, height)
        };
        let ghost drawn = renderer@;
        x = x.saturating_add(self.props.padding.3);
        y = y.saturating_add(self.props.padding.0);
        let across = self.props.padding.3.saturating_add(self.props.padding.1);
        let along = self.props.padding.0.saturating_add(self.props.padding.2);
        inner_width = inner_width - if across < inner_width {
            across
        } else {
            inner_width
        };
        inner_height = inner_height - if along < inner_height {
            along
        } else {
            inner_height
        };
        proof {
            let content = content_rect(width, height, self.props.border, self.props.padding);
            assert(content == (Rect { x, y, width: inner_width, height: inner_height }));
        }
        renderer.push_relative_render_context(x, y, inner_width, inner_height);
        let ghost base = renderer@;
        let (Ghost(widths), Ghost(grids)) = self.render_children(renderer);
        renderer.pop_render_context();
        proof {
            assert(renderer@.contexts =~= v.contexts);
            assert(base == drawn.pushed(
                nested_in(v.context(), x, y, inner_width, inner_height),
            ));
            assert(laid_out(old(self).props, v, renderer@, widths, grids));
        }
    }

    fn resolve_stack_width(&self, direction: Direction) -> (width: ResolvedStackWidth) {
        match self.props.width {
            StackWidth::Content => {
                let widths = self.measure_children(direction);
                resolve_container(
                    StackWidth::Content,
                    self.props.border,
                    self.props.padding,
                    self.props.direction,
                    direction,
                    &widths,
                )
            },
            StackWidth::Flex(val) => ResolvedStackWidth::Flex(val),
            StackWidth::Exact(val) => ResolvedStackWidth::Exact(val),
        }
    }
}

/// Makes a container from `props`. It has not been drawn yet: its bounds are
/// empty.
#[allow(non_snake_case)]
pub fn Stack<T>(_ctx: &StateContext<T>, props: StackProps) -> (stack: StackComponent)
    ensures
        stack.spec_props() == props,
        stack.spec_bounds() == (Rect { x: 0, y: 0, width: 0, height: 0 }),
{
    StackComponent { bounds: Rect::default(), props }
}

/// How often `handler` occurs in `parts`, all of them taken together.
pub open spec fn total_occurrences(parts: Seq<Seq<HandlerId>>, handler: HandlerId) -> nat
    decreases parts.len(),
{
    if parts.len() == 0 {
        0
    } else {
        total_occurrences(parts.drop_last(), handler) + occurrences(parts.last(), handler)
    }
}

/// A handler is fired as often as the components fire it, each counted once:
/// no component is passed over, and none is asked twice.
pub proof fn lemma_click_counts(
    own: Seq<HandlerId>,
    parts: Seq<Seq<HandlerId>>,
    handler: HandlerId,
)
    ensures
        occurrences(own + joined(parts), handler) == occurrences(own, handler) + total_occurrences(
            parts,
            handler,
        ),
{
    lemma_occurrences_concat(own, joined(parts), handler);
    lemma_joined_counts(parts, handler);
}

proof fn lemma_joined_counts(parts: Seq<Seq<HandlerId>>, handler: HandlerId)
    ensures
        occurrences(joined(parts), handler) == total_occurrences(parts, handler),
    decreases parts.len(),
{
    if parts.len() > 0 {
        lemma_joined_counts(parts.drop_last(), handler);
        lemma_occurrences_concat(joined(parts.drop_last()), parts.last(), handler);
    }
}

/// Parts of which only part `only` holds `handler` hold it as often as that
/// part does.
proof fn lemma_one_part_counts(parts: Seq<Seq<HandlerId>>, handler: HandlerId, only: int)
    requires
        forall|j: int|
            0 <= j < parts.len() && j != only ==> occurrences(#[trigger] parts[j], handler) == 0,
    ensures
        total_occurrences(parts, handler) == if 0 <= only < parts.len() {
            occurrences(parts[only], handler)
        } else {
            0
        },
    decreases parts.len(),
{
    if parts.len() > 0 {
        let rest = parts.drop_last();
        assert forall|j: int| 0 <= j < rest.len() && j != only implies occurrences(
            #[trigger] rest[j],
            handler,
        ) == 0 by {
            assert(rest[j] == parts[j]);
        }
        lemma_one_part_counts(rest, handler, only);
        if 0 <= only < rest.len() {
            assert(rest[only] == parts[only]);
        }
    }
}

proof fn lemma_own_target_counts(
    bounds: Rect,
    on_click: Option<HandlerId>,
    x: usize,
    y: usize,
    handler: HandlerId,
)
    ensures
        occurrences(own_targets(bounds, on_click, x, y), handler) == if on_click == Some(handler)
            && bounds.contains(x, y) {
            1nat
        } else {
            0nat
        },
{
    let own = own_targets(bounds, on_click, x, y);
    if own.len() > 0 {
        assert(own.drop_last() =~= Seq::<HandlerId>::empty());
        assert(occurrences(own.drop_last(), handler) == 0);
    }
}

/// A container whose bounds hold the click fires its own handler exactly once,
/// and first, if nothing below it fires the same handler.
pub proof fn lemma_container_fires_own_once(
    stack: &StackComponent,
    x: usize,
    y: usize,
    fired: Seq<HandlerId>,
    handler: HandlerId,
)
    requires
        stack.fires(x, y, fired),
        stack.spec_props().on_click == Some(handler),
        stack.spec_bounds().contains(x, y),
        forall|j: int, below: Seq<HandlerId>|
            0 <= j < stack.spec_props().children@.len()
                && #[trigger] stack.spec_props().children@[j].fires(x, y, below) ==> occurrences(
                below,
                handler,
            ) == 0,
    ensures
        fired.first() == handler,
        occurrences(fired, handler) == 1,
{
    let children = stack.spec_props().children@;
    let parts = choose|parts: Seq<Seq<HandlerId>>|
        #[trigger] children_fire(children, x, y, parts) && fired == own_targets(
            stack.spec_bounds(),
            stack.spec_props().on_click,
            x,
            y,
        ) + joined(parts);
    let own = own_targets(stack.spec_bounds(), stack.spec_props().on_click, x, y);
    lemma_click_counts(own, parts, handler);
    lemma_own_target_counts(stack.spec_bounds(), stack.spec_props().on_click, x, y, handler);
    assert forall|j: int| 0 <= j < parts.len() implies occurrences(#[trigger] parts[j], handler)
        == 0 by {
        assert(children[j].fires(x, y, parts[j]));
    }
    lemma_one_part_counts(parts, handler, -1);
}

proof fn lemma_part_in_total(parts: Seq<Seq<HandlerId>>, handler: HandlerId, i: int)
    requires
        0 <= i < parts.len(),
    ensures
        occurrences(parts[i], handler) <= total_occurrences(parts, handler),
    decreases parts.len(),
{
    if i < parts.len() - 1 {
        lemma_part_in_total(parts.drop_last(), handler, i);
    }
}

/// A container whose bounds hold the click fires its own handler once, before
/// anything below it, and every child is asked, whatever else the tree holds:
/// what is fired is the container's handler and then what the children fire.
pub proof fn lemma_container_fires_own_first(
    stack: &StackComponent,
    x: usize,
    y: usize,
    fired: Seq<HandlerId>,
    handler: HandlerId,
)
    requires
        stack.fires(x, y, fired),
        stack.spec_props().on_click == Some(handler),
        stack.spec_bounds().contains(x, y),
    ensures
        exists|parts: Seq<Seq<HandlerId>>|
            #[trigger] children_fire(stack.spec_props().children@, x, y, parts) && fired
                == seq![handler] + joined(parts),
        occurrences(fired, handler) >= 1,
{
    let children = stack.spec_props().children@;
    let own = own_targets(stack.spec_bounds(), stack.spec_props().on_click, x, y);
    let parts = choose|parts: Seq<Seq<HandlerId>>|
        #[trigger] children_fire(children, x, y, parts) && fired == own + joined(parts);
    assert(own =~= seq![handler]);
    lemma_click_counts(own, parts, handler);
    lemma_own_target_counts(stack.spec_bounds(), stack.spec_props().on_click, x, y, handler);
}

/// A click inside the bounds of a container and of a component that it holds
/// fires the handlers of both, whatever else the tree holds and whichever ids
/// the handlers have: the container does not keep the click from the child,
/// nor the child from the container.
pub proof fn lemma_overlapping_both_fire(
    outer: &StackComponent,
    i: int,
    x: usize,
    y: usize,
    fired: Seq<HandlerId>,
    outer_handler: HandlerId,
    inner_handler: HandlerId,
)
    requires
        outer.fires(x, y, fired),
        outer.spec_props().on_click == Some(outer_handler),
        outer.spec_bounds().contains(x, y),
        0 <= i < outer.spec_props().children@.len(),
        forall|below: Seq<HandlerId>|
            #[trigger] outer.spec_props().children@[i].fires(x, y, below) ==> occurrences(
                below,
                inner_handler,
            ) >= 1,
    ensures
        occurrences(fired, outer_handler) >= 1,
        occurrences(fired, inner_handler) >= 1,
{
    let children = outer.spec_props().children@;
    let own = own_targets(outer.spec_bounds(), outer.spec_props().on_click, x, y);
    let parts = choose|parts: Seq<Seq<HandlerId>>|
        #[trigger] children_fire(children, x, y, parts) && fired == own + joined(parts);
    lemma_container_fires_own_first(outer, x, y, fired, outer_handler);
    lemma_click_counts(own, parts, inner_handler);
    assert(children[i].fires(x, y, parts[i]));
    lemma_part_in_total(parts, inner_handler, i);
}

/// A click inside the bounds of a container and of a component that it holds
/// fires the handler of each exactly once. The container has the handler
/// `outer_handler`, and its child `i` fires `inner_handler` once, as a
/// container or a leaf does whose bounds hold the click. Nothing else in the
/// container fires either handler. There is no precedence between the two: the
/// click reaches the child although the container has handled it.
pub proof fn lemma_overlapping_fire_once_each(
    outer: &StackComponent,
    i: int,
    x: usize,
    y: usize,
    fired: Seq<HandlerId>,
    outer_handler: HandlerId,
    inner_handler: HandlerId,
)
    requires
        outer.fires(x, y, fired),
        outer_handler != inner_handler,
        outer.spec_props().on_click == Some(outer_handler),
        outer.spec_bounds().contains(x, y),
        0 <= i < outer.spec_props().children@.len(),
        forall|below: Seq<HandlerId>|
            #[trigger] outer.spec_props().children@[i].fires(x, y, below) ==> occurrences(
                below,
                inner_handler,
            ) == 1,
        forall|j: int, below: Seq<HandlerId>|
            0 <= j < outer.spec_props().children@.len()
                && #[trigger] outer.spec_props().children@[j].fires(x, y, below) ==> occurrences(
                below,
                outer_handler,
            ) == 0,
        forall|j: int, below: Seq<HandlerId>|
            0 <= j < outer.spec_props().children@.len() && j != i
                && #[trigger] outer.spec_props().children@[j].fires(x, y, below) ==> occurrences(
                below,
                inner_handler,
            ) == 0,
    ensures
        occurrences(fired, outer_handler) == 1,
        occurrences(fired, inner_handler) == 1,
{
    let children = outer.spec_props().children@;
    let parts = choose|parts: Seq<Seq<HandlerId>>|
        #[trigger] children_fire(children, x, y, parts) && fired == own_targets(
            outer.spec_bounds(),
            outer.spec_props().on_click,
            x,
            y,
        ) + joined(parts);
    let own = own_targets(outer.spec_bounds(), outer.spec_props().on_click, x, y);
    lemma_container_fires_own_once(outer, x, y, fired, outer_handler);
    lemma_click_counts(own, parts, inner_handler);
    lemma_own_target_counts(
        outer.spec_bounds(),
        outer.spec_props().on_click,
        x,
        y,
        inner_handler,
    );
    assert forall|j: int| 0 <= j < parts.len() && j != i implies occurrences(
        #[trigger] parts[j],
        inner_handler,
    ) == 0 by {
        assert(children[j].fires(x, y, parts[j]));
    }
    assert(children[i].fires(x, y, parts[i]));
    lemma_one_part_counts(parts, inner_handler, i);
}

/// A click outside the bounds of a container still reaches every child: the
/// container fires nothing of its own, and the children fire what they fire.
pub proof fn lemma_click_outside_reaches_children(
    stack: &StackComponent,
    x: usize,
    y: usize,
    fired: Seq<HandlerId>,
)
    requires
        stack.fires(x, y, fired),
        !stack.spec_bounds().contains(x, y),
    ensures
        exists|parts: Seq<Seq<HandlerId>>|
            #[trigger] children_fire(stack.spec_props().children@, x, y, parts) && fired == joined(
                parts,
            ),
{
    let children = stack.spec_props().children@;
    let parts = choose|parts: Seq<Seq<HandlerId>>|
        #[trigger] children_fire(children, x, y, parts) && fired == own_targets(
            stack.spec_bounds(),
            stack.spec_props().on_click,
            x,
            y,
        ) + joined(parts);
    assert(Seq::<HandlerId>::empty() + joined(parts) =~= joined(parts));
}

} // verus!
