//! Components: the nodes of the tree that is drawn. A component can draw
//! itself into the active region of a renderer, say which click handlers a
//! click fires, and report its extent to the container that holds it.

pub mod button;
pub mod center;
pub mod stack;
pub mod text;

use vstd::prelude::*;
use crate::layout::{Direction, ResolvedStackWidth};
use crate::renderer::{RenderContext, Renderer, RendererView};

verus! {

/// The id of a click handler. The application keeps the handler's code under
/// the id and runs it when the id is reported as fired.
pub type HandlerId = usize;

/// A rectangle of the grid.
#[derive(Clone, Copy, Debug, PartialEq, Eq, Structural)]
pub struct Rect {
    pub x: usize,
    pub y: usize,
    pub width: usize,
    pub height: usize,
}

impl Default for Rect {
    fn default() -> (rect: Self)
        ensures
            rect == (Rect { x: 0, y: 0, width: 0, height: 0 }),
    {
        Self { x: 0, y: 0, width: 0, height: 0 }
    }
}

impl Rect {
    /// Whether the cell in column `x` of row `y` lies in the rectangle.
    pub open spec fn contains(self, x: usize, y: usize) -> bool {
        &&& self.x <= x < self.x + self.width
        &&& self.y <= y < self.y + self.height
    }

    /// Whether the cell in column `x` of row `y` lies in the rectangle.
    pub fn includes(&self, x: usize, y: usize) -> (inside: bool)
        ensures
            inside == self.contains(x, y),
    {
        x >= self.x && x - self.x < self.width && y >= self.y && y - self.y < self.height
    }
}

/// The rectangle that a drawing region covers.
pub open spec fn rect_of(context: RenderContext) -> Rect {
    Rect { x: context.x, y: context.y, width: context.width, height: context.height }
}

/// What can happen to a component.
#[derive(Clone, Copy, Debug, PartialEq, Eq, Structural)]
pub enum ComponentEvent {
    /// A click on the cell in the given column and row of the grid.
    OnClick(usize, usize),
}

/// Something that yields a value whenever it is asked; the value may differ
/// from one time to the next.
pub trait ValueSource<T> {
    /// Whether `value` is a value that the source may yield. A source that
    /// says nothing may yield any value.
    open spec fn yields(&self, value: T) -> bool {
        true
    }

    /// The value of the moment.
    fn current(&self) -> (value: T)
        ensures
            self.yields(value),
    ;
}

/// A value that is fixed, or one that is asked for whenever it is needed.
#[verifier::reject_recursive_types(T)]
pub enum ComponentValue<T> {
    Static(T),
    Dynamic(Box<dyn ValueSource<T>>),
}

impl<T: Default> Default for ComponentValue<T> {
    fn default() -> (value: Self)
        ensures
            value matches ComponentValue::Static(inner) && call_ensures(T::default, (), inner),
    {
        Self::Static(T::default())
    }
}

/// What can be made into a component's value.
pub trait IntoComponentValue<T> {
    fn into_component_value(self) -> ComponentValue<T>;
}

impl IntoComponentValue<String> for String {
    fn into_component_value(self) -> (value: ComponentValue<String>)
        ensures
            value == ComponentValue::Static(self),
    {
        ComponentValue::Static(self)
    }
}

impl IntoComponentValue<String> for &str {
    fn into_component_value(self) -> (value: ComponentValue<String>)
        ensures
            value matches ComponentValue::Static(text) && text@ == self@,
    {
        ComponentValue::Static(self.to_owned())
    }
}

impl IntoComponentValue<usize> for usize {
    fn into_component_value(self) -> (value: ComponentValue<usize>)
        ensures
            value == ComponentValue::Static(self),
    {
        ComponentValue::Static(self)
    }
}

impl IntoComponentValue<bool> for bool {
    fn into_component_value(self) -> (value: ComponentValue<bool>)
        ensures
            value == ComponentValue::Static(self),
    {
        ComponentValue::Static(self)
    }
}

impl IntoComponentValue<char> for char {
    fn into_component_value(self) -> (value: ComponentValue<char>)
        ensures
            value == ComponentValue::Static(self),
    {
        ComponentValue::Static(self)
    }
}

impl IntoComponentValue<u8> for u8 {
    fn into_component_value(self) -> (value: ComponentValue<u8>)
        ensures
            value == ComponentValue::Static(self),
    {
        ComponentValue::Static(self)
    }
}

impl IntoComponentValue<u16> for u16 {
    fn into_component_value(self) -> (value: ComponentValue<u16>)
        ensures
            value == ComponentValue::Static(self),
    {
        ComponentValue::Static(self)
    }
}

impl IntoComponentValue<u32> for u32 {
    fn into_component_value(self) -> (value: ComponentValue<u32>)
        ensures
            value == ComponentValue::Static(self),
    {
        ComponentValue::Static(self)
    }
}

impl IntoComponentValue<u64> for u64 {
    fn into_component_value(self) -> (value: ComponentValue<u64>)
        ensures
            value == ComponentValue::Static(self),
    {
        ComponentValue::Static(self)
    }
}

impl IntoComponentValue<u128> for u128 {
    fn into_component_value(self) -> (value: ComponentValue<u128>)
        ensures
            value == ComponentValue::Static(self),
    {
        ComponentValue::Static(self)
    }
}

impl IntoComponentValue<isize> for isize {
    fn into_component_value(self) -> (value: ComponentValue<isize>)
        ensures
            value == ComponentValue::Static(self),
    {
        ComponentValue::Static(self)
    }
}

impl IntoComponentValue<i8> for i8 {
    fn into_component_value(self) -> (value: ComponentValue<i8>)
        ensures
            value == ComponentValue::Static(self),
    {
        ComponentValue::Static(self)
    }
}

impl IntoComponentValue<i16> for i16 {
    fn into_component_value(self) -> (value: ComponentValue<i16>)
        ensures
            value == ComponentValue::Static(self),
    {
        ComponentValue::Static(self)
    }
}

impl IntoComponentValue<i32> for i32 {
    fn into_component_value(self) -> (value: ComponentValue<i32>)
        ensures
            value == ComponentValue::Static(self),
    {
        ComponentValue::Static(self)
    }
}

impl IntoComponentValue<i64> for i64 {
    fn into_component_value(self) -> (value: ComponentValue<i64>)
        ensures
            value == ComponentValue::Static(self),
    {
        ComponentValue::Static(self)
    }
}

impl IntoComponentValue<i128> for i128 {
    fn into_component_value(self) -> (value: ComponentValue<i128>)
        ensures
            value == ComponentValue::Static(self),
    {
        ComponentValue::Static(self)
    }
}

/// The handlers that a component itself fires on a click at column `x` of row
/// `y`: its own handler, once, if it has one and the click lies in its bounds.
pub open spec fn own_targets(bounds: Rect, on_click: Option<HandlerId>, x: usize, y: usize) -> Seq<
    HandlerId,
> {
    match on_click {
        Some(handler) if bounds.contains(x, y) => seq![handler],
        _ => Seq::empty(),
    }
}

/// How often `handler` occurs in `fired`.
pub open spec fn occurrences(fired: Seq<HandlerId>, handler: HandlerId) -> nat
    decreases fired.len(),
{
    if fired.len() == 0 {
        0
    } else {
        occurrences(fired.drop_last(), handler) + if fired.last() == handler {
            1nat
        } else {
            0nat
        }
    }
}

/// A node of the tree.
///
/// A component says what it does by four relations. Each of them holds of
/// everything unless the component says otherwise, so a component that leaves
/// them alone promises only what every component owes: to leave the
/// renderer's regions as it found them, and to keep what was fired before.
pub trait Component {
    /// Whether `bounds` is the rectangle in which the component was drawn
    /// last; a click is tested against it.
    open spec fn has_bounds(&self, bounds: Rect) -> bool {
        true
    }

    /// Whether `fired` are handlers that a click at column `x` of row `y` may
    /// fire, in the component and in everything below it, in the order of
    /// firing.
    open spec fn fires(&self, x: usize, y: usize, fired: Seq<HandlerId>) -> bool {
        true
    }

    /// Whether `width` is an extent that the component may report to a
    /// container that places its children along `direction`.
    open spec fn measures(&self, direction: Direction, width: ResolvedStackWidth) -> bool {
        true
    }

    /// Whether `after` is what a renderer may hold when the component was drawn
    /// into the active region of a renderer that held `before`.
    open spec fn paints(&self, before: RendererView, after: RendererView) -> bool {
        true
    }

    /// Hands `event` to the component and to everything below it, and appends
    /// to `fired` the handlers that it fires.
    fn propagate_event(&self, event: &ComponentEvent, fired: &mut Vec<HandlerId>)
        ensures
            old(fired)@.len() <= final(fired)@.len(),
            final(fired)@.subrange(0, old(fired)@.len() as int) == old(fired)@,
            match *event {
                ComponentEvent::OnClick(x, y) => self.fires(
                    x,
                    y,
                    final(fired)@.subrange(old(fired)@.len() as int, final(fired)@.len() as int),
                ),
            },
    ;

    /// Draws the component into the active region of `renderer` and records
    /// that region as the component's bounds. Of the renderer only the drawn
    /// frame changes: the regions are as they were.
    fn render(&mut self, renderer: &mut Renderer)
        requires
            old(renderer).wf(),
        ensures
            final(renderer).wf(),
            final(renderer)@ == (RendererView {
                current: final(renderer)@.current,
                ..old(renderer)@
            }),
            final(self).has_bounds(rect_of(old(renderer)@.context())),
            old(self).paints(old(renderer)@, final(renderer)@),
    ;

    /// The extent that the component asks for in a container that places its
    /// children along `direction`.
    fn resolve_stack_width(&self, direction: Direction) -> (width: ResolvedStackWidth)
        ensures
            self.measures(direction, width),
    ;
}

/// The handlers fired in two stretches are those of the first and those of
/// the second.
pub proof fn lemma_occurrences_concat(a: Seq<HandlerId>, b: Seq<HandlerId>, handler: HandlerId)
    ensures
        occurrences(a + b, handler) == occurrences(a, handler) + occurrences(b, handler),
    decreases b.len(),
{
    if b.len() == 0 {
        assert(a + b =~= a);
    } else {
        lemma_occurrences_concat(a, b.drop_last(), handler);
        assert((a + b).drop_last() =~= a + b.drop_last());
    }
}

} // verus!
