//! The centring container: two nested containers that place their content in
//! the middle along both axes.

use vstd::prelude::*;
use crate::component::stack::{Stack, StackComponent, StackProps};
use crate::component::Component;
use crate::layout::{Direction, StackAlign, StackWidth};
use crate::state::StateContext;

verus! {

/// What a centring container is made from.
pub struct CenterProps {
    /// The axis along which the children are placed.
    pub direction: Direction,
    pub border: bool,
    pub children: Vec<Box<dyn Component>>,
}

impl Default for CenterProps {
    fn default() -> (props: Self)
        ensures
            props.direction == Direction::Row,
            !props.border,
            props.children@.len() == 0,
    {
        CenterProps { direction: Direction::Row, border: false, children: Vec::new() }
    }
}

/// The other axis.
pub open spec fn across(direction: Direction) -> Direction {
    match direction {
        Direction::Row => Direction::Column,
        Direction::Column => Direction::Row,
    }
}

/// Makes a centring container: a container that centres across the direction
/// of `props`, with the border of `props`, around one that centres along that
/// direction and holds the children of `props`. Neither has a handler.
#[allow(non_snake_case)]
pub fn Center<T>(ctx: &StateContext<T>, props: CenterProps) -> (center: StackComponent)
    ensures
        center.spec_props().border == props.border,
        center.spec_props().direction == across(props.direction),
        center.spec_props().align == StackAlign::Center,
        center.spec_props().width == StackWidth::Content,
        center.spec_props().on_click.is_none(),
        center.spec_props().padding == (0usize, 0usize, 0usize, 0usize),
        center.spec_props().children@.len() == 1,
{
    let (outer, inner) = match props.direction {
        Direction::Row => (Direction::Column, Direction::Row),
        Direction::Column => (Direction::Row, Direction::Column),
    };
    let middle = Stack(
        ctx,
        StackProps {
            border: false,
            direction: inner,
            children: props.children,
            on_click: None,
            width: StackWidth::Content,
            align: StackAlign::Center,
            padding: (0, 0, 0, 0),
        },
    );
    let child: Box<dyn Component> = Box::new(middle);
    let children: Vec<Box<dyn Component>> = vec![child];
    let center = Stack(
        ctx,
        StackProps {
            border: props.border,
            direction: outer,
            children,
            on_click: None,
            width: StackWidth::Content,
            align: StackAlign::Center,
            padding: (0, 0, 0, 0),
        },
    );
    center
}

} // verus!
