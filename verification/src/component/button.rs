//! The button: a container around one line of text.

use vstd::prelude::*;
use crate::component::stack::{Stack, StackComponent, StackProps};
use crate::component::text::{Text, TextProps};
use crate::component::{Component, ComponentValue, HandlerId};
use crate::layout::{Direction, Sides, StackAlign, StackWidth};
use crate::state::StateContext;

verus! {

/// What a button is made from.
pub struct ButtonProps {
    pub border: bool,
    pub width: StackWidth,
    /// The text on the button.
    pub value: String,
    /// The handler that a click on the button fires.
    pub on_click: Option<HandlerId>,
    pub padding: Sides,
}

impl Default for ButtonProps {
    fn default() -> (props: Self)
        ensures
            !props.border,
            props.width == StackWidth::Content,
            props.value@.len() == 0,
            props.on_click.is_none(),
            props.padding == (0usize, 0usize, 0usize, 0usize),
    {
        ButtonProps {
            border: false,
            width: StackWidth::Content,
            value: String::new(),
            on_click: None,
            padding: (0, 0, 0, 0),
        }
    }
}

/// Makes a button: a container with the border, extent, handler and padding of
/// `props`, that holds the text of `props` as its one child, as wide as the
/// text is.
#[allow(non_snake_case)]
pub fn Button<T>(ctx: &StateContext<T>, props: ButtonProps) -> (button: StackComponent)
    ensures
        button.spec_props().border == props.border,
        button.spec_props().width == props.width,
        button.spec_props().on_click == props.on_click,
        button.spec_props().padding == props.padding,
        button.spec_props().direction == Direction::Row,
        button.spec_props().align == StackAlign::Start,
        button.spec_props().children@.len() == 1,
{
    let text = Text(
        ctx,
        TextProps {
            value: ComponentValue::Static(props.value),
            on_click: None,
            width: StackWidth::Content,
            padding: (0, 0, 0, 0),
        },
    );
    let child: Box<dyn Component> = Box::new(text);
    let children: Vec<Box<dyn Component>> = vec![child];
    Stack(
        ctx,
        StackProps {
            border: props.border,
            direction: Direction::Row,
            children,
            on_click: props.on_click,
            width: props.width,
            align: StackAlign::Start,
            padding: props.padding,
        },
    )
}

} // verus!
