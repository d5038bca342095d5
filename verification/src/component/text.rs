//! The text leaf: one line of text in the plain style.

use vstd::prelude::*;
use crate::component::{own_targets, Component, ComponentEvent, ComponentValue, HandlerId, Rect};
use crate::layout::{resolve_text, resolved_text, Direction, ResolvedStackWidth, Sides, StackWidth};
use crate::renderer::{Renderer, RendererView};
use crate::state::StateContext;

verus! {

/// One line of text.
pub struct TextComponent {
    bounds: Rect,
    value: ComponentValue<String>,
    on_click: Option<HandlerId>,
    width: StackWidth,
    padding: Sides,
}

/// What a text leaf is made from.
pub struct TextProps {
    /// The text.
    pub value: ComponentValue<String>,
    /// The handler that a click on the text fires.
    pub on_click: Option<HandlerId>,
    /// The extent along the container's main axis.
    pub width: StackWidth,
    /// The free cells above, right of, below and left of the text.
    pub padding: Sides,
}

impl Default for TextProps {
    fn default() -> (props: Self)
        ensures
            props.value is Static,
            props.on_click.is_none(),
            props.width == StackWidth::Content,
            props.padding == (0usize, 0usize, 0usize, 0usize),
    {
        TextProps {
            value: ComponentValue::default(),
            on_click: None,
            width: StackWidth::Content,
            padding: (0, 0, 0, 0),
        }
    }
}

impl TextComponent {
    pub closed spec fn spec_value(&self) -> ComponentValue<String> {
        self.value
    }

    pub closed spec fn spec_on_click(&self) -> Option<HandlerId> {
        self.on_click
    }

    pub closed spec fn spec_width(&self) -> StackWidth {
        self.width
    }

    pub closed spec fn spec_padding(&self) -> Sides {
        self.padding
    }

    pub closed spec fn spec_bounds(&self) -> Rect {
        self.bounds
    }

    /// The rectangle in which the text was drawn last.
    pub fn get_bounds(&self) -> (bounds: Rect)
        ensures
            bounds == self.spec_bounds(),
    {
        self.bounds
    }
}

impl Component for TextComponent {
    open spec fn has_bounds(&self, bounds: Rect) -> bool {
        bounds == self.spec_bounds()
    }

    /// The text's own handler, once, if the click lies in the text's bounds.
    open spec fn fires(&self, x: usize, y: usize, fired: Seq<HandlerId>) -> bool {
        fired == own_targets(self.spec_bounds(), self.spec_on_click(), x, y)
    }

    /// A fixed text has one extent. A text that is asked for anew each time
    /// has the extent of a text that its source may yield.
    open spec fn measures(&self, direction: Direction, width: ResolvedStackWidth) -> bool {
        match self.spec_value() {
            ComponentValue::Static(text) => width == resolved_text(
                self.spec_width(),
                self.spec_padding(),
                direction,
                text@.len(),
            ),
            ComponentValue::Dynamic(source) => exists|text: String|
                #[trigger] source.yields(text) && width == resolved_text(
                    self.spec_width(),
                    self.spec_padding(),
                    direction,
                    text@.len(),
                ),
        }
    }

    /// The text is written from the left padding on, in the row below the top
    /// padding. A text that is asked for anew each time is one that its source
    /// may yield.
    open spec fn paints(&self, before: RendererView, after: RendererView) -> bool {
        match self.spec_value() {
            ComponentValue::Static(text) => after == before.with_text(
                self.spec_padding().3 as int,
                self.spec_padding().0 as int,
                text@,
            ),
            ComponentValue::Dynamic(source) => exists|text: String|
                #[trigger] source.yields(text) && after == before.with_text(
                    self.spec_padding().3 as int,
                    self.spec_padding().0 as int,
                    text@,
                ),
        }
    }

    /// Fires the text's handler if the click lies in the text's bounds.
    fn propagate_event(&self, event: &ComponentEvent, fired: &mut Vec<HandlerId>) {
        let ComponentEvent::OnClick(x, y) = *event;
        if self.bounds.includes(x, y) {
            if let Some(handler) = self.on_click {
                fired.push(handler);
            }
        }
        assert(fired@ =~= old(fired)@ + own_targets(self.bounds, self.on_click, x, y));
        assert(fired@.subrange(0, old(fired)@.len() as int) =~= old(fired)@);
        assert(fired@.subrange(old(fired)@.len() as int, fired@.len() as int) =~= own_targets(
            self.bounds,
            self.on_click,
            x,
            y,
        ));
    }

    /// Writes the text into the active region: from the left padding on, in
    /// the row below the top padding.
    fn render(&mut self, renderer: &mut Renderer)
        ensures
            final(self).spec_value() == old(self).spec_value(),
            final(self).spec_on_click() == old(self).spec_on_click(),
            final(self).spec_width() == old(self).spec_width(),
            final(self).spec_padding() == old(self).spec_padding(),
    {
        let render_context = *renderer.current_render_context();
        self.bounds = Rect {
            x: render_context.x,
            y: render_context.y,
            width: render_context.width,
            height: render_context.height,
        };
        match &self.value {
            ComponentValue::Static(value) => {
                renderer.draw_text(self.padding.3, self.padding.0, value.as_str());
            },
            ComponentValue::Dynamic(source) => {
                let value = source.current();
                renderer.draw_text(self.padding.3, self.padding.0, value.as_str());
            },
        }
    }

    fn resolve_stack_width(&self, direction: Direction) -> (width: ResolvedStackWidth) {
        let length = match &self.value {
            ComponentValue::Static(value) => value.as_str().unicode_len(),
            ComponentValue::Dynamic(source) => {
                let value = source.current();
                value.as_str().unicode_len()
            },
        };
        resolve_text(self.width, self.padding, direction, length)
    }
}

/// Makes a text leaf from `props`. It has not been drawn yet: its bounds are
/// empty.
#[allow(non_snake_case)]
pub fn Text<T>(_ctx: &StateContext<T>, props: TextProps) -> (text: TextComponent)
    ensures
        text.spec_value() == props.value,
        text.spec_on_click() == props.on_click,
        text.spec_width() == props.width,
        text.spec_padding() == props.padding,
        text.spec_bounds() == (Rect { x: 0, y: 0, width: 0, height: 0 }),
{
    TextComponent {
        bounds: Rect::default(),
        value: props.value,
        on_click: props.on_click,
        width: props.width,
        padding: props.padding,
    }
}

} // verus!
