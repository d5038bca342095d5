//! The application's loop body: what one event does to the tree and the
//! renderer, and the frame that follows it.
//!
//! The loop itself, which waits for events and writes to the terminal, lies
//! outside: it hands each event to `handle_event`, runs the click handlers
//! that are reported as fired, and then asks for the frame with `draw`.

use vstd::prelude::*;
use crate::component::{Component, ComponentEvent, HandlerId};
use crate::events::{Event, KeyCode, MouseEventKind};
use crate::renderer::{default_pen, writes_of, Command, Renderer, RendererView};
use crate::screen_buffer::blank_cells;

verus! {

/// What the loop is to do after an event was handled.
#[derive(Debug, PartialEq, Eq)]
pub enum Reaction {
    /// Stop.
    Quit,
    /// Send the event to the end of the queue, and draw.
    Inject(Event),
    /// Run the click handlers, in this order, and draw.
    Clicked(Vec<HandlerId>),
    /// Draw.
    Redraw,
}

/// What the application draws. The field takes the root as it is given: a
/// field of the boxed component's own type would convert the box on its way
/// in, and nothing could be said of what was given.
struct Tree<C> {
    root: C,
}

/// The tree and the renderer that draws it.
pub struct App {
    tree: Tree<Box<dyn Component>>,
    renderer: Renderer,
}

impl App {
    /// Whether `fired` are handlers that a click at column `x` of row `y` may
    /// fire in the tree, in the order of firing.
    pub closed spec fn fires(&self, x: usize, y: usize, fired: Seq<HandlerId>) -> bool {
        self.tree.root.fires(x, y, fired)
    }

    /// Whether `after` is what the renderer may hold when the tree was drawn
    /// into the active region of a renderer that held `before`.
    pub closed spec fn paints(&self, before: RendererView, after: RendererView) -> bool {
        self.tree.root.paints(before, after)
    }

    pub closed spec fn spec_renderer(&self) -> Renderer {
        self.renderer
    }

    pub closed spec fn wf(&self) -> bool {
        self.renderer.wf()
    }

    /// An application that draws `root`, with a renderer of no size yet: a
    /// click fires what it fires in `root`, a frame is what `root` draws, and
    /// the renderer has nothing drawn, nothing shown and no region pushed.
    pub fn new(root: Box<dyn Component>) -> (app: Self)
        ensures
            app.wf(),
            forall|x: usize, y: usize, fired: Seq<HandlerId>|
                #[trigger] app.fires(x, y, fired) == root.fires(x, y, fired),
            forall|before: RendererView, after: RendererView|
                #[trigger] app.paints(before, after) == root.paints(before, after),
            app.spec_renderer()@ == (RendererView {
                width: 0,
                height: 0,
                current: Seq::empty(),
                previous: Seq::empty(),
                contexts: Seq::empty(),
                terminal: default_pen(),
            }),
    {
        let tree = Tree { root };
        let app = App { tree, renderer: Renderer::new() };
        app
    }

    /// Gives the renderer the size of the terminal. Both frames are blank
    /// afterwards.
    pub fn resize(&mut self, w: u16, h: u16)
        requires
            old(self).wf(),
        ensures
            final(self).wf(),
            forall|x: usize, y: usize, fired: Seq<HandlerId>|
                #[trigger] final(self).fires(x, y, fired) == old(self).fires(x, y, fired),
            final(self).spec_renderer()@ == (RendererView {
                width: w as usize,
                height: h as usize,
                current: blank_cells((w * h) as nat),
                previous: blank_cells((w * h) as nat),
                ..old(self).spec_renderer()@
            }),
    {
        assert(w * h <= 0xFFFF * 0xFFFF) by (nonlinear_arith)
            requires
                w <= 0xFFFF,
                h <= 0xFFFF,
        ;
        self.renderer.resize(w as usize, h as usize);
    }

    /// What a key does: the key `q` asks for the application to stop, by an
    /// event that is to be sent to the queue. No other key does anything.
    pub fn handle_key(&self, key: KeyCode) -> (inject: Option<Event>)
        ensures
            inject == if key == KeyCode::Char('q') {
                Some(Event::Quit)
            } else {
                None
            },
    {
        match key {
            KeyCode::Char(c) => {
                if c == 'q' {
                    Some(Event::Quit)
                } else {
                    None
                }
            },
            _ => None,
        }
    }

    /// What the mouse does: a press is a click on the cell under the mouse,
    /// which is handed to the whole tree. Returns the handlers that it fires,
    /// in the order of firing. Nothing else that the mouse does fires a
    /// handler.
    pub fn handle_mouse(&self, kind: MouseEventKind, column: u16, row: u16) -> (fired: Vec<
        HandlerId,
    >)
        ensures
            if kind == MouseEventKind::Down {
                self.fires(column as usize, row as usize, fired@)
            } else {
                fired@ == Seq::<HandlerId>::empty()
            },
    {
        let mut fired: Vec<HandlerId> = Vec::new();
        if kind == MouseEventKind::Down {
            let click = ComponentEvent::OnClick(column as usize, row as usize);
            self.tree.root.propagate_event(&click, &mut fired);
            assert(fired@.subrange(0, fired@.len() as int) =~= fired@);
        }
        fired
    }

    /// Handles one event and says what the loop is to do next.
    pub fn handle_event(&mut self, event: Event) -> (reaction: Reaction)
        requires
            old(self).wf(),
        ensures
            final(self).wf(),
            forall|x: usize, y: usize, fired: Seq<HandlerId>|
                #[trigger] final(self).fires(x, y, fired) == old(self).fires(x, y, fired),
            match event {
                Event::Quit => reaction == Reaction::Quit,
                Event::Tick => reaction == Reaction::Redraw,
                Event::Key(key) => reaction == if key == KeyCode::Char('q') {
                    Reaction::Inject(Event::Quit)
                } else {
                    Reaction::Redraw
                },
                Event::Mouse(kind, column, row) => match reaction {
                    Reaction::Clicked(fired) => kind == MouseEventKind::Down && final(self).fires(
                        column as usize,
                        row as usize,
                        fired@,
                    ),
                    Reaction::Redraw => kind != MouseEventKind::Down,
                    _ => false,
                },
                Event::Resize(w, h) => reaction == Reaction::Redraw,
            },
            final(self).spec_renderer()@ == match event {
                Event::Resize(w, h) => RendererView {
                    width: w as usize,
                    height: h as usize,
                    current: blank_cells((w * h) as nat),
                    previous: blank_cells((w * h) as nat),
                    ..old(self).spec_renderer()@
                },
                _ => old(self).spec_renderer()@,
            },
    {
        match event {
            Event::Key(key) => match self.handle_key(key) {
                Some(inject) => Reaction::Inject(inject),
                None => Reaction::Redraw,
            },
            Event::Mouse(kind, column, row) => match kind {
                MouseEventKind::Down => Reaction::Clicked(self.handle_mouse(kind, column, row)),
                _ => Reaction::Redraw,
            },
            Event::Tick => Reaction::Redraw,
            Event::Resize(w, h) => {
                self.resize(w, h);
                Reaction::Redraw
            },
            Event::Quit => Reaction::Quit,
        }
    }

    /// Draws the tree and flushes the frame: returns the writes that bring the
    /// terminal from the frame it shows to the frame that the tree has drawn.
    pub fn draw(&mut self) -> (commands: Vec<Command>)
        requires
            old(self).wf(),
        ensures
            final(self).wf(),
            exists|frame: RendererView|
                {
                    &&& old(self).paints(old(self).spec_renderer()@, frame)
                    &&& frame == (RendererView {
                        current: frame.current,
                        ..old(self).spec_renderer()@
                    })
                    &&& writes_of(commands@) == #[trigger] frame.frame_writes()
                    &&& final(self).spec_renderer()@ == frame.flushed()
                },
    {
        self.tree.root.render(&mut self.renderer);
        let ghost frame = self.renderer@;
        let commands = self.renderer.render();
        assert(writes_of(commands@) == frame.frame_writes());
        assert(frame == (RendererView { current: frame.current, ..old(self).renderer@ }));
        commands
    }
}

} // verus!
