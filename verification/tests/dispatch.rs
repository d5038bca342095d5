use tolid::component::stack::{Stack, StackProps};
use tolid::component::text::{Text, TextProps};
use tolid::component::{Component, IntoComponentValue};
use tolid::dispatch::{App, Reaction};
use tolid::events::{Event, KeyCode, MouseEventKind};
use tolid::layout::{Direction, StackWidth};
use tolid::renderer::Command;
use tolid::state::StateContext;

fn app() -> App {
    let ctx: StateContext<i64> = StateContext::new();
    let text: Box<dyn Component> = Box::new(Text(
        &ctx,
        TextProps {
            value: "hello".into_component_value(),
            on_click: Some(2),
            width: StackWidth::Exact(1),
            ..TextProps::default()
        },
    ));
    let root = Stack(
        &ctx,
        StackProps {
            direction: Direction::Row,
            children: vec![text],
            on_click: Some(1),
            ..StackProps::default()
        },
    );
    App::new(Box::new(root))
}

#[test]
fn the_quit_key_asks_for_the_quit_event() {
    let mut app = app();
    assert_eq!(app.handle_key(KeyCode::Char('q')), Some(Event::Quit));
    assert_eq!(
        app.handle_event(Event::Key(KeyCode::Char('q'))),
        Reaction::Inject(Event::Quit)
    );
}

#[test]
fn other_keys_only_redraw() {
    let mut app = app();
    for key in [KeyCode::Char('Q'), KeyCode::Char('a'), KeyCode::Enter, KeyCode::Esc, KeyCode::F(1)] {
        assert_eq!(app.handle_key(key), None);
        assert_eq!(app.handle_event(Event::Key(key)), Reaction::Redraw);
    }
}

#[test]
fn the_quit_event_stops_the_loop() {
    let mut app = app();
    assert_eq!(app.handle_event(Event::Quit), Reaction::Quit);
}

#[test]
fn a_tick_only_redraws() {
    let mut app = app();
    assert_eq!(app.handle_event(Event::Tick), Reaction::Redraw);
}

#[test]
fn the_first_frame_after_a_resize_draws_the_tree() {
    let mut app = app();
    assert_eq!(app.handle_event(Event::Resize(8, 2)), Reaction::Redraw);
    assert_eq!(
        app.draw(),
        vec![Command::MoveTo(0, 0), Command::Print("hello".to_string())]
    );
}

#[test]
fn a_frame_without_changes_writes_nothing() {
    let mut app = app();
    app.handle_event(Event::Resize(8, 2));
    assert_ne!(app.draw(), vec![]);
    assert_eq!(app.handle_event(Event::Tick), Reaction::Redraw);
    assert_eq!(app.draw(), vec![]);
    assert_eq!(app.draw(), vec![]);
}

#[test]
fn a_resize_to_the_same_size_draws_everything_again() {
    let mut app = app();
    app.handle_event(Event::Resize(8, 2));
    app.draw();
    app.handle_event(Event::Resize(8, 2));
    assert_eq!(
        app.draw(),
        vec![Command::MoveTo(0, 0), Command::Print("hello".to_string())]
    );
}

#[test]
fn before_any_resize_nothing_is_drawn() {
    let mut app = app();
    assert_eq!(app.draw(), vec![]);
}

#[test]
fn a_press_is_a_click_on_the_cell_under_the_mouse() {
    let mut app = app();
    app.handle_event(Event::Resize(8, 2));
    app.draw();
    assert_eq!(
        app.handle_event(Event::Mouse(MouseEventKind::Down, 3, 0)),
        Reaction::Clicked(vec![1, 2])
    );
    assert_eq!(
        app.handle_event(Event::Mouse(MouseEventKind::Down, 3, 1)),
        Reaction::Clicked(vec![1])
    );
    assert_eq!(
        app.handle_event(Event::Mouse(MouseEventKind::Down, 8, 0)),
        Reaction::Clicked(vec![])
    );
    assert_eq!(app.handle_mouse(MouseEventKind::Down, 7, 0), vec![1, 2]);
}

#[test]
fn other_mouse_events_fire_nothing() {
    let mut app = app();
    app.handle_event(Event::Resize(8, 2));
    app.draw();
    for kind in [
        MouseEventKind::Up,
        MouseEventKind::Drag,
        MouseEventKind::Moved,
        MouseEventKind::ScrollDown,
        MouseEventKind::ScrollUp,
        MouseEventKind::ScrollLeft,
        MouseEventKind::ScrollRight,
    ] {
        assert_eq!(app.handle_event(Event::Mouse(kind, 3, 0)), Reaction::Redraw);
        assert_eq!(app.handle_mouse(kind, 3, 0), vec![]);
    }
}

#[test]
fn a_click_before_the_first_frame_fires_nothing() {
    let mut app = app();
    assert_eq!(
        app.handle_event(Event::Mouse(MouseEventKind::Down, 0, 0)),
        Reaction::Clicked(vec![])
    );
}
