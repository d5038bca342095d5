//! The events that drive the application, and the timing of the tick.

use vstd::prelude::*;

verus! {

/// A key of the keyboard.
#[derive(Clone, Copy, Debug, PartialEq, Eq, Structural)]
pub enum KeyCode {
    Backspace,
    Enter,
    Left,
    Right,
    Up,
    Down,
    Home,
    End,
    PageUp,
    PageDown,
    Tab,
    BackTab,
    Delete,
    Insert,
    /// A function key, by its number.
    F(u8),
    /// A key that stands for a character.
    Char(char),
    Esc,
    /// Any other key.
    Other,
}

/// What the mouse did.
#[derive(Clone, Copy, Debug, PartialEq, Eq, Structural)]
pub enum MouseEventKind {
    /// A button was pressed.
    Down,
    /// A button was released.
    Up,
    /// The mouse moved with a button held.
    Drag,
    /// The mouse moved.
    Moved,
    ScrollDown,
    ScrollUp,
    ScrollLeft,
    ScrollRight,
}

/// One event of the application's queue. The events are handled one at a time,
/// in the order in which they were sent.
#[derive(Clone, Copy, Debug, PartialEq, Eq, Structural)]
pub enum Event {
    /// A key was pressed.
    Key(KeyCode),
    /// The mouse did something at a column and a row of the terminal.
    Mouse(MouseEventKind, u16, u16),
    /// The tick interval has passed.
    Tick,
    /// The terminal has a new width and height.
    Resize(u16, u16),
    /// The application is to stop.
    Quit,
}

/// How long to wait for input before the next tick is due: what is left of the
/// tick interval `tick_rate` after `elapsed` has passed since the last tick,
/// and no time at all when the interval is over. Both times are in the same
/// unit.
pub fn poll_timeout(tick_rate: u64, elapsed: u64) -> (timeout: u64)
    ensures
        timeout == if elapsed >= tick_rate {
            0
        } else {
            tick_rate - elapsed
        },
{
    tick_rate.saturating_sub(elapsed)
}

/// Whether a tick is due: the tick interval `tick_rate` is over when `elapsed`
/// has passed since the last tick.
pub fn tick_due(tick_rate: u64, elapsed: u64) -> (due: bool)
    ensures
        due == (elapsed >= tick_rate),
{
    elapsed >= tick_rate
}

} // verus!
