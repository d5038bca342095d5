//! A terminal user-interface toolkit.
//!
//! A tree of components is laid out by a flex-like engine and drawn into a
//! double-buffered grid of styled cells; the renderer compares the drawn frame
//! with the one on the terminal and yields only the writes that are needed;
//! clicks are tested against the places where the components were drawn; and
//! a small reactive store decides which effects run when a value changes.
//!
//! The library decides and computes. It does not touch the terminal, and it
//! does not hold the code of click handlers and effects: it names them by id
//! and says which are to run.
//!
//! - [`screen_buffer`]: styled cells and the grid that holds a frame.
//! - [`box_chars`]: line-drawing glyphs and how they join.
//! - [`renderer`]: nested drawing regions, drawing, and the flush of a frame.
//! - [`layout`]: how a container shares its space among its children.
//! - [`component`]: the component tree, with the text leaf and the container.
//! - [`state`]: cells, effects, and the order in which effects run.
//! - [`events`]: the events of the application and the timing of the tick.
//! - [`dispatch`]: what one event does, and the frame that follows it.

pub mod box_chars;
pub mod component;
pub mod dispatch;
pub mod events;
pub mod layout;
pub mod renderer;
pub mod screen_buffer;
pub mod state;
