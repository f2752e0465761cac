//! A minimal windowing event-loop core.
//!
//! The library models the decisions of a windowed application's main loop:
//! classifying window events, dispatching key events to a driver, updating
//! the viewport on resize, and latching the close flag when a driver asks to
//! quit. A host binary owns the actual window and graphics context; it feeds
//! events into this core and performs the actions the core hands back.

pub mod driver;
pub mod event_loop;
pub mod input;
