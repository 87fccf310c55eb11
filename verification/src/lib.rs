//! Key tracking and terminal drawing for an X11 key logger: the tui file
//! format, the key history and actions-per-minute widgets, box drawing, and
//! the decisions that turn `xinput` output into key events.

pub mod text;
pub mod clock;
pub mod apm;
pub mod history;
pub mod runner;
pub mod tui;
pub mod input;
pub mod keys;
pub mod gui;
