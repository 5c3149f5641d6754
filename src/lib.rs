//! Interactive single-line text input for a line-oriented editor: a
//! fixed-capacity edit buffer, a bounded history, incremental terminal
//! redraw, and the key-driven editing state machine that ties them together.

pub mod command;
pub mod editor;
pub mod history;
pub mod key;
pub mod line_buffer;
pub mod render;
pub mod terminal;
pub mod text;
