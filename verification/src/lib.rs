//! A layered character-grid editing engine: the canvas model, the drawing
//! algorithms, the clipboard, the mode state machine, the compositor and the
//! text form in which layers are stored.

pub mod key;
pub mod model;
pub mod state;
pub mod cursor;
pub mod draw;
pub mod clipboard;
pub mod control;
pub mod render;
pub mod persist;
pub mod terminal;
