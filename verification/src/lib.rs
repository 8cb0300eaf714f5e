//! Terminal UI building blocks: input decoding, key identification, editing
//! state and small interactive components, with their behaviour stated and
//! proved in Verus.

pub mod bytes;
pub mod capabilities;
pub mod component;
pub mod components;
pub mod graphemes;
pub mod highlight;
pub mod keybindings;
pub mod keys;
pub mod kill_ring;
pub mod overlay;
pub mod stdin_buffer;
pub mod strs;
pub mod style;
pub mod symbols;
pub mod terminal;
pub mod theme;
pub mod tui;
