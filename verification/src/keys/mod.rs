//! Kitty keyboard protocol parsing and key matching.
//!
//! Parses terminal keyboard input: the Kitty keyboard protocol (CSI-u,
//! functional keys, CSI 1;mod letter), legacy escape sequences (arrow and
//! function keys), xterm modifyOtherKeys and single ASCII/control bytes.

pub mod types;
pub mod legacy;
pub mod parse;
pub mod match_key;
