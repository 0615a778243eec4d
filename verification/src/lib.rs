//! A cell-based, double-buffered terminal renderer together with a
//! keyboard-driven menu bar and nested drop-down menus.
//!
//! The renderer accumulates a desired screen state in a back grid and turns
//! the difference against the front grid (what the terminal already shows)
//! into a minimal stream of ANSI control codes.  The menu types carry the
//! navigation state machine: wraparound selection, separator skipping,
//! shortcut mnemonics marked by an underscore in each label, and the screen
//! origin of every drop-down.

pub mod ansi;
pub mod menu;
pub mod render;
