//! Core of a terminal text editor: UTF-8 aware line storage on a gap buffer,
//! a multi-pane buffer manager, a lexer and recursive-descent parser for a
//! small keybinding configuration language, and the chord-capture and
//! dispatch state machine that turns keystrokes into editor commands.

pub mod text;
pub mod tasks;
pub mod errors;
pub mod lexer;
pub mod parser;
pub mod config;
pub mod gap;
pub mod chars;
pub mod line;
pub mod vec2;
pub mod text_area;
pub mod area;
pub mod keybind;
pub mod editor;
pub mod laws;
