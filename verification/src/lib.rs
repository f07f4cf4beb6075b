//! Building blocks of a small code-exploration assistant: text snipping,
//! workspace access rules, line-window file reading and shell-output handling.

pub mod utf8_text;
pub mod snip;
pub mod decimal;
pub mod read_window;
pub mod access;
pub mod shell;
pub mod read_laws;
