//! Live spell checking for terminal programs: the state machines, rules and
//! terminal output of the overlay, each function verified against its
//! contract.

pub mod ansi;
pub mod buffer;
pub mod clock;
pub mod config;
pub mod debug;
pub mod dict;
pub mod echo;
pub mod event;
pub mod fix;
pub mod grid;
pub mod init;
pub mod input;
pub mod lintable;
pub mod paint;
pub mod picker;
pub mod pty;
pub mod render;
pub mod screen;
pub mod spell;
pub mod status;
pub mod text;
