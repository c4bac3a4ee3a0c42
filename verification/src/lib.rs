//! Keyboard layout remapping: DvorakJ layout parsing and configuration.
pub mod block;
pub mod cell;
pub mod comments;
pub mod config;
pub mod dvorakj;
pub mod grid;
pub mod ipc;
pub mod keymap;
pub mod keys;
pub mod layout;
pub mod loader;
pub mod map;
pub mod num;
pub mod output;
pub mod parse;
pub mod text;
