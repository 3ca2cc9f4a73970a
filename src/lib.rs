//! Font settings of a terminal emulator, managed from inside an editor.
//!
//! The library holds the logic: reading and rewriting the emulator's
//! `key value` configuration text, computing the catalog of fonts that are
//! both installed and usable by the emulator, font sizes as exact decimals,
//! and the state machine that drives the editor's overlay panels.

pub mod catalog;
pub mod columns;
pub mod command;
pub mod completion;
pub mod error;
pub mod laws;
pub mod plugin;
pub mod settings;
pub mod setup;
pub mod size;
pub mod sources;
pub mod text;
pub mod utils;
pub mod window;
