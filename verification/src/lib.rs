//! Reconciles the fonts a document project declares against the fonts it
//! already holds, the fonts built into the typesetting engine and the fonts a
//! font library can supply.
//!
//! Everything here is a pure computation on plain values. Reading files,
//! walking directories, talking to a network and introspecting font files are
//! left to the caller, which hands the results in and carries the decisions
//! out.

pub mod error;
pub mod font_library;
pub mod font_manager;
pub mod font_set;
pub mod font_utils;
pub mod parse_font_config;
pub mod paths;
pub mod run;
pub mod text;

pub mod command;
