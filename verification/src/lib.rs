//! Rendering of Arabic text as Kufi-style block art.
//!
//! The pipeline is: normalize and tokenize the input text, decide the
//! positional form (isolated, initial, medial, final) of every letter from
//! its neighbours, then lay the art of each form out right to left.

pub mod assoc;
pub mod cli;
pub mod listing;
pub mod models;
pub mod order;
pub mod renderer;
pub mod shaper;
pub mod text;
pub mod toml_doc;
pub mod tui;
pub mod validate;
