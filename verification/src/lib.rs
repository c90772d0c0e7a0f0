//! Terminal writing tool for long-form Chinese fiction: the editor's state,
//! command table, screens and terminal probing, with their contracts.
use vstd::prelude::*;

pub mod batch;
pub mod clipboard;
pub mod commands;
pub mod doctor;
pub mod editor;
pub mod editor_keys;
pub mod font;
pub mod keymap;
pub mod layout;
pub mod model;
pub mod panic;
pub mod screens;
pub mod status;
pub mod text;
pub mod theme;
pub mod tree_keys;
pub mod workspace;

verus! {
} // verus!
