//! A verified engine for a compositor's declarative configuration: it
//! discovers the files that make up the configuration through `source`
//! directives, builds a flat view of every assignment with exact provenance
//! (file and line), and writes edits back without touching unrelated text.

pub mod classify;
pub mod expand;
pub mod index;
pub mod keybinds;
pub mod laws;
pub mod lines;
pub mod model;
pub mod resolver;
pub mod rewrite;
pub mod settings;
pub mod snapshot;
pub mod text;
pub mod updates;
pub mod walker;
