//! A note indexing and link-graph engine for trees of plain-text notes.

pub mod args;
pub mod config;
pub mod db;
pub mod engine;
pub mod error;
pub mod graph;
pub mod graph_laws;
pub mod graph_lemmas;
pub mod link_laws;
pub mod lsp;
pub mod note;
pub mod path;
pub mod text;
pub mod time;
pub mod yaml;

pub use crate::args::SovFeature;
pub use crate::engine::Sov;
