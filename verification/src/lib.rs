//! A Markdown-native kanban.

pub mod adding;
pub mod appending;
pub mod boards;
pub mod cards;
pub mod change;
pub mod changing;
pub mod characters;
pub mod checklists;
pub mod cli;
pub mod commands;
pub mod commenting;
pub mod comments;
pub mod config;
pub mod document;
pub mod edits;
pub mod error;
pub mod fields;
pub mod frontmatter;
pub mod markdown;
pub mod model;
pub mod outline;
pub mod outside;
pub mod properties;
pub mod record;
pub mod records;
pub mod registry;
pub mod sectioning;
pub mod showing;
pub mod source;
pub mod store;
pub mod text;
pub mod tui;

pub use config::{BoardConfig, ColumnConfig};
pub use model::{Card, CardMetadata};
pub use store::{CreateCard, Project};
