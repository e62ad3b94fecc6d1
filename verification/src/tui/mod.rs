//! The interactive board: its state, its input, its layout and its reloading.

pub mod app;
pub mod effects;
pub mod input;
pub mod keys;
pub mod picture;
pub mod ui;
pub mod watch;
