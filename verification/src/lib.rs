//! Indexing and lookup logic of a desktop document launcher: workspace
//! configuration, file classification and Markdown metadata extraction,
//! full-text query construction, and the debounced queue of file changes.
//!
//! The library decides; the program around it performs the file-system,
//! SQLite and window-system work.
pub mod clock;
pub mod commands;
pub mod config;
pub mod db;
pub mod error;
pub mod indexer;
pub mod models;
pub mod paths;
pub mod scanner;
pub mod text;
pub mod watcher;
pub mod window;
