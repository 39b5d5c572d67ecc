//! A file-system index: an in-memory map from path to entry that a full scan
//! fills, filesystem changes keep up to date and a snapshot on disk restores,
//! with case-insensitive substring search over names and paths.
pub mod cache;
pub mod commands;
pub mod entry;
pub mod fs;
pub mod index;
pub mod scanner;
pub mod text;
pub mod watcher;
