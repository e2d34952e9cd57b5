//! Indexing and search core of a local media library: metadata resolution,
//! an in-memory catalog of tracks, albums and artists, classification of
//! filesystem notifications, and ranked, paginated search.

pub mod catalog;
pub mod database;
pub mod error;
pub mod identity;
pub mod manager;
pub mod models;
pub mod paging;
pub mod provider;
pub mod queue;
pub mod ranking;
pub mod scanner;
pub mod text;
pub mod watcher;
