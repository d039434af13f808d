//! Verified core of a local media-library explorer: catalog queries, folder
//! snapshots, media-duration parsing, settings and paths handling, and the
//! browser host's routing.
pub mod catalog;
pub mod host;
pub mod media;
pub mod models;
pub mod paths;
pub mod pattern;
pub mod playlist;
pub mod query;
pub mod scan;
pub mod settings;
pub mod shell_length;
pub mod snapshot;
pub mod text;
