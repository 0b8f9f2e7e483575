//! Server-side engine of a remote file store: path sandboxing, directory
//! cataloguing, and chunked upload/download session handling, together with
//! the client-side presentation helpers that consume its metadata.

pub mod catalog;
pub mod client;
pub mod config;
pub mod entries;
pub mod errors;
pub mod fmt;
pub mod paths;
pub mod time;
pub mod transfer;
pub mod tui;
pub mod upload;
