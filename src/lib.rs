//! A single-endpoint HLS proxy: request preparation, response classification
//! and manifest rewriting, with the network left to the caller.
pub mod text;
pub mod urls;
pub mod rewrite;
pub mod header;
pub mod request;
pub mod classify;
pub mod response;
