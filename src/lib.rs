//! A content-addressed, append-only blob store: a pack log of payload
//! records, an index of fixed-width entries, and the checks that bind them.

pub mod blob_store;
pub mod codec;
pub mod config;
pub mod digest;
pub mod error;
pub mod laws;
