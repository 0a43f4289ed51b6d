//! An in-memory filesystem model: an inode table (the node store) and the
//! request handlers that read and mutate it.
mod clock;
pub mod handler;
pub mod laws;
pub mod store;
pub mod types;
