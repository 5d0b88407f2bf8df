//! Verified core of a file-watching snapshot daemon: the tracked-file index,
//! content-addressed captures, the control protocol and its request handlers,
//! and the decisions of the daemon's event loop.

pub mod types;
pub mod alias;
pub mod daemon;
pub mod handlers;
pub mod index;
pub mod laws;
pub mod store;
pub mod wire;
