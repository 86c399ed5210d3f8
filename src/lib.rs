//! A Signal K state store, subscription engine and protocol model.
//!
//! The library keeps the current state of vessels as a set of leaves keyed by
//! dotted paths, merges incoming deltas into it while tracking every source that
//! wrote a path, and decides which deltas each client is sent.

pub mod admin;
pub mod broker;
pub mod client;
pub mod clock;
pub mod config;
pub mod messages;
pub mod model;
pub mod path;
pub mod replay;
pub mod session;
pub mod statistics;
pub mod store;
pub mod subscription;
