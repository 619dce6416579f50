//! Event and application services: their storage layout over `sled` trees,
//! the byte formats of their id lists, event ordering, and the message
//! outcomes they report, with their contracts proved by Verus.

pub mod codec;
pub mod store;
pub mod store_t;
pub mod error;
pub mod events;
pub mod index;
pub mod apps;
pub mod batch;
