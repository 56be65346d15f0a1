//! A block-scoped key/value store: a versioned, hash-chained index routes keys
//! to content hashes, and a content-addressed side store holds the values.

pub mod backing;
pub mod errors;
pub mod hash;
pub mod hex;
pub mod index;
pub mod lookup;
pub mod merkle;
pub mod model;
pub mod setup;
pub mod side_store;
pub mod store;
pub mod theorems;
pub mod types;
