//! The shared key-value store: its keys, its records and what each operation
//! decides between two calls of the store.

pub mod keys;
pub mod store;
