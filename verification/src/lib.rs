//! A small task-tracking library: an in-memory task record and a
//! SQLite-backed store that persists a whole task collection between runs.
//!
//! The heart of the crate is the persistence boundary: the mapping between
//! an in-memory [`task::Task`] and its durable row form, including the
//! timestamp codec in [`datetime`] and the priority / status coercions in
//! [`task`], with proved round-trip guarantees in [`store`].

pub mod datetime;
pub mod store;
pub mod task;
