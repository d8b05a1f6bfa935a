//! Shared states of stream adaptors: one stream copied into several, and one
//! stream split into groups by key.
//!
//! Each state decides, for every poll, what the polling task is answered,
//! which wakers are to be woken, and whether the inner stream must be polled;
//! the task that polls holds the state behind a lock and does the polling.

pub mod poll;
pub mod copied_multi_stream;
pub mod group_by;
pub mod group_by_laws;
