//! Disjoint mutable region views over a single owned buffer.
//!
//! A [`MutSlice`] takes ownership of a contiguous buffer and services
//! requests for batches of region views: half-open index ranges that are
//! checked, before any view is handed out, to lie inside the buffer and to
//! be pairwise disjoint and in ascending order. Reads and writes then go
//! through the validated batch, and the buffer can be extracted back out
//! unchanged except for the mutations made through the views.

pub mod buffer;
pub mod ranges;

pub use buffer::MutSlice;
pub use ranges::SliceError;
pub use ranges::Views;
