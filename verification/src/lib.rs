//! A lazy, composable multi-key sorting adapter for finite sequences.
//!
//! A [`adapter::SortBy`] wraps a source of elements together with a chain of
//! sort keys, applied in priority order. No key is evaluated until the first
//! element is pulled or the adapter is converted into a vector; at that moment
//! the source is drained once and sorted stably, and elements are then yielded
//! from the sorted buffer.

pub mod adapter;
pub mod keys;
pub mod laws;
pub mod sorting;

pub use adapter::SortBy;
pub use adapter::SortByIteratorExt;
pub use keys::IdentityKey;
pub use keys::KeyVal;
pub use keys::Rel;
pub use keys::SortKey;
pub use keys::Step;
