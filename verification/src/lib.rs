//! A process-wide unique identifier allocator.
//!
//! Identifiers are 64-bit values carved from a single monotonically growing
//! counter. Each thread holds a private reservation of `BATCH_SIZE`
//! consecutive values and serves requests from it, so the shared counter is
//! touched only once per batch. The `uniqueness` module states and proves the
//! central guarantee: however allocations interleave, no value is ever issued
//! twice.

pub mod allocator;
pub mod id;
pub mod uniqueness;

pub use allocator::{GlobalCounter, ThreadAllocator, BATCH_SIZE};
pub use id::UID;
