//! Storage backends.

pub mod memory;
pub mod traits;

pub use memory::MemoryStorage;
pub use traits::{Storage, StorageExt};
