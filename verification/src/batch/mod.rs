//! Batches: many writes or reads in one call, each on its own.

pub mod executor;
pub mod laws;
pub mod request;
pub mod types;

pub use executor::BatchExecutor;
pub use request::{BatchGetRequest, BatchWriteRequest, IntoBatchGet, IntoBatchWrite};
pub use types::{
    BatchGetResult, BatchWriteItem, BatchWriteResult, MAX_BATCH_GET_ITEMS, MAX_BATCH_WRITE_ITEMS,
};
