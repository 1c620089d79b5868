//! Queries: the items of one partition, in the order of their sort keys.

pub mod condition;
pub mod executor;

pub use condition::{KeyCondition, SortKeyOp};
pub use executor::{key_order, QueryExecutor, QueryOptions, QueryResult};
