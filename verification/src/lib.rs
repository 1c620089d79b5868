//! An in-memory document store with partition and sort keys, secondary
//! indexes, conditional writes, atomic updates, batches and transactions.

pub mod batch;
pub mod bytes;
pub mod compare;
pub mod condition;
pub mod digits;
pub mod error;
pub mod index;
pub mod number;
pub mod query;
pub mod sorted;
pub mod storage;
pub mod table;
pub mod text;
pub mod transaction;
pub mod types;
pub mod update;
pub mod utils;

pub use batch::{
    BatchExecutor, BatchGetRequest, BatchGetResult, BatchWriteItem, BatchWriteRequest,
    BatchWriteResult,
};
pub use error::{StorageError, StorageResult, TableError, TableResult, TransactionCancelReason};
pub use index::{GlobalSecondaryIndex, GsiBuilder, LocalSecondaryIndex, LsiBuilder, Projection};
pub use query::{KeyCondition, QueryOptions, QueryResult, SortKeyOp};
pub use storage::{MemoryStorage, Storage, StorageExt};
pub use table::{
    DeleteRequest, GetRequest, PutRequest, QueryRequest, ScanRequest, Table, TableBuilder,
    UpdateRequest,
};
pub use transaction::{
    TransactGetItem, TransactGetRequest, TransactGetResult, TransactWriteItem,
    TransactWriteRequest, TransactionExecutor, TransactionFailureReason,
};
pub use types::{
    encode_key_component, AttrMap, AttributeValue, BinarySet, DecodeError, Item, KeyAttribute,
    KeySchema, KeyType, KeyValidationError, KeyValue, PrimaryKey, ReturnValue, StringSet,
    WriteResult,
};
pub use update::{UpdateAction, UpdateExecutor, UpdateExpression};
pub use utils::{
    add_numeric_strings, compare_key_values, compare_numeric_strings, escape_key_chars,
    numbers_equal,
};
