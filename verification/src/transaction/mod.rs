//! Transactions: writes that happen all or not at all, and reads of several
//! items.

pub mod executor;
pub mod laws;
pub mod request;
pub mod types;

pub use executor::{TransactionExecutor, TransactionFailureReason};
pub use request::{IntoTransactGet, IntoTransactWrite, TransactGetRequest, TransactWriteRequest};
pub use types::{TransactGetItem, TransactGetResult, TransactWriteItem};
