//! Updates: ordered actions that change an item.

pub mod executor;
pub mod expression;

pub use executor::UpdateExecutor;
pub use expression::{UpdateAction, UpdateExpression};
