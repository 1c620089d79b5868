//! Conditions: boolean expressions over the attributes of an item.

pub mod eval;
pub mod expression;
pub mod path;

pub use eval::evaluate;
pub use expression::{attr, AttrType, CompareOp, Condition, ConditionBuilder};
pub use path::{AttributePath, IntoPath, PathSegment};
