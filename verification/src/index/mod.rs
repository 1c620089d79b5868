//! Secondary indexes: views of a table under other keys.

pub mod gsi;
pub mod laws;
pub mod lsi;
pub mod projection;
pub mod secondary;
pub mod storage;
pub mod unique;

pub use gsi::{GlobalSecondaryIndex, GsiBuilder};
pub use lsi::{LocalSecondaryIndex, LsiBuilder};
pub use projection::Projection;
pub use secondary::{IndexBuilder, IndexKind, SecondaryIndex};
pub use storage::IndexStorage;
