//! The table engine.

pub mod engine;
pub mod laws;
pub mod request;
pub mod sound;

pub use engine::{Table, TableBuilder};
pub use request::{
    DeleteRequest, GetRequest, IntoDeleteRequest, IntoGetRequest, IntoPutRequest,
    IntoQueryRequest, PutRequest, QueryRequest, ScanRequest, UpdateRequest,
};
