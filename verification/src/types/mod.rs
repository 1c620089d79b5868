//! The data model: attribute values, items, keys and their binary encoding.

pub mod attributes;
pub mod encoding;
pub mod item;
pub mod key;
pub mod outcome;

pub use attributes::{AttrMap, AttrView, AttributeValue, BinarySet, IntoAttribute, StringSet};
pub use encoding::{decode, encode, DecodeError, Decoder, Encoder};
pub use item::{Item, KeyValidationError};
pub use key::{
    encode_key_component, IntoKey, KeyAttribute, KeySchema, KeyType, KeyValue, PrimaryKey,
};
pub use outcome::{ReturnValue, WriteResult};
