#![allow(unused_imports, dead_code, unused_mut, unused_variables)]
use nosquealdb::batch::{BatchGetRequest, BatchWriteItem, BatchWriteRequest};
use nosquealdb::condition::{attr, AttrType, AttributePath, CompareOp, Condition};
use nosquealdb::error::{TableError, TransactionCancelReason};
use nosquealdb::index::{GsiBuilder, LsiBuilder, Projection};
use nosquealdb::query::{KeyCondition, QueryOptions, SortKeyOp};
use nosquealdb::table::{
    DeleteRequest, GetRequest, PutRequest, QueryRequest, ScanRequest, Table, TableBuilder,
    UpdateRequest,
};
use nosquealdb::transaction::{
    IntoTransactWrite, TransactGetItem, TransactGetRequest, TransactGetResult, TransactWriteItem,
    TransactWriteRequest,
};
use nosquealdb::types::{
    decode, encode, AttrMap, AttributeValue, BinarySet, DecodeError, Item, KeyAttribute,
    KeySchema, KeyType, KeyValidationError, KeyValue, PrimaryKey, ReturnValue, StringSet,
    WriteResult,
};
use nosquealdb::update::{UpdateAction, UpdateExecutor, UpdateExpression};
use nosquealdb::utils::{
    add_numeric_strings, base64_decode, base64_encode, compare_key_values,
    compare_numeric_strings, escape_key_chars, numbers_equal,
};

#[test]
fn encode_large_length() {
    // large: >127 bytes
    let data = "x".repeat(200);
    let enc = encode(&AttributeValue::S(data.clone()));
    let dec = decode(&enc).unwrap();
    assert_eq!(AttributeValue::S(data), dec);
}

#[test]
fn decode_truncated_fails() {
    let enc = encode(&AttributeValue::S("hello".into()));
    let truncated = &enc[..enc.len() - 2];
    assert!(decode(truncated).is_err());
}

#[test]
fn decode_invalid_tag_fails() {
    assert!(decode(&[255]).is_err());
}

fn roundtrip(value: AttributeValue) {
    let enc = encode(&value);
    let dec = decode(&enc).expect("decode failed");
    assert_eq!(value, dec, "roundtrip failed for {:?}", value);
}

#[test]
fn scalars() {
    roundtrip(AttributeValue::S("".into()));
    roundtrip(AttributeValue::S("hello".into()));
    roundtrip(AttributeValue::N("1234".into()));
    roundtrip(AttributeValue::N("-99.99".into()));
    roundtrip(AttributeValue::B(vec![]));
    roundtrip(AttributeValue::B(vec![1, 2, 3, 4]));
    roundtrip(AttributeValue::Bool(true));
    roundtrip(AttributeValue::Bool(false));
    roundtrip(AttributeValue::Null);
}

#[test]
fn documents() {
    roundtrip(AttributeValue::S("".into()));
}

#[test]
fn sets() {
    roundtrip(AttributeValue::S("".into()));
}

#[test]
fn encoding_nested() {
    roundtrip(AttributeValue::S("".into()));
}

fn simple_schema() -> KeySchema {
    KeySchema::simple("user_id", KeyType::S)
}

fn composite_schema() -> KeySchema {
    KeySchema::composite("user_id", KeyType::S, "order_id", KeyType::S)
}

#[test]
fn item_builder() {
    let item = Item::new()
        .with_s("name", "Username")
        .with_n("id", 42)
        .with_bool("active", true);

    assert_eq!(
        item.get("name"),
        Some(&AttributeValue::S("Username".into()))
    );
    assert_eq!(item.get("id"), Some(&AttributeValue::N("42".into())));
    assert_eq!(item.get("active"), Some(&AttributeValue::Bool(true)));
    assert_eq!(item.get("banana"), None);
}

#[test]
fn item_simple() {
    let schema = simple_schema();
    let item = Item::new()
        .with_s("user_id", "user123")
        .with_s("name", "Username");

    let key = item.extract_key(&schema).unwrap();
    assert_eq!(key.pk, KeyValue::S("user123".into()));
    assert!(key.sk.is_none());
}

#[test]
fn item_composite() {
    let schema = composite_schema();
    let item = Item::new()
        .with_s("user_id", "user123")
        .with_s("order_id", "order456")
        .with_n("total", 99);

    let key = item.extract_key(&schema).unwrap();
    assert_eq!(key.pk, KeyValue::S("user123".into()));
    assert_eq!(key.sk, Some(KeyValue::S("order456".into())));
}

#[test]
fn missing_pk_is_none() {
    let schema = simple_schema();
    let item = Item::new().with_s("name", "Username");
    assert!(item.extract_key(&schema).is_none());
}

#[test]
fn wrong_type_is_none() {
    let schema = simple_schema();
    let item = Item::new().with_n("user_id", 123);
    assert!(item.extract_key(&schema).is_none());
}

#[test]
fn item_simple_again() {
    let schema = simple_schema();
    let item = Item::new().with_s("user_id", "user123");
    assert!(item.validate_key(&schema).is_ok());
}

#[test]
fn item_composite_again() {
    let schema = composite_schema();
    let item = Item::new()
        .with_s("user_id", "user123")
        .with_s("order_id", "order456");
    assert!(item.validate_key(&schema).is_ok());
}

#[test]
fn item_missing_attribute() {
    let schema = composite_schema();
    let item = Item::new().with_s("user_id", "user123");
    let err = item.validate_key(&schema).unwrap_err();
    assert!(
        matches!(err, KeyValidationError::MissingAttribute { name } if name == "order_id")
    );
}

#[test]
fn type_mismatch() {
    let schema = simple_schema();
    let item = Item::new().with_n("user_id", 123);
    let err = item.validate_key(&schema).unwrap_err();
    assert!(
        matches!(err, KeyValidationError::TypeMismatch { name, expected: "S", actual: "N" } if name == "user_id")
    );
}

#[test]
fn key_type_maching() {
    assert!(KeyType::S.matches(&KeyValue::S("hello".into())));
    assert!(!KeyType::S.matches(&KeyValue::N("123".into())));
    assert!(KeyType::N.matches(&KeyValue::N("123".into())));
    assert!(KeyType::B.matches(&KeyValue::B(vec![1, 2, 3].into())));
}

#[test]
fn key_value_from_attribute() {
    // valid conversions
    assert_eq!(
        KeyValue::from_attribute_value(&AttributeValue::S("foo".into())),
        Some(KeyValue::S("foo".into()))
    );
    assert_eq!(
        KeyValue::from_attribute_value(&AttributeValue::N("123".into())),
        Some(KeyValue::N("123".into()))
    );

    // invalid conversions
    assert_eq!(KeyValue::from_attribute_value(&AttributeValue::Null), None);
    assert_eq!(
        KeyValue::from_attribute_value(&AttributeValue::Bool(true)),
        None
    );
    assert_eq!(
        KeyValue::from_attribute_value(&AttributeValue::L(vec![])),
        None
    );
}

#[test]
fn key_simple() {
    let pk = PrimaryKey::simple("user123");
    assert_eq!(pk.to_storage_key(), "S:user123");

    let pk = PrimaryKey::simple(KeyValue::N("123".into()));
    assert_eq!(pk.to_storage_key(), "N:123");
}

#[test]
fn key_composite() {
    let pk = PrimaryKey::composite("user123", "order456");
    assert_eq!(pk.to_storage_key(), "S:user123#S:order456");

    let pk = PrimaryKey::composite("user123", KeyValue::N("456".into()));
    assert_eq!(pk.to_storage_key(), "S:user123#N:456");
}

#[test]
fn binary() {
    let pk = PrimaryKey::simple(KeyValue::B(vec![0x00, 0x01, 0x02]));
    // base64 of [0, 1, 2] == "AAEC"
    assert_eq!(pk.to_storage_key(), "B:AAEC");
}

#[test]
fn special_chars() {
    let pk = PrimaryKey::simple("user#123:woot");
    assert_eq!(pk.to_storage_key(), "S:user\\#123\\:woot");
}

