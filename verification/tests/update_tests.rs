#![allow(unused_imports, dead_code, unused_mut, unused_variables)]
use nosquealdb::batch::{BatchGetRequest, BatchWriteItem, BatchWriteRequest};
use nosquealdb::condition::{attr, AttrType, AttributePath, CompareOp, Condition};
use nosquealdb::error::{TableError, TransactionCancelReason};
use nosquealdb::index::{GsiBuilder, LsiBuilder, Projection};
use nosquealdb::query::{KeyCondition, QueryOptions, SortKeyOp};
use nosquealdb::table::{
    DeleteRequest, GetRequest, PutRequest, QueryRequest, ScanRequest, Table, TableBuilder,
    UpdateRequest,
};
use nosquealdb::transaction::{
    IntoTransactWrite, TransactGetItem, TransactGetRequest, TransactGetResult, TransactWriteItem,
    TransactWriteRequest,
};
use nosquealdb::types::{
    decode, encode, AttrMap, AttributeValue, BinarySet, DecodeError, Item, KeyAttribute,
    KeySchema, KeyType, KeyValidationError, KeyValue, PrimaryKey, ReturnValue, StringSet,
    WriteResult,
};
use nosquealdb::update::{UpdateAction, UpdateExecutor, UpdateExpression};
use nosquealdb::utils::{
    add_numeric_strings, base64_decode, base64_encode, compare_key_values,
    compare_numeric_strings, escape_key_chars, numbers_equal,
};

fn update_expr() -> UpdateExpression {
    UpdateExpression::new()
}

fn test_item() -> Item {
    Item::new()
        .with_s("pk", "test")
        .with_s("name", "Alice")
        .with_n("count", 10)
}

#[test]
fn new_attribute() {
    let executor = UpdateExecutor::new();
    let item = test_item();
    let result = executor
        .execute(item, &update_expr().set("email", "alice@example.com"))
        .unwrap();
    assert_eq!(
        result.get("email"),
        Some(&AttributeValue::S("alice@example.com".into()))
    );
    // the other attributes are preserved
    assert_eq!(result.get("pk"), Some(&AttributeValue::S("test".into())));
    assert_eq!(result.get("name"), Some(&AttributeValue::S("Alice".into())));
    assert_eq!(result.get("count"), Some(&AttributeValue::N("10".into())));
}

#[test]
fn overwrites_existing() {
    let executor = UpdateExecutor::new();
    let item = test_item();
    let result = executor
        .execute(item, &update_expr().set("name", "Bob"))
        .unwrap();
    assert_eq!(result.get("name"), Some(&AttributeValue::S("Bob".into())));
}

#[test]
fn if_not_exists() {
    let executor = UpdateExecutor::new();
    let item = test_item();

    // set if it does not exist
    let result = executor
        .execute(
            item.clone(),
            &update_expr().set_if_not_exists("email", "test@email.com"),
        )
        .unwrap();
    assert_eq!(
        result.get("email"),
        Some(&AttributeValue::S("test@email.com".into()))
    );

    // should skip existing
    let result = executor
        .execute(
            item.clone(),
            &update_expr().set_if_not_exists("name", "Bob"),
        )
        .unwrap();
    assert_eq!(result.get("name"), Some(&AttributeValue::S("Alice".into())));
}

#[test]
fn executor_nested() {
    let executor = UpdateExecutor::new();
    let mut map = AttrMap::new();
    map.insert("city".to_string(), AttributeValue::S("Newton Falls".into()));
    let item = Item::new().with_s("pk", "test").with_m("address", map);

    let path = AttributePath::new("address").key("zip");
    let result = executor
        .execute(item.clone(), &update_expr().set(path, "44444"))
        .unwrap();

    let address = result.get("address").unwrap().as_m().unwrap();
    assert_eq!(
        address.get("city"),
        Some(&AttributeValue::S("Newton Falls".into()))
    );
    assert_eq!(address.get("zip"), Some(&AttributeValue::S("44444".into())));
}

#[test]
fn to_nonexistent() {
    let executor = UpdateExecutor::new();
    let item = test_item();

    // should create the attribute
    let result = executor
        .execute(item.clone(), &update_expr().add("new_count_attr", 5i32))
        .unwrap();
    assert_eq!(
        result.get("new_count_attr"),
        Some(&AttributeValue::N("5".into()))
    );
}

#[test]
fn to_number() {
    let executor = UpdateExecutor::new();
    let item = test_item();

    // positive number should add
    let result = executor
        .execute(item.clone(), &update_expr().add("count", 5i32))
        .unwrap();
    assert_eq!(result.get("count"), Some(&AttributeValue::N("15".into())));

    // negative number should subtract
    let result = executor
        .execute(item.clone(), &update_expr().add("count", -3i32))
        .unwrap();
    assert_eq!(result.get("count"), Some(&AttributeValue::N("7".into())));
}

#[test]
fn to_string_set() {
    let executor = UpdateExecutor::new();
    let item = Item::new().with_s("pk", "test").with(
        "tags",
        AttributeValue::Ss(StringSet::from_vec(["a", "b"].into_iter().map(String::from).collect())),
    );

    let result = executor
        .execute(
            item,
            &update_expr().add(
                "tags",
                AttributeValue::Ss(StringSet::from_vec(["c", "d"].into_iter().map(String::from).collect())),
            ),
        )
        .unwrap();

    let tags = result.get("tags").unwrap().as_ss().unwrap();
    assert!(tags.contains("a"));
    assert!(tags.contains("b"));
    assert!(tags.contains("c"));
    assert!(tags.contains("d"));
}

#[test]
fn wrong_type_fails() {
    let executor = UpdateExecutor::new();
    let item = test_item();
    let result = executor.execute(item.clone(), &update_expr().add("name", 42i32));
    assert!(result.is_err());
}

#[test]
fn existing_attribute() {
    let executor = UpdateExecutor::new();
    let item = test_item();
    let result = executor
        .execute(item.clone(), &update_expr().remove("name"))
        .unwrap();
    assert!(result.get("name").is_none());
    assert_eq!(result.get("pk"), Some(&AttributeValue::S("test".into())));
    assert_eq!(result.get("count"), Some(&AttributeValue::N("10".into())));
}

#[test]
fn non_existent_attribute() {
    let executor = UpdateExecutor::new();
    let item = test_item();

    // should be a noop
    let result = executor
        .execute(item.clone(), &update_expr().remove("nonexistent"))
        .unwrap();
    assert_eq!(result.len(), item.len());
}

#[test]
fn executor_nested_again() {
    let executor = UpdateExecutor::new();
    let mut inner = AttrMap::new();
    inner.insert("a".to_string(), AttributeValue::N("1".into()));
    inner.insert("b".to_string(), AttributeValue::N("2".into()));

    let item = Item::new().with_s("pk", "test").with_m("data", inner);

    let path = AttributePath::new("data").key("a");
    let result = executor.execute(item, &update_expr().remove(path)).unwrap();

    let data = result.get("data").unwrap().as_m().unwrap();
    assert!(data.get("a").is_none());
    assert_eq!(data.get("b"), Some(&AttributeValue::N("2".into())));
}

#[test]
fn from_nonexistent() {
    let executor = UpdateExecutor::new();
    let item = test_item();

    // should perform a noop
    let result = executor
        .execute(item.clone(), &update_expr().delete("nonexistent", "abc"))
        .unwrap();
    assert_eq!(result.len(), item.len());
}

#[test]
fn from_string_set() {
    let executor = UpdateExecutor::new();
    let item = Item::new().with_s("pk", "test").with(
        "tags",
        AttributeValue::Ss(StringSet::from_vec(["a", "b", "c"].into_iter().map(String::from).collect())),
    );

    let result = executor
        .execute(
            item,
            &update_expr().delete(
                "tags",
                AttributeValue::Ss(StringSet::from_vec(["b"].into_iter().map(String::from).collect())),
            ),
        )
        .unwrap();

    let tags = result.get("tags").unwrap().as_ss().unwrap();
    assert!(tags.contains("a"));
    assert!(!tags.contains("b"));
    assert!(tags.contains("c"));
}

#[test]
fn expression_empty() {
    let expr = update_expr();
    assert!(expr.is_empty());
    assert_eq!(expr.len(), 0);
}

#[test]
fn builder() {
    let expr = update_expr()
        .set("name", "Alice")
        .set("id", 42i32)
        .remove("foo")
        .add("count", 100i32);
    assert!(!expr.is_empty());
    assert_eq!(expr.len(), 4);
}

#[test]
fn base64_roundtrip() {
    let cases: &[&[u8]] = &[
        b"",
        b"f",
        b"fo",
        b"foo",
        b"foob",
        b"fooba",
        b"foobar",
        &[0, 1, 2, 3, 255, 254, 253],
    ];

    for case in cases {
        let encoded = base64_encode(case);
        let decoded = base64_decode(&encoded).unwrap();
        assert_eq!(*case, decoded.as_slice(), "roundtrip failed for {:?}", case);
    }
}

#[test]
fn base64_known_values() {
    assert_eq!(base64_encode(b""), "");
    assert_eq!(base64_encode(b"f"), "Zg==");
    assert_eq!(base64_encode(b"fo"), "Zm8=");
    assert_eq!(base64_encode(b"foo"), "Zm9v");
    assert_eq!(base64_encode(b"foob"), "Zm9vYg==");
    assert_eq!(base64_encode(b"fooba"), "Zm9vYmE=");
    assert_eq!(base64_encode(b"foobar"), "Zm9vYmFy");
}

#[test]
fn base64_decode_invalid() {
    assert!(base64_decode("!!!").is_none());
    assert!(base64_decode("abc!").is_none());
}

#[test]
fn integers() {
    assert_eq!(add_numeric_strings("10", "5").unwrap(), "15");
    assert_eq!(add_numeric_strings("10", "-5").unwrap(), "5");
    assert_eq!(add_numeric_strings("-10", "-5").unwrap(), "-15");
}

#[test]
fn float() {
    assert_eq!(add_numeric_strings("10", "0.5").unwrap(), "10.5");
    assert_eq!(add_numeric_strings("10.5", "-5.5").unwrap(), "5");
    assert_eq!(add_numeric_strings("-10.2", "-5.3").unwrap(), "-15.5");
}

#[test]
fn invalid_fails() {
    assert!(add_numeric_strings("apple", "0.5").is_err());
    assert!(add_numeric_strings("10.5", "banana").is_err());
}

