#![allow(unused_imports, dead_code, unused_mut, unused_variables)]
use nosquealdb::batch::{BatchGetRequest, BatchWriteItem, BatchWriteRequest};
use nosquealdb::condition::{attr, AttrType, AttributePath, CompareOp, Condition};
use nosquealdb::error::{TableError, TransactionCancelReason};
use nosquealdb::index::{GsiBuilder, LsiBuilder, Projection};
use nosquealdb::query::{KeyCondition, QueryOptions, SortKeyOp};
use nosquealdb::table::{
    DeleteRequest, GetRequest, PutRequest, QueryRequest, ScanRequest, Table, TableBuilder,
    UpdateRequest,
};
use nosquealdb::transaction::{
    IntoTransactWrite, TransactGetItem, TransactGetRequest, TransactGetResult, TransactWriteItem,
    TransactWriteRequest,
};
use nosquealdb::types::{
    decode, encode, AttrMap, AttributeValue, BinarySet, DecodeError, Item, KeyAttribute,
    KeySchema, KeyType, KeyValidationError, KeyValue, PrimaryKey, ReturnValue, StringSet,
    WriteResult,
};
use nosquealdb::update::{UpdateAction, UpdateExecutor, UpdateExpression};
use nosquealdb::utils::{
    add_numeric_strings, base64_decode, base64_encode, compare_key_values,
    compare_numeric_strings, escape_key_chars, numbers_equal,
};

fn simple_table() -> Table {
    Table::new("users", KeySchema::simple("user_id", KeyType::S))
}

fn composite_table() -> Table {
    Table::new(
        "orders",
        KeySchema::composite("user_id", KeyType::S, "order_id", KeyType::S),
    )
}

#[test]
fn simple_key() {
    let mut table = simple_table();

    let item = Item::new()
        .with_s("user_id", "user123")
        .with_s("name", "Bob")
        .with_n("count", 42);

    table.put_item(item.clone()).unwrap();

    let key = PrimaryKey::simple("user123");
    let retrieved = table.get_item(&key).unwrap().unwrap();

    assert_eq!(retrieved.get("user_id"), item.get("user_id"));
    assert_eq!(retrieved.get("name"), item.get("name"));
    assert_eq!(retrieved.get("count"), item.get("count"));
}

#[test]
fn composite_key() {
    let mut table = composite_table();

    let item = Item::new()
        .with_s("user_id", "user123")
        .with_s("order_id", "order456")
        .with_n("total", 67);

    table.put_item(item.clone()).unwrap();

    let key = PrimaryKey::composite("user123", "order456");
    let retrieved = table.get_item(&key).unwrap().unwrap();

    assert_eq!(retrieved.get("user_id"), item.get("user_id"));
    assert_eq!(retrieved.get("order_id"), item.get("order_id"));
    assert_eq!(retrieved.get("total"), item.get("total"));
}

#[test]
fn core_nonexistent_returns_none() {
    let table = simple_table();
    let key = PrimaryKey::simple("user123");
    let result = table.get_item(&key);
    assert!(result.is_ok());
    assert!(result.unwrap().is_none());
}

#[test]
fn replace_existing_and_return_old() {
    let mut table = simple_table();
    let test_key_name = "user123";

    let item1 = Item::new()
        .with_s("user_id", test_key_name)
        .with_s("name", "Alice");
    let item2 = Item::new()
        .with_s("user_id", test_key_name)
        .with_s("name", "Bob");

    let result = table.put(PutRequest::new(item1).return_old()).unwrap();
    assert!(result.attributes.is_none());
    assert!(!result.was_update);

    let result = table.put(PutRequest::new(item2).return_old()).unwrap();
    assert!(result.attributes.is_some());
    assert!(result.was_update);
    assert_eq!(
        result.attributes.unwrap().get("name"),
        Some(&AttributeValue::S("Alice".into()))
    );

    let key = PrimaryKey::simple(test_key_name);
    let curr = table.get_item(&key).unwrap().unwrap();
    assert_eq!(curr.get("name"), Some(&AttributeValue::S("Bob".into())));
}

#[test]
fn core_simple() {
    let mut table = simple_table();
    let update_expr = UpdateExpression::new();

    let item = Item::new()
        .with_s("user_id", "user123")
        .with_s("name", "Alice")
        .with_n("count", 42);
    table.put_item(item.clone()).unwrap();

    let key = PrimaryKey::simple("user123");
    let result = table
        .update_item(&key, update_expr.set("name", "Bob").add("count", 5i32))
        .unwrap()
        .unwrap();

    assert_eq!(result.get("name"), Some(&AttributeValue::S("Bob".into())));
    assert_eq!(result.get("count"), Some(&AttributeValue::N("47".into())));
}

#[test]
fn nonexistent_fails() {
    let mut table = simple_table();
    let key = PrimaryKey::simple("nonexistent");
    let result = table.update_item(&key, UpdateExpression::new().set("name", "Bob"));
    assert!(result.is_err());
    assert!(result.unwrap_err().is_not_found());
}

#[test]
fn modify_key_fails() {
    let mut table = simple_table();
    let item = Item::new()
        .with_s("user_id", "user123")
        .with_s("name", "Alice")
        .with_n("count", 42);
    table.put_item(item.clone()).unwrap();

    let key = PrimaryKey::simple("user123");
    let result = table.update_item(&key, UpdateExpression::new().set("user_id", "fail"));
    assert!(result.is_err());
    assert!(result.unwrap_err().is_update_error());
}

#[test]
fn put_return_none() {
    let mut table = simple_table();
    let item = Item::new()
        .with_s("user_id", "user123")
        .with_s("name", "Alice");

    let result = table.put(PutRequest::new(item)).unwrap();
    assert!(result.attributes.is_none());
    assert!(!result.was_update);
}

#[test]
fn put_return_all_old() {
    let mut table = simple_table();

    // on create
    let item1 = Item::new()
        .with_s("user_id", "user123")
        .with_s("name", "Alice");
    let result = table.put(PutRequest::new(item1).return_old()).unwrap();
    assert!(result.attributes.is_none());
    assert!(!result.was_update);

    // on overwrite
    let item2 = Item::new()
        .with_s("user_id", "user123")
        .with_s("name", "Bob");
    let result = table.put(PutRequest::new(item2).return_old()).unwrap();
    assert!(result.was_update);
    let old = result.attributes.unwrap();
    assert_eq!(old.get("name"), Some(&AttributeValue::S("Alice".into())));
}

#[test]
fn put_return_all_new() {
    let mut table = simple_table();
    let item = Item::new()
        .with_s("user_id", "user123")
        .with_s("name", "Alice");

    let result = table.put(PutRequest::new(item).return_new()).unwrap();
    assert!(!result.was_update);

    let new = result.attributes.unwrap();
    assert_eq!(new.get("name"), Some(&AttributeValue::S("Alice".into())));
}

#[test]
fn delete_return_old() {
    let mut table = simple_table();
    table
        .put_item(
            Item::new()
                .with_s("user_id", "user123")
                .with_s("name", "Alice"),
        )
        .unwrap();

    let result = table
        .delete(DeleteRequest::new(PrimaryKey::simple("user123")).return_old())
        .unwrap();

    assert!(result.was_update);
    assert_eq!(
        result.attributes.unwrap().get("name"),
        Some(&AttributeValue::S("Alice".into()))
    );
}

fn composite_table_with_indexes() -> Table {
    let schema = KeySchema::composite("user_id", KeyType::S, "order_id", KeyType::S);

    TableBuilder::new("orders", schema)
        .with_gsi(GsiBuilder::new(
            "orders-by-date",
            KeySchema::composite("order_date", KeyType::S, "user_id", KeyType::S),
        ))
        .with_lsi(LsiBuilder::new("orders-by-status", "status", KeyType::S))
        .build()
}

fn sample_order(user: &str, order: &str, date: &str, status: &str, amount: i32) -> Item {
    Item::new()
        .with_s("user_id", user)
        .with_s("order_id", order)
        .with_s("order_date", date)
        .with_s("status", status)
        .with_n("amount", amount)
}

#[test]
fn updated_on_delete() {
    let mut table = composite_table_with_indexes();

    table
        .put_item(sample_order(
            "user1",
            "order001",
            "2026-01-08",
            "pending",
            100,
        ))
        .unwrap();

    let result = table
        .query_gsi("orders-by-date", KeyCondition::pk("2026-01-08"))
        .unwrap();
    assert_eq!(result.count, 1);

    table
        .delete_item(&PrimaryKey::composite("user1", "order001"))
        .unwrap();

    let result = table
        .query_gsi("orders-by-date", KeyCondition::pk("2026-01-08"))
        .unwrap();
    assert_eq!(result.count, 0);
}

#[test]
fn updated_on_item_update() {
    let mut table = composite_table_with_indexes();

    table
        .put_item(sample_order(
            "user1",
            "order001",
            "2026-01-08",
            "pending",
            100,
        ))
        .unwrap();

    table
        .put_item(sample_order(
            "user1",
            "order001",
            "2026-01-20",
            "shipped",
            150,
        ))
        .unwrap();

    let result = table
        .query_gsi("orders-by-date", KeyCondition::pk("2026-01-08"))
        .unwrap();
    assert_eq!(result.count, 0);

    let result = table
        .query_gsi("orders-by-date", KeyCondition::pk("2026-01-20"))
        .unwrap();
    assert_eq!(result.count, 1);
}

#[test]
fn sparse_only_indexes_items_with_attributes() {
    let mut table = composite_table_with_indexes();

    table
        .put_item(sample_order(
            "user1",
            "order001",
            "2026-01-08",
            "pending",
            100,
        ))
        .unwrap();

    // item without order_date: should not be in GSI
    table
        .put_item(
            Item::new()
                .with_s("user_id", "user1")
                .with_s("order_id", "order002")
                .with_s("status", "pending")
                .with_n("amount", 200),
        )
        .unwrap();

    let result = table
        .query_gsi("orders-by-date", KeyCondition::pk("2026-01-08"))
        .unwrap();
    assert_eq!(result.count, 1);

    // should exist in the table
    assert_eq!(table.len(), 2);
}

#[test]
fn core_automatically_indexed_on_put() {
    let mut table = composite_table_with_indexes();

    table
        .put_item(sample_order(
            "user1",
            "order001",
            "2026-01-08",
            "pending",
            100,
        ))
        .unwrap();
    table
        .put_item(sample_order(
            "user1",
            "order002",
            "2026-01-08",
            "shipped",
            200,
        ))
        .unwrap();
    table
        .put_item(sample_order(
            "user2",
            "order003",
            "2026-01-08",
            "pending",
            300,
        ))
        .unwrap();

    let result = table
        .query_gsi("orders-by-date", KeyCondition::pk("2026-01-08"))
        .unwrap();

    assert_eq!(result.count, 3);
}

#[test]
fn core_query_with_sort_key_condition() {
    let mut table = composite_table_with_indexes();

    table
        .put_item(sample_order(
            "user1",
            "order001",
            "2026-01-08",
            "pending",
            100,
        ))
        .unwrap();
    table
        .put_item(sample_order(
            "user2",
            "order002",
            "2026-01-08",
            "shipped",
            200,
        ))
        .unwrap();
    table
        .put_item(sample_order(
            "user3",
            "order003",
            "2026-01-08",
            "pending",
            300,
        ))
        .unwrap();

    // query GSI with sort key condition
    let result = table
        .query_gsi(
            "orders-by-date",
            KeyCondition::pk("2026-01-08").sk_begins_with("user1"),
        )
        .unwrap();

    assert_eq!(result.count, 1);
}

#[test]
fn core_automatically_indexed_on_put_again() {
    let mut table = composite_table_with_indexes();

    table
        .put_item(sample_order(
            "user1",
            "order001",
            "2026-01-08",
            "pending",
            100,
        ))
        .unwrap();
    table
        .put_item(sample_order(
            "user1",
            "order002",
            "2026-01-16",
            "shipped",
            200,
        ))
        .unwrap();
    table
        .put_item(sample_order(
            "user1",
            "order003",
            "2026-01-17",
            "pending",
            300,
        ))
        .unwrap();

    // query LSI: same partition key, different sort key
    let result = table
        .query_lsi(
            "orders-by-status",
            KeyCondition::pk("user1").sk_eq("pending"),
        )
        .unwrap();

    assert_eq!(result.count, 2);
}

#[test]
fn core_put_if_not_exists() {
    let mut table = simple_table();

    let item1 = Item::new()
        .with_s("user_id", "user123")
        .with_s("name", "Alice");
    let item2 = Item::new()
        .with_s("user_id", "user123")
        .with_s("name", "Bob");

    // doesn't exist yet, should succeed
    assert!(table.put(PutRequest::new(item1).if_not_exists()).is_ok());
    assert_eq!(table.len(), 1);

    // alreadys exists, should fail
    assert!(table.put(PutRequest::new(item2).if_not_exists()).is_err());
    assert_eq!(table.len(), 1);

    // initial put is preserved
    let key = PrimaryKey::simple("user123");
    let item = table.get_item(&key).unwrap().unwrap();
    assert_eq!(item.get("name"), Some(&AttributeValue::S("Alice".into())))
}

#[test]
fn core_put_with_condition() {
    let mut table = simple_table();

    let item = Item::new()
        .with_s("user_id", "user123")
        .with_s("name", "Alice");

    // doesn't exist yet, should succeed
    let result =
        table.put(PutRequest::new(item.clone()).condition(attr("user_id").not_exists()));
    assert!(result.is_ok());
    assert_eq!(table.len(), 1);

    // alreadys exists, should fail
    let result =
        table.put(PutRequest::new(item.clone()).condition(attr("user_id").not_exists()));
    assert!(result.is_err());
    assert!(result.unwrap_err().is_condition_failed());
    assert_eq!(table.len(), 1);

    // initial put is preserved
    let key = PrimaryKey::simple("user123");
    let item = table.get_item(&key).unwrap().unwrap();
    assert_eq!(item.get("name"), Some(&AttributeValue::S("Alice".into())))
}

#[test]
fn core_delete_with_condition() {
    let mut table = simple_table();

    let _ = table.put(PutRequest::new(
        Item::new()
            .with_s("user_id", "user123")
            .with_s("status", "inactive"),
    ));

    let key = PrimaryKey::simple("user123");

    // wrong condition, should fail
    let result = table
        .delete(DeleteRequest::new(key.clone()).condition(attr("status").eq("active")));
    assert!(result.is_err());
    assert!(result.unwrap_err().is_condition_failed());
    assert_eq!(table.len(), 1);

    // item exists, should succeed
    let result = table
        .delete(DeleteRequest::new(key.clone()).condition(attr("status").eq("inactive")));
    assert!(result.is_ok());
    assert!(table.is_empty());
}

#[test]
fn existing_returns_item() {
    let mut table = simple_table();

    let item = Item::new()
        .with_s("user_id", "user123")
        .with_s("name", "Alice");
    table.put_item(item).unwrap();

    let key = PrimaryKey::simple("user123");
    let deleted = table.delete_item(&key).unwrap();
    assert!(deleted.is_some());
    assert_eq!(
        deleted.unwrap().get("name"),
        Some(&AttributeValue::S("Alice".into()))
    );
    assert!(table.is_empty());
}

#[test]
fn core_nonexistent_returns_none_again() {
    let mut table = simple_table();
    let key = PrimaryKey::simple("nonexistent");
    let deleted = table.delete_item(&key);
    assert!(deleted.is_ok());
    assert!(deleted.unwrap().is_none());
}

#[test]
fn put_rejects_missing_partition_key() {
    let mut table = simple_table();
    let item = Item::new().with_s("name", "Alice");

    let result = table.put_item(item);
    assert!(result.unwrap_err().is_invalid_key());
}

#[test]
fn put_rejects_missing_sort_key() {
    let mut table = composite_table();
    let item = Item::new().with_s("user_id", "user123");

    let result = table.put_item(item);
    assert!(result.unwrap_err().is_invalid_key());
}

#[test]
fn put_rejects_wrong_key_type() {
    let mut table = simple_table();
    let item = Item::new().with_n("user_id", 123).with_s("name", "Alice");

    let result = table.put_item(item);
    assert!(result.unwrap_err().is_invalid_key());
}

#[test]
fn query_with_request_builder() {
    let mut table = composite_table();
    for i in 1..=5 {
        let status = if i % 2 == 0 { "shipped" } else { "pending" };
        table
            .put_item(
                Item::new()
                    .with_s("user_id", "user1")
                    .with_s("order_id", format!("order#{:03}", i))
                    .with_s("status", status)
                    .with_n("amount", i * 100),
            )
            .unwrap();
    }

    // query
    let result = table
        .query(QueryRequest::new(KeyCondition::pk("user1")))
        .unwrap();
    assert_eq!(result.count, 5);

    // with filter
    let result = table
        .query(
            QueryRequest::new(KeyCondition::pk("user1"))
                .filter(attr("status").eq("pending")),
        )
        .unwrap();
    assert_eq!(result.count, 3);

    // with limit and reverse
    let result = table
        .query(
            QueryRequest::new(KeyCondition::pk("user1"))
                .limit(2)
                .reverse(),
        )
        .unwrap();
    assert_eq!(result.count, 2);
    assert_eq!(
        result.items[0].get("order_id").unwrap().as_s(),
        Some("order#005")
    );
}

#[test]
fn scan_with_request_builder() {
    let mut table = simple_table();

    for i in 0..10 {
        let status = if i % 2 == 0 { "active" } else { "inactive" };
        table
            .put_item(
                Item::new()
                    .with_s("user_id", format!("user{}", i))
                    .with_s("status", status),
            )
            .unwrap();
    }

    // scan all
    let items = table.scan(ScanRequest::new()).unwrap();
    assert_eq!(items.len(), 10);

    // with filter
    let items = table
        .scan(ScanRequest::new().filter(attr("status").eq("active")))
        .unwrap();
    assert_eq!(items.len(), 5);

    // with limit
    let items = table.scan(ScanRequest::new().limit(3)).unwrap();
    assert_eq!(items.len(), 3);
}

#[test]
fn core_empty() {
    let mut table = simple_table();
    let result = table.transact_write(TransactWriteRequest::new());
    assert!(result.is_ok());
}

#[test]
fn write() {
    let mut table = simple_table();

    // single write
    let result = table.transact_write(
        TransactWriteRequest::new().put(
            Item::new()
                .with_s("user_id", "user1")
                .with_s("name", "Alice"),
        ),
    );
    assert!(result.is_ok());
    assert_eq!(table.len(), 1);

    // multiple writes
    let result = table.transact_write(
        TransactWriteRequest::new()
            .put(Item::new().with_s("user_id", "user2").with_s("name", "Bob"))
            .put(
                Item::new()
                    .with_s("user_id", "user3")
                    .with_s("name", "John"),
            ),
    );
    assert!(result.is_ok());
    assert_eq!(table.len(), 3);
}

#[test]
fn get() {
    let mut table = simple_table();
    table
        .put_item(Item::new().with_s("user_id", "user1").with_n("value", 1))
        .unwrap();
    table
        .put_item(Item::new().with_s("user_id", "user2").with_n("value", 2))
        .unwrap();

    let result = table
        .transact_get(
            TransactGetRequest::new()
                .get(PrimaryKey::simple("user1"))
                .get(PrimaryKey::simple("user2")),
        )
        .unwrap();

    assert_eq!(result.len(), 2);
    assert_eq!(result.found_count(), 2);
    assert_eq!(
        result.get(0).unwrap().get("value"),
        Some(&AttributeValue::N("1".into()))
    );

    // missing item should not fail and return accurate results
    let result = table
        .transact_get(
            TransactGetRequest::new()
                .get(PrimaryKey::simple("user1"))
                .get(PrimaryKey::simple("missing")),
        )
        .unwrap();

    assert_eq!(result.len(), 2);
    assert_eq!(result.found_count(), 1);
    assert!(result.get(0).is_some());
    assert!(result.get(1).is_none());
}

#[test]
fn mixed_operations() {
    let mut table = simple_table();
    table
        .put_item(Item::new().with_s("user_id", "user1").with_n("count", 100))
        .unwrap();

    // write + update
    let result = table.transact_write(
        TransactWriteRequest::new()
            .put(Item::new().with_s("user_id", "user2").with_n("count", 200))
            .update(
                PrimaryKey::simple("user1"),
                UpdateExpression::new().add("count", 42i32),
            ),
    );
    assert!(result.is_ok());
    assert_eq!(table.len(), 2);

    // get
    let item = table
        .get_item(&PrimaryKey::simple("user1"))
        .unwrap()
        .unwrap();
    assert_eq!(item.get("count"), Some(&AttributeValue::N("142".into())));
}

#[test]
fn core_reject_duplicate_keys() {
    let mut table = simple_table();

    let result = table.transact_write(
        TransactWriteRequest::new()
            .put(Item::new().with_s("user_id", "foo"))
            .put(Item::new().with_s("user_id", "foo")),
    );
    assert!(result.is_err());
    assert!(result.unwrap_err().is_transaction_canceled());
    assert!(table.is_empty());
}

#[test]
fn condition_check_failure_rolls_back() {
    let mut table = simple_table();
    table
        .put_item(
            Item::new()
                .with_s("user_id", "user1")
                .with_s("status", "inactive"),
        )
        .unwrap();

    let result = table.transact_write(
        TransactWriteRequest::new()
            .put(Item::new().with_s("user_id", "user2"))
            .condition_check(PrimaryKey::simple("user1"), attr("status").eq("active")),
    );
    assert!(result.is_err());
    assert!(result.unwrap_err().is_transaction_canceled());

    // transaction failed, user2 should not be created
    table
        .get_item(&PrimaryKey::simple("user1"))
        .unwrap()
        .unwrap();
    assert_eq!(table.len(), 1);
    assert!(
        table
            .get_item(&PrimaryKey::simple("user2"))
            .unwrap()
            .is_none()
    );
}

#[test]
fn core_from_vec() {
    let mut table = simple_table();

    let items = vec![
        TransactWriteItem::put(Item::new().with_s("user_id", "user1")),
        TransactWriteItem::put(Item::new().with_s("user_id", "user2")),
    ];

    let result = table.transact_write(items);
    assert!(result.is_ok());
    assert_eq!(table.len(), 2);

    let items = vec![
        TransactGetItem::get(PrimaryKey::simple("user1")),
        TransactGetItem::get(PrimaryKey::simple("user2")),
    ];
    let result = table.transact_get(items).unwrap();
    assert_eq!(result.found_count(), 2);
}

#[test]
fn empty_batch() {
    let mut table = simple_table();

    // write
    let result = table.batch_write(BatchWriteRequest::new()).unwrap();
    assert!(result.is_complete());
    assert_eq!(result.processed_count, 0);

    // read
    let result = table.batch_get(BatchGetRequest::new()).unwrap();
    assert!(result.is_complete());
    assert_eq!(result.found_count(), 0);
}

#[test]
fn multiple_writes() {
    let mut table = simple_table();

    let result = table
        .batch_write(
            BatchWriteRequest::new()
                .put(Item::new().with_s("user_id", "user0"))
                .put(Item::new().with_s("user_id", "user1"))
                .put(Item::new().with_s("user_id", "user2"))
                .delete(PrimaryKey::simple("user2")),
        )
        .unwrap();
    assert!(result.is_complete());
    assert_eq!(result.processed_count, 4);
    assert_eq!(table.len(), 2);
}

#[test]
fn from_vec_items() {
    let mut table = simple_table();

    // put
    let items = vec![
        Item::new().with_s("user_id", "user0"),
        Item::new().with_s("user_id", "user1"),
    ];
    let result = table.put_items(items).unwrap();
    assert!(result.is_complete());
    assert_eq!(result.processed_count, 2);
    assert_eq!(table.len(), 2);

    // get
    let keys = vec![PrimaryKey::simple("user0"), PrimaryKey::simple("user1")];
    let result = table.get_items(keys.clone()).unwrap();
    assert!(result.is_complete());
    assert_eq!(result.found_count(), 2);

    // delete
    let result = table.delete_items(keys.clone()).unwrap();
    assert!(result.is_complete());
    assert!(table.is_empty());
    assert_eq!(result.processed_count, 2);
}

#[test]
fn updates_indexes() {
    let mut table = TableBuilder::new(
        "test",
        KeySchema::composite("pk", KeyType::S, "sk", KeyType::S),
    )
    .with_gsi(GsiBuilder::new(
        "by-status",
        KeySchema::simple("status", KeyType::S),
    ))
    .build();

    table
        .batch_write(
            BatchWriteRequest::new()
                .put(
                    Item::new()
                        .with_s("pk", "user1")
                        .with_s("sk", "order1")
                        .with_s("status", "pending"),
                )
                .put(
                    Item::new()
                        .with_s("pk", "user1")
                        .with_s("sk", "order2")
                        .with_s("status", "pending"),
                ),
        )
        .unwrap();

    let result = table
        .query_gsi("by-status", KeyCondition::pk("pending"))
        .unwrap();
    assert_eq!(result.count, 2);
}

#[test]
fn request_put() {
    let item = Item::new().with_s("pk", "test");

    let req = PutRequest::new(item.clone());
    assert!(req.condition.is_none());
    assert!(!req.if_not_exists);
    assert_eq!(req.return_value, ReturnValue::Nothing);

    let req = PutRequest::new(item.clone())
        .condition(attr("version").eq(1i32))
        .return_old()
        .if_not_exists();
    assert!(req.condition.is_some());
    assert!(req.if_not_exists);
    assert_eq!(req.return_value, ReturnValue::AllOld);
}

#[test]
fn request_update() {
    let key = PrimaryKey::simple("test");
    let expr = UpdateExpression::new().set("name", "Alice");

    let req = UpdateRequest::new(key.clone(), expr.clone());
    assert!(req.condition.is_none());
    assert_eq!(req.return_value, ReturnValue::AllNew);

    let req = UpdateRequest::new(key.clone(), expr.clone())
        .condition(attr("status").eq("active"))
        .return_old();
    assert!(req.condition.is_some());
    assert_eq!(req.return_value, ReturnValue::AllOld);
}

#[test]
fn request_delete() {
    let key = PrimaryKey::simple("test");

    let req = DeleteRequest::new(key.clone());
    assert!(req.condition.is_none());
    assert_eq!(req.return_value, ReturnValue::Nothing);

    let req = DeleteRequest::new(key.clone())
        .condition(attr("locked").eq(false))
        .return_old();
    assert!(req.condition.is_some());
    assert_eq!(req.return_value, ReturnValue::AllOld);
}

#[test]
fn query() {
    let cond = KeyCondition::pk("user1");

    let req = QueryRequest::new(cond.clone());
    assert!(req.filter.is_none());
    assert!(req.options.limit.is_none());
    assert!(req.options.scan_forward);

    let req = QueryRequest::new(cond.clone())
        .filter(attr("status").eq("active"))
        .limit(10)
        .reverse();
    assert!(req.filter.is_some());
    assert!(req.options.limit.is_some());
    assert_eq!(req.options.limit, Some(10));
    assert!(!req.options.scan_forward);
}

#[test]
fn scan() {
    let req = ScanRequest::new();
    assert!(req.limit.is_none());
    assert!(req.filter.is_none());

    let req = ScanRequest::new()
        .filter(attr("status").eq("active"))
        .limit(5);
    assert!(req.limit.is_some());
    assert_eq!(req.limit, Some(5));
    assert!(req.filter.is_some());
}

