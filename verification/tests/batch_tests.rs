use nosquealdb::batch::{
    BatchExecutor, BatchGetRequest, BatchGetResult, BatchWriteItem, BatchWriteRequest,
    BatchWriteResult, IntoBatchWrite, MAX_BATCH_GET_ITEMS, MAX_BATCH_WRITE_ITEMS,
};
use nosquealdb::types::{Item, KeySchema, KeyType, PrimaryKey};
use nosquealdb::Table;

fn new_table() -> Table {
    Table::new("mock", KeySchema::simple("pk", KeyType::S))
}

fn table_with(items: Vec<Item>) -> Table {
    let mut table = new_table();
    for item in items {
        table.put_item(item).unwrap();
    }
    table
}

#[test]
fn executor_put() {
    let executor = BatchExecutor::new();
    let mut table = new_table();

    let items = vec![
        Item::new().with_s("pk", "test0"),
        Item::new().with_s("pk", "test1"),
    ];

    let schema = table.schema().clone();
    let result = executor.execute_put(items, &schema, &mut table).unwrap();
    assert!(result.is_complete());
    assert!(!result.has_unprocessed());
    assert_eq!(result.processed_count, 2);
    assert_eq!(result.unprocessed_count(), 0);
    assert_eq!(table.len(), 2);
}

#[test]
fn put_with_invalid_key() {
    let executor = BatchExecutor::new();
    let mut table = new_table();

    let items = vec![
        Item::new().with_s("pk", "good"),
        Item::new().with_s("somethingelse", "bad"),
    ];

    let schema = table.schema().clone();
    let result = executor.execute_put(items, &schema, &mut table).unwrap();
    assert!(!result.is_complete());
    assert!(result.has_unprocessed());
    assert_eq!(result.processed_count, 1);
    assert_eq!(result.unprocessed_count(), 1);
}

#[test]
fn put_with_failures() {
    let executor = BatchExecutor::new();
    let mut table = new_table();

    let items = vec![
        Item::new().with_s("pk", "test0"),
        Item::new().with_s("not-the-pk", "test1"),
    ];

    let schema = table.schema().clone();
    let result = executor.execute_put(items, &schema, &mut table).unwrap();
    assert!(!result.is_complete());
    assert!(result.has_unprocessed());
    assert_eq!(result.processed_count, 1);
    assert_eq!(result.unprocessed_count(), 1);
    assert_eq!(
        result.unprocessed_items[0],
        BatchWriteItem::put(Item::new().with_s("not-the-pk", "test1"))
    );
}

#[test]
fn executor_delete() {
    let executor = BatchExecutor::new();
    let mut table = table_with(vec![
        Item::new().with_s("pk", "test0"),
        Item::new().with_s("pk", "test1"),
    ]);

    let keys = vec![PrimaryKey::simple("test0"), PrimaryKey::simple("test1")];

    let result = executor.execute_delete(keys, &mut table).unwrap();
    assert!(result.is_complete());
    assert!(!result.has_unprocessed());
    assert_eq!(result.processed_count, 2);
    assert_eq!(result.unprocessed_count(), 0);
    assert!(table.is_empty());
}

#[test]
fn delete_with_failures() {
    let executor = BatchExecutor::new();
    let mut table = new_table();
    // entries that do not decode make every operation on their keys fail
    table.storage.write("S:test0", vec![255]);
    table.storage.write("S:test1", vec![255]);

    let keys = vec![PrimaryKey::simple("test0"), PrimaryKey::simple("test1")];

    let result = executor.execute_delete(keys, &mut table).unwrap();
    assert!(!result.is_complete());
    assert!(result.has_unprocessed());
    assert_eq!(result.processed_count, 0);
    assert_eq!(result.unprocessed_count(), 2);
}

#[test]
fn get_batch() {
    let executor = BatchExecutor::new();
    let table = table_with(vec![
        Item::new().with_s("pk", "test0").with_n("value", 0),
        Item::new().with_s("pk", "test1").with_n("value", 1),
    ]);

    let keys = vec![PrimaryKey::simple("test0"), PrimaryKey::simple("test1")];

    let result = executor.execute_get(keys, &table).unwrap();
    assert!(result.is_complete());
    assert!(result.not_found_keys.is_empty());
    assert_eq!(result.found_count(), 2);
}

#[test]
fn get_batch_some_not_found() {
    let executor = BatchExecutor::new();
    let table = table_with(vec![
        Item::new().with_s("pk", "test0").with_n("value", 0),
        Item::new().with_s("pk", "test1").with_n("value", 1),
    ]);

    let keys = vec![
        PrimaryKey::simple("test0"),
        PrimaryKey::simple("nonexistent"),
    ];

    let result = executor.execute_get(keys, &table).unwrap();
    assert!(result.is_complete());
    assert!(!result.not_found_keys.is_empty());
    assert_eq!(result.found_count(), 1);
    assert_eq!(result.not_found_keys.len(), 1);
}

#[test]
fn get_batch_unreadable_is_unprocessed() {
    let executor = BatchExecutor::new();
    let mut table = new_table();
    table.storage.write("S:bad", vec![255]);
    let result = executor
        .execute_get(vec![PrimaryKey::simple("bad")], &table)
        .unwrap();
    assert!(!result.is_complete());
    assert_eq!(result.unprocessed_keys.len(), 1);
    assert_eq!(result.found_count(), 0);
}

#[test]
fn request_write_builder() {
    let req = BatchWriteRequest::new()
        .put(Item::new().with_s("pk", "test1"))
        .put(Item::new().with_s("pk", "test2"))
        .delete(PrimaryKey::simple("item3"));
    assert!(!req.is_empty());
    assert_eq!(req.len(), 3);
    assert!(!req.exceeds_limit());
}

#[test]
fn write_many() {
    let items = vec![
        Item::new().with_s("pk", "test1"),
        Item::new().with_s("pk", "test2"),
    ];

    let req = BatchWriteRequest::new().put_many(items);
    assert!(!req.is_empty());
    assert_eq!(req.len(), 2);
    assert!(!req.exceeds_limit());
}

#[test]
fn write_chunks() {
    let mut req = BatchWriteRequest::new();

    for i in 0..(MAX_BATCH_WRITE_ITEMS + 1) {
        req = req.put(Item::new().with_s("pk", format!("test{}", i)));
    }
    assert!(req.exceeds_limit());

    let chunks = req.into_chunks();
    assert_eq!(chunks.len(), 2);
    assert_eq!(chunks[0].len(), MAX_BATCH_WRITE_ITEMS);
    assert_eq!(chunks[1].len(), 1);
}

#[test]
fn write_chunks_exact_multiple() {
    let mut req = BatchWriteRequest::new();
    for i in 0..(2 * MAX_BATCH_WRITE_ITEMS) {
        req = req.put(Item::new().with_s("pk", format!("test{}", i)));
    }
    let chunks = req.into_chunks();
    assert_eq!(chunks.len(), 2);
    assert_eq!(chunks[0].len(), 25);
    assert_eq!(chunks[1].len(), 25);
    assert!(BatchWriteRequest::new().into_chunks().is_empty());
}

#[test]
fn write_from_items() {
    let items = vec![
        Item::new().with_s("pk", "test1"),
        Item::new().with_s("pk", "test2"),
    ];

    let req: BatchWriteRequest = items.into_batch_write();
    assert!(!req.is_empty());
    assert_eq!(req.len(), 2);
    assert!(!req.exceeds_limit());
}

#[test]
fn request_get_builder() {
    let req = BatchGetRequest::new()
        .get(PrimaryKey::simple("test1"))
        .get(PrimaryKey::simple("test2"))
        .get(PrimaryKey::simple("test3"));
    assert!(!req.is_empty());
    assert_eq!(req.len(), 3);
    assert!(!req.exceeds_limit());
}

#[test]
fn request_get_many() {
    let keys = vec![PrimaryKey::simple("test1"), PrimaryKey::simple("test2")];

    let req = BatchGetRequest::new().get_many(keys);
    assert!(!req.is_empty());
    assert_eq!(req.len(), 2);
    assert!(!req.exceeds_limit());
}

#[test]
fn get_chunks() {
    let mut req = BatchGetRequest::new();

    for i in 0..(MAX_BATCH_GET_ITEMS + 1) {
        req = req.get(PrimaryKey::simple(format!("test{}", i)));
    }
    assert!(req.exceeds_limit());

    let chunks = req.into_chunks();
    assert_eq!(chunks.len(), 2);
    assert_eq!(chunks[0].len(), MAX_BATCH_GET_ITEMS);
    assert_eq!(chunks[1].len(), 1);
}

#[test]
fn write_item() {
    let item = Item::new().with_s("pk", "test");

    let put = BatchWriteItem::put(item);
    assert!(put.is_put());
    assert!(!put.is_delete());

    let delete = BatchWriteItem::delete(PrimaryKey::simple("test"));
    assert!(!delete.is_put());
    assert!(delete.is_delete());
}

#[test]
fn write_result() {
    let mut result = BatchWriteResult::new();
    assert!(result.is_complete());
    assert!(!result.has_unprocessed());
    assert_eq!(result.unprocessed_count(), 0);

    result
        .unprocessed_items
        .push(BatchWriteItem::put(Item::new().with_s("pk", "test")));
    assert!(!result.is_complete());
    assert!(result.has_unprocessed());
    assert_eq!(result.unprocessed_count(), 1);
}

#[test]
fn types_get_result() {
    let mut result = BatchGetResult::new();
    assert!(result.is_complete());
    assert_eq!(result.found_count(), 0);

    result.items.push(Item::new().with_s("pk", "test"));
    assert_eq!(result.found_count(), 1);

    result.unprocessed_keys.push(PrimaryKey::simple("test"));
    assert!(!result.is_complete());
    assert!(result.has_unprocessed());
}
