use nosquealdb::index::{
    GlobalSecondaryIndex, IndexBuilder, IndexStorage, LocalSecondaryIndex, Projection,
};
use nosquealdb::query::{KeyCondition, QueryOptions};
use nosquealdb::types::{Item, KeyAttribute, KeySchema, KeyType, PrimaryKey};

fn table_schema() -> KeySchema {
    KeySchema::composite("user_id", KeyType::S, "order_id", KeyType::S)
}

fn make_item(user: &str, order: &str, status: &str) -> Item {
    Item::new()
        .with_s("user_id", user)
        .with_s("order_id", order)
        .with_s("status", status)
        .with_s("date", "2026-01-26")
}

fn create_gsi() -> GlobalSecondaryIndex {
    // GSI on order_date (PK) and user_id (SK)
    let schema = KeySchema::composite("order_date", KeyType::S, "user_id", KeyType::S);
    GlobalSecondaryIndex::new("orders-by-date", schema, Projection::All, table_schema())
}

fn create_lsi() -> LocalSecondaryIndex {
    LocalSecondaryIndex::new(
        "orders-by-date",
        KeyAttribute::new("order_date", KeyType::S),
        Projection::All,
        table_schema(),
    )
}

fn sample_order(user: &str, order: &str, date: &str, amount: i32) -> Item {
    Item::new()
        .with_s("user_id", user)
        .with_s("order_id", order)
        .with_s("order_date", date)
        .with_n("amount", amount)
}

#[test]
fn index_put_and_query() {
    let gsi_schema = KeySchema::simple("status", KeyType::S);
    let mut index = IndexBuilder::global("by-status", gsi_schema).build(table_schema());

    let table_key = PrimaryKey::composite("user1", "order1");
    index.put(table_key, &make_item("user1", "order1", "pending"));

    let result = index.query(KeyCondition::pk("pending")).unwrap();
    assert_eq!(result.count, 1);
    assert!(index.is_global());
    assert!(!index.is_local());
    assert_eq!(index.name(), "by-status");
}

#[test]
fn local_index_put_and_query() {
    let mut index = IndexBuilder::local("by-date", "date", KeyType::S).build(table_schema());

    let table_key = PrimaryKey::composite("user1", "order1");
    index.put(table_key, &make_item("user1", "order1", "pending"));

    let result = index
        .query(KeyCondition::pk("user1").sk_eq("2026-01-26"))
        .unwrap();
    assert_eq!(result.count, 1);
    assert!(index.is_local());
    assert_eq!(index.schema().sk_name(), Some("date"));
    assert_eq!(index.schema().pk_name(), "user_id");
}

#[test]
fn sparse_index() {
    let gsi_schema = KeySchema::simple("status", KeyType::S);
    let mut index = IndexBuilder::global("by-status", gsi_schema).build(table_schema());

    let table_key = PrimaryKey::composite("user1", "order1");
    index.put(
        table_key,
        // no status attr
        &Item::new()
            .with_s("user_id", "user1")
            .with_s("order_id", "order1"),
    );

    assert!(index.is_empty());
}

#[test]
fn keys_only() {
    let gsi_schema = KeySchema::simple("status", KeyType::S);
    let mut index = IndexBuilder::global("by-status", gsi_schema).build(table_schema());

    let table_key = PrimaryKey::composite("user1", "order1");
    index.put(table_key, &make_item("user1", "order1", "pending"));

    let result = index.query(KeyCondition::pk("pending")).unwrap();
    let item = &result.items[0];

    assert!(item.contains("user_id"));
    assert!(item.contains("order_id"));
    assert!(item.contains("status"));
    assert!(item.contains("date"));
}

#[test]
fn builder_keys_only_projection() {
    let gsi_schema = KeySchema::simple("status", KeyType::S);
    let mut index = IndexBuilder::global("by-status", gsi_schema)
        .keys_only()
        .build(table_schema());
    index.put(
        PrimaryKey::composite("user1", "order1"),
        &make_item("user1", "order1", "pending"),
    );
    let result = index.query(KeyCondition::pk("pending")).unwrap();
    let item = &result.items[0];
    assert!(item.contains("user_id"));
    assert!(item.contains("order_id"));
    assert!(item.contains("status"));
    assert!(!item.contains("date"));
}

#[test]
fn index_storage_key_format() {
    let index_key = PrimaryKey::simple("pending");
    let table_key = PrimaryKey::composite("user1", "order1");
    assert_eq!(
        nosquealdb::index::SecondaryIndex::make_storage_key(&index_key, &table_key),
        "S:pending|S:user1#S:order1"
    );
}

#[test]
fn gsi_put_indexes_item() {
    let mut gsi = create_gsi();
    let item = sample_order("user1", "order001", "2026-01-07", 42);

    let table_key = PrimaryKey::composite("user1", "order001");
    gsi.put(table_key, &item);

    assert_eq!(gsi.len(), 1);
    assert_eq!(gsi.inner.storage.reverse_index_len(), 1);
}

#[test]
fn sparse_index_skips_items_without_key() {
    let mut gsi = create_gsi();

    // no 'order_date'; should not be indexed
    let item = Item::new()
        .with_s("user_id", "user1")
        .with_s("order_id", "order001")
        .with_n("amount", 100);

    let table_key = PrimaryKey::composite("user1", "order001");
    gsi.put(table_key, &item);

    assert!(gsi.is_empty());
    assert_eq!(gsi.inner.storage.reverse_index_len(), 0);
}

#[test]
fn query_by_index_partition_key() {
    let mut gsi = create_gsi();

    gsi.put(
        PrimaryKey::composite("user1", "order001"),
        &sample_order("user1", "order001", "2026-01-07", 100),
    );
    gsi.put(
        PrimaryKey::composite("user1", "order002"),
        &sample_order("user1", "order002", "2026-01-07", 200),
    );
    gsi.put(
        PrimaryKey::composite("user2", "order003"),
        &sample_order("user2", "order003", "2026-01-07", 300),
    );
    gsi.put(
        PrimaryKey::composite("user1", "order004"),
        &sample_order("user1", "order004", "2026-01-31", 400),
    );

    // query orders on 2026-01-07
    let result = gsi.query(KeyCondition::pk("2026-01-07")).unwrap();

    assert_eq!(result.count, 3);
}

#[test]
fn query_by_index_with_sort_key() {
    let mut gsi = create_gsi();

    gsi.put(
        PrimaryKey::composite("user1", "order001"),
        &sample_order("user1", "order001", "2026-01-07", 100),
    );
    gsi.put(
        PrimaryKey::composite("user2", "order002"),
        &sample_order("user2", "order002", "2026-01-07", 200),
    );
    gsi.put(
        PrimaryKey::composite("user3", "order003"),
        &sample_order("user3", "order003", "2026-01-07", 300),
    );

    // query orders on 2026-01-07 for user2
    let result = gsi
        .query(KeyCondition::pk("2026-01-07").sk_eq("user2"))
        .unwrap();

    assert_eq!(result.count, 1);
    assert_eq!(
        result.items[0].get("order_id").unwrap().as_s(),
        Some("order002")
    );
}

#[test]
fn gsi_delete_removes_from_index() {
    let mut gsi = create_gsi();

    let table_key = PrimaryKey::composite("user1", "order001");
    gsi.put(
        table_key.clone(),
        &sample_order("user1", "order001", "2026-01-07", 100),
    );

    assert_eq!(gsi.len(), 1);
    assert_eq!(gsi.inner.storage.reverse_index_len(), 1);

    gsi.delete(&table_key);

    assert!(gsi.is_empty());
    assert_eq!(gsi.inner.storage.reverse_index_len(), 0);
}

#[test]
fn gsi_update_replaces_index_entry() {
    let mut gsi = create_gsi();

    let table_key = PrimaryKey::composite("user1", "order001");

    gsi.put(
        table_key.clone(),
        &sample_order("user1", "order001", "2026-01-07", 100),
    );

    // update
    gsi.put(
        table_key,
        &sample_order("user1", "order001", "2026-01-31", 150),
    );

    assert_eq!(gsi.len(), 1);
    assert_eq!(gsi.inner.storage.reverse_index_len(), 1);

    // should find under new date
    let result = gsi.query(KeyCondition::pk("2026-01-31")).unwrap();
    assert_eq!(result.count, 1);

    // should not find under old date
    let result = gsi.query(KeyCondition::pk("2026-01-07")).unwrap();
    assert_eq!(result.count, 0);
}

#[test]
fn projection_keys_only() {
    let schema = KeySchema::composite("order_date", KeyType::S, "user_id", KeyType::S);
    let mut gsi = GlobalSecondaryIndex::new(
        "orders-by-date",
        schema,
        Projection::KeysOnly,
        table_schema(),
    );

    let table_key = PrimaryKey::composite("user1", "order001");
    gsi.put(
        table_key,
        &sample_order("user1", "order001", "2026-01-07", 100),
    );

    let result = gsi.query(KeyCondition::pk("2026-01-07")).unwrap();

    let item = &result.items[0];

    // should have table keys and index keys
    assert!(item.contains("user_id"));
    assert!(item.contains("order_id"));
    assert!(item.contains("order_date"));

    // should not have non-key attributes
    assert!(!item.contains("amount"));
}

#[test]
fn gsi_clear() {
    let mut gsi = create_gsi();

    for i in 0..10 {
        let table_key = PrimaryKey::composite("user1", format!("order{:03}", i));
        gsi.put(
            table_key,
            &sample_order("user1", &format!("order{:03}", i), "2026-01-22", i * 100),
        );
    }
    assert_eq!(gsi.len(), 10);
    assert_eq!(gsi.inner.storage.reverse_index_len(), 10);

    gsi.clear();
    assert_eq!(gsi.len(), 0);
    assert_eq!(gsi.inner.storage.reverse_index_len(), 0);
}

#[test]
fn gsi_reverse_index_consistency() {
    let mut gsi = create_gsi();

    for i in 0..10 {
        let table_key = PrimaryKey::composite("user1", format!("order{:03}", i));
        gsi.put(
            table_key,
            &sample_order("user1", &format!("order{:03}", i), "2026-01-22", i * 100),
        );
    }
    assert_eq!(gsi.len(), 10);
    assert_eq!(gsi.inner.storage.reverse_index_len(), 10);

    for i in 0..5 {
        let table_key = PrimaryKey::composite("user1", format!("order{:03}", i));
        gsi.delete(&table_key);
    }
    assert_eq!(gsi.len(), 5);
    assert_eq!(gsi.inner.storage.reverse_index_len(), 5);

    let result = gsi.query(KeyCondition::pk("2026-01-22")).unwrap();
    assert_eq!(result.count, 5);
}

#[test]
fn gsi_items_with_equal_index_keys_are_all_found_in_order() {
    let mut gsi = create_gsi();
    gsi.put(
        PrimaryKey::composite("user1", "b"),
        &sample_order("user1", "b", "2026-01-07", 1),
    );
    gsi.put(
        PrimaryKey::composite("user1", "a"),
        &sample_order("user1", "a", "2026-01-07", 2),
    );
    let result = gsi.query(KeyCondition::pk("2026-01-07")).unwrap();
    assert_eq!(result.count, 2);
    assert_eq!(result.items[0].get("order_id").unwrap().as_s(), Some("a"));
    assert_eq!(result.items[1].get("order_id").unwrap().as_s(), Some("b"));
    let reversed = gsi
        .query_with_options(
            KeyCondition::pk("2026-01-07"),
            QueryOptions::new().reverse().with_limit(1),
        )
        .unwrap();
    assert_eq!(reversed.count, 1);
    assert_eq!(reversed.items[0].get("order_id").unwrap().as_s(), Some("b"));
    assert_eq!(gsi.scan().len(), 2);
    assert_eq!(gsi.schema().pk_name(), "order_date");
}

#[test]
fn lsi_put_indexes_item() {
    let mut lsi = create_lsi();
    let table_key = PrimaryKey::composite("user1", "order001");
    let item = sample_order("user1", "order001", "2026-01-08", 100);

    lsi.put(&table_key, &item);
    assert_eq!(lsi.len(), 1);
    assert_eq!(lsi.inner.storage.reverse_index_len(), 1);
    assert_eq!(lsi.sort_key_name(), "order_date");
    assert!(matches!(lsi.sort_key_type(), KeyType::S));
    assert_eq!(lsi.name(), "orders-by-date");
}

#[test]
fn sparse_index_skips_items_without_sort_key() {
    let mut lsi = create_lsi();

    // item without order_date
    let item = Item::new()
        .with_s("user_id", "user1")
        .with_s("order_id", "order001")
        .with_n("amount", 100);
    let table_key = PrimaryKey::composite("user1", "order001");

    lsi.put(&table_key, &item);

    assert!(lsi.is_empty());
    assert_eq!(lsi.inner.storage.reverse_index_len(), 0);
}

#[test]
fn query_same_partition_different_sort() {
    let mut lsi = create_lsi();

    lsi.put(
        &PrimaryKey::composite("user1", "order001"),
        &sample_order("user1", "order001", "2026-01-09", 100),
    );
    lsi.put(
        &PrimaryKey::composite("user1", "order002"),
        &sample_order("user1", "order002", "2026-01-10", 200),
    );
    lsi.put(
        &PrimaryKey::composite("user1", "order003"),
        &sample_order("user1", "order003", "2026-01-20", 300),
    );
    lsi.put(
        &PrimaryKey::composite("user2", "order004"),
        &sample_order("user2", "order004", "2026-01-08", 400),
    );

    let result = lsi.query(KeyCondition::pk("user1")).unwrap();
    assert_eq!(result.count, 3);

    assert_eq!(
        result.items[0].get("order_date").unwrap().as_s(),
        Some("2026-01-09")
    );
    assert_eq!(
        result.items[2].get("order_date").unwrap().as_s(),
        Some("2026-01-20")
    );
}

#[test]
fn lsi_query_with_sort_key_condition() {
    let mut lsi = create_lsi();

    lsi.put(
        &PrimaryKey::composite("user1", "order001"),
        &sample_order("user1", "order002", "2026-01-08", 200),
    );
    lsi.put(
        &PrimaryKey::composite("user1", "order002"),
        &sample_order("user1", "order001", "2026-01-10", 100),
    );
    lsi.put(
        &PrimaryKey::composite("user1", "order003"),
        &sample_order("user1", "order003", "2026-01-20", 300),
    );

    let result = lsi
        .query(KeyCondition::pk("user1").sk_gt("2026-01-10"))
        .unwrap();

    assert_eq!(result.count, 1);
}

#[test]
fn lsi_delete_removes_from_index() {
    let mut lsi = create_lsi();

    let table_key = PrimaryKey::composite("user1", "order001");
    lsi.put(
        &table_key,
        &sample_order("user1", "order001", "2026-01-08", 100),
    );
    assert_eq!(lsi.len(), 1);
    assert_eq!(lsi.inner.storage.reverse_index_len(), 1);

    lsi.delete(&table_key);

    assert!(lsi.is_empty());
    assert_eq!(lsi.inner.storage.reverse_index_len(), 0);
}

#[test]
fn lsi_update_replaces_index_entry() {
    let mut lsi = create_lsi();

    let table_key = PrimaryKey::composite("user1", "order001");

    lsi.put(
        &table_key,
        &sample_order("user1", "order001", "2026-01-08", 100),
    );

    // update with different date
    lsi.put(
        &table_key,
        &sample_order("user1", "order001", "2026-01-20", 150),
    );
    assert_eq!(lsi.len(), 1);
    assert_eq!(lsi.inner.storage.reverse_index_len(), 1);

    let result = lsi.query(KeyCondition::pk("user1")).unwrap();
    assert_eq!(
        result.items[0].get("order_date").unwrap().as_s(),
        Some("2026-01-20")
    );
}

#[test]
fn lsi_clear() {
    let mut lsi = create_lsi();

    for i in 0..10 {
        let table_key = PrimaryKey::composite("user1", format!("order{:03}", i));
        lsi.put(
            &table_key,
            &sample_order(
                "user1",
                &format!("order{:03}", i),
                &format!("2026-01-{:02}", i),
                i * 100,
            ),
        );
    }
    assert_eq!(lsi.len(), 10);
    assert_eq!(lsi.inner.storage.reverse_index_len(), 10);

    lsi.clear();
    assert_eq!(lsi.len(), 0);
    assert_eq!(lsi.inner.storage.reverse_index_len(), 0);
}

#[test]
fn lsi_reverse_index_consistency() {
    let mut lsi = create_lsi();

    for i in 0..10 {
        let table_key = PrimaryKey::composite("user1", format!("order{:03}", i));
        lsi.put(
            &table_key,
            &sample_order(
                "user1",
                &format!("order{:03}", i),
                &format!("2026-01-{:02}", i),
                i * 100,
            ),
        );
    }
    assert_eq!(lsi.len(), 10);
    assert_eq!(lsi.inner.storage.reverse_index_len(), 10);

    for i in 0..5 {
        let table_key = PrimaryKey::composite("user1", format!("order{:03}", i));
        lsi.delete(&table_key);
    }
    assert_eq!(lsi.len(), 5);
    assert_eq!(lsi.inner.storage.reverse_index_len(), 5);

    let result = lsi.query(KeyCondition::pk("user1")).unwrap();
    assert_eq!(result.count, 5);
}

fn projection_table_schema() -> KeySchema {
    KeySchema::composite("pk", KeyType::S, "sk", KeyType::S)
}

fn projection_index_schema() -> KeySchema {
    KeySchema::composite("gsi_pk", KeyType::S, "gsi_sk", KeyType::S)
}

fn projection_item() -> Item {
    Item::new()
        .with_s("pk", "user1")
        .with_s("sk", "order#001")
        .with_s("gsi_pk", "2026-01")
        .with_s("gsi_sk", "user1")
        .with_s("name", "Test Order")
        .with_n("amount", 100)
        .with_s("status", "pending")
}

#[test]
fn project_all() {
    let item = projection_item();
    let projected = Projection::All.project_item(
        &item,
        &projection_table_schema(),
        &projection_index_schema(),
    );
    assert_eq!(item.len(), projected.len());
    assert_eq!(item, projected);
}

#[test]
fn project_keys_only() {
    let item = projection_item();
    let projected = Projection::KeysOnly.project_item(
        &item,
        &projection_table_schema(),
        &projection_index_schema(),
    );

    // should have: pk, sk, gsi_pk, gsi_sk
    assert_eq!(projected.len(), 4);
    assert!(projected.contains("pk"));
    assert!(projected.contains("sk"));
    assert!(projected.contains("gsi_pk"));
    assert!(projected.contains("gsi_sk"));
    assert!(!projected.contains("name"));
    assert!(!projected.contains("amount"));
}

#[test]
fn projection_include_specific() {
    let item = projection_item();
    let projected = Projection::including(vec!["name", "amount"]).project_item(
        &item,
        &projection_table_schema(),
        &projection_index_schema(),
    );

    // should have: pk, sk, gsi_pk, gsi_sk, name, amount
    assert_eq!(projected.len(), 6);
    assert!(projected.contains("pk"));
    assert!(projected.contains("sk"));
    assert!(projected.contains("gsi_pk"));
    assert!(projected.contains("gsi_sk"));
    assert!(projected.contains("name"));
    assert!(projected.contains("amount"));
    assert!(!projected.contains("status"));
}

#[test]
fn storage_put_and_get() {
    let mut storage: IndexStorage<String> = IndexStorage::new();
    storage.put("table_key_1".into(), "index_key_1".into(), "value1".into());
    assert_eq!(storage.len(), 1);
    assert_eq!(storage.get("index_key_1"), Some(&"value1".to_string()));
}

#[test]
fn put_overwrite_returns_old() {
    let mut storage: IndexStorage<String> = IndexStorage::new();

    storage.put("table_key_1".into(), "index_key_1".into(), "value1".into());
    let old = storage.put("table_key_1".into(), "index_key_2".into(), "value2".into());

    assert_eq!(old, Some("value1".to_string()));
    assert_eq!(storage.len(), 1);
    assert_eq!(storage.get("index_key_1"), None);
    assert_eq!(storage.get("index_key_2"), Some(&"value2".to_string()));
}

#[test]
fn remove_by_table_key() {
    let mut storage: IndexStorage<String> = IndexStorage::new();

    storage.put("table_key_1".into(), "index_key_1".into(), "value1".into());
    storage.put("table_key_2".into(), "index_key_2".into(), "value2".into());
    assert_eq!(storage.len(), 2);

    // remove nonexistent
    let removed = storage.remove_by_table_key("nonexistent");
    assert_eq!(storage.len(), 2);
    assert_eq!(removed, None);
    // remove actual key
    let removed = storage.remove_by_table_key("table_key_2");
    assert_eq!(storage.len(), 1);
    assert_eq!(storage.reverse_index_len(), 1);
    assert_eq!(removed, Some("value2".to_string()));
}

#[test]
fn storage_clear() {
    let mut storage: IndexStorage<String> = IndexStorage::new();
    storage.put("t1".into(), "i1".into(), "v1".into());
    storage.put("t2".into(), "i2".into(), "v2".into());
    assert_eq!(storage.len(), 2);

    storage.clear();
    assert!(storage.is_empty());
    assert_eq!(storage.len(), 0);
    assert_eq!(storage.reverse_index_len(), 0);
}

#[test]
fn values_iter() {
    let mut storage: IndexStorage<i32> = IndexStorage::new();
    storage.put("t1".into(), "i1".into(), 1);
    storage.put("t2".into(), "i2".into(), 2);
    storage.put("t3".into(), "i3".into(), 3);
    assert_eq!(storage.len(), 3);

    let sum: i32 = storage.values().into_iter().sum();
    assert_eq!(sum, 6);
    assert_eq!(storage.iter().len(), 3);
}
