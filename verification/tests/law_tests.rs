use nosquealdb::condition::{attr, evaluate, AttributePath, CompareOp, Condition};
use nosquealdb::error::{TableError, TransactionCancelReason};
use nosquealdb::index::{GsiBuilder, LsiBuilder};
use nosquealdb::query::KeyCondition;
use nosquealdb::table::{PutRequest, QueryRequest, Table, TableBuilder, UpdateRequest};
use nosquealdb::transaction::TransactWriteRequest;
use nosquealdb::types::{encode, AttributeValue, Item, KeySchema, KeyType, KeyValue, PrimaryKey};
use nosquealdb::update::UpdateExpression;

fn person() -> Item {
    Item::new().with_s("name", "Alice").with_n("age", 30)
}

fn compare(path: &str, op: CompareOp, value: AttributeValue) -> Condition {
    Condition::Compare { path: AttributePath::new(path), op, value }
}

fn snapshot(table: &Table) -> Vec<Vec<u8>> {
    table
        .scan_all()
        .unwrap()
        .iter()
        .map(|item| encode(&item.to_attribute()))
        .collect()
}

fn sort_keys(items: &[Item]) -> Vec<String> {
    items
        .iter()
        .map(|item| match item.get("sk") {
            Some(AttributeValue::S(s)) => s.clone(),
            Some(AttributeValue::N(n)) => n.clone(),
            other => panic!("unexpected sort key: {:?}", other),
        })
        .collect()
}

#[test]
fn on_an_absent_path_only_inequality_holds() {
    let item = person();
    let value = AttributeValue::S("x".to_string());
    assert_eq!(evaluate(&compare("gone", CompareOp::Ne, value.clone()), &item).unwrap(), true);
    for op in [CompareOp::Eq, CompareOp::Lt, CompareOp::Le, CompareOp::Gt, CompareOp::Ge] {
        assert_eq!(evaluate(&compare("gone", op, value.clone()), &item).unwrap(), false);
    }
    // also where the value could be ordered against nothing
    let odd = AttributeValue::Bool(true);
    assert_eq!(evaluate(&compare("gone", CompareOp::Lt, odd.clone()), &item).unwrap(), false);
    assert_eq!(evaluate(&compare("gone", CompareOp::Ne, odd), &item).unwrap(), true);
    // and on a nested path
    let nested = || AttributePath::new("name").key("first");
    assert_eq!(evaluate(&Condition::ne(nested(), "x"), &item).unwrap(), true);
    assert_eq!(evaluate(&Condition::eq(nested(), "x"), &item).unwrap(), false);
}

#[test]
fn a_disjunction_stops_at_a_condition_that_holds() {
    let item = person();
    let failing = attr("name").lt(5i32);
    assert!(evaluate(&failing, &item).is_err());
    let holds = attr("name").eq("Alice");
    assert_eq!(evaluate(&holds.duplicate().or(failing.duplicate()), &item).unwrap(), true);
    // the other way round the failure is met first
    assert!(evaluate(&failing.or(holds), &item).is_err());
}

#[test]
fn a_conjunction_stops_at_a_condition_that_does_not_hold() {
    let item = person();
    let failing = attr("name").lt(5i32);
    let fails_not = attr("name").eq("Bob");
    assert_eq!(evaluate(&fails_not.duplicate().and(failing.duplicate()), &item).unwrap(), false);
    assert!(evaluate(&failing.duplicate().and(fails_not), &item).is_err());
    assert!(evaluate(&attr("name").eq("Alice").and(failing), &item).is_err());
}

#[test]
fn a_null_attribute_is_there() {
    let item = Item::new().with_null("gone");
    assert_eq!(evaluate(&attr("gone").is_present(), &item).unwrap(), true);
    assert_eq!(evaluate(&attr("gone").not_exists(), &item).unwrap(), false);
}

#[test]
fn a_cancelled_transaction_leaves_every_byte_as_it_was() {
    let mut table = TableBuilder::new("accounts", KeySchema::simple("id", KeyType::S))
        .with_gsi(GsiBuilder::new("by-owner", KeySchema::simple("owner", KeyType::S)))
        .build();
    table.put_item(Item::new().with_s("id", "a").with_n("balance", 100).with_s("owner", "x")).unwrap();
    table.put_item(Item::new().with_s("id", "b").with_n("balance", 200).with_s("owner", "y")).unwrap();
    let before = snapshot(&table);
    let by_owner = table.query_gsi("by-owner", KeyCondition::pk("x")).unwrap().count;

    // the last operation fails: nothing of the first two must be seen
    let result = table.transact_write(
        TransactWriteRequest::new()
            .put(Item::new().with_s("id", "c").with_n("balance", 1).with_s("owner", "x"))
            .update(PrimaryKey::simple("a"), UpdateExpression::new().add("balance", 5i32))
            .condition_check(PrimaryKey::simple("b"), attr("balance").gt(1000i32)),
    );
    match result {
        Err(TableError::TransactionCanceled { reasons }) => {
            assert_eq!(reasons.len(), 1);
            assert!(reasons[0] == TransactionCancelReason::ConditionCheckFailed { index: 2 });
        },
        other => panic!("unexpected: {:?}", other),
    }
    assert_eq!(snapshot(&table), before);
    assert_eq!(table.len(), 2);
    assert_eq!(table.query_gsi("by-owner", KeyCondition::pk("x")).unwrap().count, by_owner);
}

#[test]
fn a_transaction_is_cancelled_for_its_first_failure() {
    let mut table = Table::new("t", KeySchema::simple("id", KeyType::S));
    table.put_item(Item::new().with_s("id", "a")).unwrap();

    let result = table.transact_write(
        TransactWriteRequest::new()
            .update(PrimaryKey::simple("missing"), UpdateExpression::new().set("x", 1i32))
            .put(Item::new().with_s("other", "no key")),
    );
    match result {
        Err(TableError::TransactionCanceled { reasons }) => {
            assert!(reasons[0] == TransactionCancelReason::ItemNotFound { index: 0 });
        },
        other => panic!("unexpected: {:?}", other),
    }

    let result = table.transact_write(
        TransactWriteRequest::new()
            .put(Item::new().with_s("id", "b"))
            .delete(PrimaryKey::simple("b")),
    );
    match result {
        Err(TableError::TransactionCanceled { reasons }) => {
            assert!(reasons[0] == TransactionCancelReason::DuplicateItem { index: 1 });
        },
        other => panic!("unexpected: {:?}", other),
    }

    let result = table.transact_write(
        TransactWriteRequest::new()
            .update(PrimaryKey::simple("a"), UpdateExpression::new().set("id", "z")),
    );
    match result {
        Err(TableError::TransactionCanceled { reasons }) => {
            assert!(
                reasons[0]
                    == TransactionCancelReason::ValidationError {
                        index: 0,
                        message: "cannot modify key attributes".to_string(),
                    }
            );
        },
        other => panic!("unexpected: {:?}", other),
    }
    assert_eq!(table.len(), 1);
}

#[test]
fn a_transaction_that_passes_writes_everything() {
    let mut table = Table::new("t", KeySchema::simple("id", KeyType::S));
    table.put_item(Item::new().with_s("id", "a").with_n("n", 1)).unwrap();
    table.put_item(Item::new().with_s("id", "b")).unwrap();
    table.put_item(Item::new().with_s("id", "d").with_n("n", 1)).unwrap();
    table
        .transact_write(
            TransactWriteRequest::new()
                .update(PrimaryKey::simple("a"), UpdateExpression::new().add("n", 2i32))
                .delete(PrimaryKey::simple("b"))
                .put(Item::new().with_s("id", "c"))
                .condition_check(PrimaryKey::simple("d"), attr("n").eq(1i32)),
        )
        .unwrap();
    let a = table.get_item(&PrimaryKey::simple("a")).unwrap().unwrap();
    assert_eq!(a.get("n"), Some(&AttributeValue::N("3".to_string())));
    assert!(table.get_item(&PrimaryKey::simple("b")).unwrap().is_none());
    assert!(table.get_item(&PrimaryKey::simple("c")).unwrap().is_some());
}

#[test]
fn a_query_ascends_by_sort_key_and_descends_in_reverse() {
    let mut table = Table::new("t", KeySchema::composite("pk", KeyType::S, "sk", KeyType::S));
    for sk in ["c", "a", "e", "b", "d"] {
        table.put_item(Item::new().with_s("pk", "u1").with_s("sk", sk)).unwrap();
    }
    table.put_item(Item::new().with_s("pk", "u2").with_s("sk", "0")).unwrap();

    let forward = table.query(QueryRequest::new(KeyCondition::pk("u1"))).unwrap();
    assert_eq!(sort_keys(&forward.items), ["a", "b", "c", "d", "e"]);
    assert_eq!(forward.count, 5);

    let backward = table.query(QueryRequest::new(KeyCondition::pk("u1")).reverse()).unwrap();
    let mut expected = sort_keys(&forward.items);
    expected.reverse();
    assert_eq!(sort_keys(&backward.items), expected);

    let first = table.query(QueryRequest::new(KeyCondition::pk("u1")).limit(3)).unwrap();
    assert_eq!(sort_keys(&first.items), ["a", "b", "c"]);
    let last = table
        .query(QueryRequest::new(KeyCondition::pk("u1")).limit(3).reverse())
        .unwrap();
    assert_eq!(sort_keys(&last.items), ["e", "d", "c"]);
}

#[test]
fn number_sort_keys_ascend_by_value() {
    let mut table = Table::new("t", KeySchema::composite("pk", KeyType::S, "sk", KeyType::N));
    for sk in [100, -1, 20, 0, -42, 37, 8] {
        table.put_item(Item::new().with_s("pk", "u1").with_n("sk", sk)).unwrap();
    }
    let forward = table.query(QueryRequest::new(KeyCondition::pk("u1"))).unwrap();
    assert_eq!(sort_keys(&forward.items), ["-42", "-1", "0", "8", "20", "37", "100"]);
    let backward = table.query(QueryRequest::new(KeyCondition::pk("u1")).reverse()).unwrap();
    assert_eq!(sort_keys(&backward.items), ["100", "37", "20", "8", "0", "-1", "-42"]);
}

#[test]
fn an_item_is_stored_under_the_key_that_it_holds() {
    let mut table = Table::new("t", KeySchema::composite("pk", KeyType::S, "sk", KeyType::S));
    let item = Item::new().with_s("pk", "a#b").with_s("sk", "c:d").with_n("n", 1);
    let key = item.extract_key(table.schema()).unwrap();
    table.put_item(item.duplicate()).unwrap();
    let stored = table.get_item_by_storage_key(&key.to_storage_key()).unwrap().unwrap();
    assert!(stored == item);
    assert!(table.get_item_by_storage_key("S:a\\#b#S:c\\:d").unwrap().is_some());
    assert!(table.get_item_by_storage_key("S:a#b#S:c:d").unwrap().is_none());
}

#[test]
fn a_global_index_holds_exactly_the_items_with_its_key() {
    let mut table = TableBuilder::new("t", KeySchema::composite("pk", KeyType::S, "sk", KeyType::S))
        .with_gsi(GsiBuilder::new("by-status", KeySchema::simple("status", KeyType::S)))
        .build();
    table.put_item(Item::new().with_s("pk", "u").with_s("sk", "o").with_s("status", "p")).unwrap();
    assert_eq!(table.query_gsi("by-status", KeyCondition::pk("p")).unwrap().count, 1);
    assert_eq!(table.gsi("by-status").unwrap().len(), 1);

    // the item loses the index key: it leaves the index and stays in the table
    table.put_item(Item::new().with_s("pk", "u").with_s("sk", "o")).unwrap();
    assert_eq!(table.query_gsi("by-status", KeyCondition::pk("p")).unwrap().count, 0);
    assert_eq!(table.gsi("by-status").unwrap().len(), 0);
    assert_eq!(table.len(), 1);

    // an index key of another type does not count
    table.put_item(Item::new().with_s("pk", "u").with_s("sk", "o").with_n("status", 1)).unwrap();
    assert_eq!(table.gsi("by-status").unwrap().len(), 0);

    // it gets the key by an update, changes it, and is deleted
    let key = PrimaryKey::composite("u", "o");
    table.update_item(&key, UpdateExpression::new().set("status", "q")).unwrap();
    assert_eq!(table.query_gsi("by-status", KeyCondition::pk("q")).unwrap().count, 1);
    table.update_item(&key, UpdateExpression::new().set("status", "r")).unwrap();
    assert_eq!(table.query_gsi("by-status", KeyCondition::pk("q")).unwrap().count, 0);
    assert_eq!(table.query_gsi("by-status", KeyCondition::pk("r")).unwrap().count, 1);
    assert_eq!(table.gsi("by-status").unwrap().len(), 1);
    table.delete_item(&key).unwrap();
    assert_eq!(table.gsi("by-status").unwrap().len(), 0);
}

#[test]
fn items_with_the_same_index_key_are_told_apart_by_their_table_key() {
    let mut table = TableBuilder::new("t", KeySchema::simple("id", KeyType::S))
        .with_gsi(GsiBuilder::new("by-status", KeySchema::simple("status", KeyType::S)))
        .build();
    for id in ["a", "b", "c"] {
        table.put_item(Item::new().with_s("id", id).with_s("status", "same")).unwrap();
    }
    assert_eq!(table.gsi("by-status").unwrap().len(), 3);
    assert_eq!(table.query_gsi("by-status", KeyCondition::pk("same")).unwrap().count, 3);
    table.delete_item(&PrimaryKey::simple("b")).unwrap();
    assert_eq!(table.query_gsi("by-status", KeyCondition::pk("same")).unwrap().count, 2);
}

#[test]
fn a_local_index_holds_exactly_the_items_with_its_sort_key() {
    let mut table = TableBuilder::new("t", KeySchema::composite("pk", KeyType::S, "sk", KeyType::S))
        .with_lsi(LsiBuilder::new("by-date", "date", KeyType::S))
        .build();
    table.put_item(Item::new().with_s("pk", "u").with_s("sk", "1").with_s("date", "b")).unwrap();
    table.put_item(Item::new().with_s("pk", "u").with_s("sk", "2").with_s("date", "a")).unwrap();
    table.put_item(Item::new().with_s("pk", "u").with_s("sk", "3")).unwrap();
    let result = table.query_lsi("by-date", KeyCondition::pk("u")).unwrap();
    assert_eq!(sort_keys(&result.items), ["2", "1"]);
    assert_eq!(table.lsi("by-date").unwrap().len(), 2);
}

#[test]
fn an_index_added_later_is_filled_from_the_table() {
    let mut table = Table::new("t", KeySchema::simple("id", KeyType::S));
    table.put_item(Item::new().with_s("id", "a").with_s("status", "x")).unwrap();
    table.put_item(Item::new().with_s("id", "b")).unwrap();
    table.add_gsi(GsiBuilder::new("by-status", KeySchema::simple("status", KeyType::S)));
    assert_eq!(table.gsi("by-status").unwrap().len(), 1);
    assert_eq!(table.query_gsi("by-status", KeyCondition::pk("x")).unwrap().count, 1);
}

#[test]
fn a_put_hands_back_the_item_that_it_replaced() {
    let mut table = Table::new("t", KeySchema::simple("pk", KeyType::S));
    let first = table.put(Item::new().with_s("pk", "u").with_s("name", "A")).unwrap();
    assert!(!first.was_update);
    assert!(first.attributes.is_none());
    let second = table
        .put(PutRequest::new(Item::new().with_s("pk", "u").with_s("name", "B")).return_old())
        .unwrap();
    assert!(second.was_update);
    let old = second.attributes.unwrap();
    assert_eq!(old.get("name"), Some(&AttributeValue::S("A".to_string())));
    let now = table.get_item(&PrimaryKey::simple("u")).unwrap().unwrap();
    assert_eq!(now.get("name"), Some(&AttributeValue::S("B".to_string())));
}

#[test]
fn an_update_under_a_condition_succeeds_once() {
    let mut table = Table::new("docs", KeySchema::simple("id", KeyType::S));
    table
        .put_item(Item::new().with_s("id", "doc1").with_n("version", 1).with_s("content", "x"))
        .unwrap();
    let request = || {
        UpdateRequest::new(
            PrimaryKey::simple("doc1"),
            UpdateExpression::new().set("content", "y").set("version", 2i32),
        )
        .condition(attr("version").eq(1i32))
    };
    assert!(table.update(request()).is_ok());
    match table.update(request()) {
        Err(TableError::ConditionFailed) => {},
        other => panic!("unexpected: {:?}", other),
    }
    let item = table.get_item(&PrimaryKey::simple("doc1")).unwrap().unwrap();
    assert_eq!(item.get("content"), Some(&AttributeValue::S("y".to_string())));
    assert_eq!(item.get("version"), Some(&AttributeValue::N("2".to_string())));
}

#[test]
fn a_failed_write_leaves_the_table_as_it_was() {
    let mut table = Table::new("t", KeySchema::simple("id", KeyType::S));
    table.put_item(Item::new().with_s("id", "a").with_n("n", 1)).unwrap();
    let before = snapshot(&table);

    assert!(table.put(PutRequest::new(Item::new().with_s("id", "a")).if_not_exists()).is_err());
    assert!(table
        .put(PutRequest::new(Item::new().with_s("id", "a")).condition(attr("n").eq(2i32)))
        .is_err());
    assert!(table.put_item(Item::new().with_n("id", 1)).is_err());
    assert!(table
        .update_item(&PrimaryKey::simple("a"), UpdateExpression::new().remove("id"))
        .is_err());
    assert!(table
        .update_item(&PrimaryKey::simple("a"), UpdateExpression::new().add("n", "x"))
        .is_err());
    assert!(table
        .update_item(&PrimaryKey::simple("zz"), UpdateExpression::new().set("n", 1i32))
        .is_err());
    assert_eq!(snapshot(&table), before);
}

#[test]
fn a_key_of_another_kind_finds_nothing() {
    let mut table = Table::new("t", KeySchema::simple("id", KeyType::N));
    table.put_item(Item::new().with_n("id", 5)).unwrap();
    assert!(table.get_item(&PrimaryKey::simple(KeyValue::N("5".to_string()))).unwrap().is_some());
    assert!(table.get_item(&PrimaryKey::simple("5")).unwrap().is_none());
    // the key is the text as written
    assert!(table.get_item(&PrimaryKey::simple(KeyValue::N("5.0".to_string()))).unwrap().is_none());
}

#[test]
fn number_keys_that_are_equal_by_value_but_written_differently_are_different_keys() {
    let mut table = TableBuilder::new("t", KeySchema::simple("id", KeyType::N))
        .with_gsi(GsiBuilder::new("by-rank", KeySchema::simple("rank", KeyType::N)))
        .build();
    table.put_item(Item::new().with_n("id", "1").with_n("rank", "7")).unwrap();
    table.put_item(Item::new().with_n("id", "1.0").with_n("rank", "7")).unwrap();
    table.put_item(Item::new().with_n("id", "2").with_n("rank", "7")).unwrap();
    assert_eq!(table.len(), 3);
    assert_eq!(table.gsi("by-rank").unwrap().len(), 3);
    assert_eq!(
        table
            .query_gsi("by-rank", KeyCondition::pk(KeyValue::N("7".to_string())))
            .unwrap()
            .count,
        3
    );
}
