use nosquealdb::error::{
    decode_error_message, key_error_message, EvalError, StorageError, TableError,
    TransactionCancelReason,
};
use nosquealdb::condition::{attr, evaluate};
use nosquealdb::index::GsiBuilder;
use nosquealdb::query::KeyCondition;
use nosquealdb::table::{PutRequest, Table};
use nosquealdb::transaction::TransactionFailureReason;
use nosquealdb::types::{
    AttributeValue, DecodeError, Item, KeySchema, KeyType, KeyValidationError, PrimaryKey,
};
use nosquealdb::update::UpdateExpression;

fn table() -> Table {
    Table::new("t", KeySchema::simple("id", KeyType::S))
}

#[test]
fn decoding_errors_have_their_texts() {
    assert_eq!(decode_error_message(&DecodeError::UnexpectedEof), "unexpected end of data");
    assert_eq!(decode_error_message(&DecodeError::InvalidUtf8), "invalid UTF-8 string");
    assert_eq!(decode_error_message(&DecodeError::InvalidTypeTag(200)), "invalid type tag: 200");
    assert_eq!(decode_error_message(&DecodeError::InvalidBool(7)), "invalid bool value: 7");
}

#[test]
fn key_errors_have_their_texts() {
    assert_eq!(
        key_error_message(&KeyValidationError::MissingAttribute { name: "pk".to_string() }),
        "missing required key attribute: pk"
    );
    assert_eq!(
        key_error_message(&KeyValidationError::TypeMismatch {
            name: "pk".to_string(),
            expected: "S",
            actual: "N",
        }),
        "key attribute 'pk' has wrong type. expected: S, got: N"
    );
}

#[test]
fn storage_errors_have_their_texts() {
    assert_eq!(StorageError::not_found("k").message(), "key not found: k");
    assert_eq!(StorageError::already_exists("k").message(), "key already exists: k");
    assert_eq!(StorageError::internal("disk").message(), "storage error: disk");
    assert_eq!(StorageError::not_found("k").key(), Some("k"));
    assert_eq!(StorageError::internal("disk").key(), None);
    assert!(StorageError::not_found("k").is_not_found());
    assert!(StorageError::already_exists("k").key_already_exists());
}

#[test]
fn evaluation_errors_have_their_texts() {
    let e = EvalError::TypeMismatch { left: "S", right: "N" };
    assert_eq!(e.message(), "cannot compare S with N");
}

#[test]
fn table_errors_have_their_texts() {
    assert_eq!(TableError::ItemNotFound.message(), "item not found");
    assert_eq!(TableError::ItemAlreadyExists.message(), "item already exists");
    assert_eq!(TableError::ConditionFailed.message(), "condition check failed");
    assert_eq!(TableError::index_not_found("by-x").message(), "index not found: by-x");
    assert_eq!(TableError::update_error("bad").message(), "update error: bad");
    assert_eq!(
        TableError::ConditionError("cannot compare S with N".to_string()).message(),
        "condition error: cannot compare S with N"
    );
    assert_eq!(TableError::Storage("gone".to_string()).message(), "storage error: gone");
    assert_eq!(TableError::Encoding("bad".to_string()).message(), "encoding error: bad");
    assert_eq!(
        TableError::InvalidKey(KeyValidationError::MissingAttribute { name: "id".to_string() })
            .message(),
        "invalid key: missing required key attribute: id"
    );
    assert_eq!(
        TableError::transaction_canceled(vec![
            TransactionCancelReason::ConditionCheckFailed { index: 0 },
            TransactionCancelReason::ItemNotFound { index: 12 },
            TransactionCancelReason::DuplicateItem { index: 2 },
            TransactionCancelReason::ValidationError { index: 3, message: "no".to_string() },
        ])
        .message(),
        "transaction canceled: condition check failed at index 0, item not found at index 12, \
         duplicate item at index 2, validation error at index 3: no"
    );
    assert_eq!(TableError::transaction_canceled(vec![]).message(), "transaction canceled: ");
}

#[test]
fn errors_of_other_kinds_become_table_errors() {
    assert!(
        TableError::from_decode_error(DecodeError::InvalidBool(3))
            == TableError::Encoding("invalid bool value: 3".to_string())
    );
    assert!(
        TableError::from_storage_error(StorageError::internal("x"))
            == TableError::Storage("storage error: x".to_string())
    );
    assert!(
        TableError::from_eval_error(EvalError::TypeMismatch { left: "S", right: "N" })
            == TableError::ConditionError("cannot compare S with N".to_string())
    );
    assert!(
        TableError::from_key_error(KeyValidationError::MissingAttribute { name: "a".to_string() })
            .is_invalid_key()
    );
}

#[test]
fn failure_reasons_become_cancel_reasons() {
    assert!(
        TransactionFailureReason::ConditionCheckFailed { index: 1 }.into_cancel_reason()
            == TransactionCancelReason::ConditionCheckFailed { index: 1 }
    );
    assert!(
        TransactionFailureReason::ItemNotFound { index: 2 }.into_cancel_reason()
            == TransactionCancelReason::ItemNotFound { index: 2 }
    );
    assert!(
        TransactionFailureReason::DuplicateItem { index: 3 }.into_cancel_reason()
            == TransactionCancelReason::DuplicateItem { index: 3 }
    );
    assert!(
        TransactionFailureReason::KeyModification { index: 4 }.into_cancel_reason()
            == TransactionCancelReason::ValidationError {
                index: 4,
                message: "cannot modify key attributes".to_string(),
            }
    );
    assert!(
        TransactionFailureReason::InvalidKey { index: 5, message: "m".to_string() }
            .into_cancel_reason()
            == TransactionCancelReason::ValidationError { index: 5, message: "m".to_string() }
    );
    assert_eq!(
        TransactionFailureReason::InvalidKey { index: 5, message: "m".to_string() }.message(),
        "invalid key at index 5: m"
    );
    assert_eq!(TransactionFailureReason::DuplicateItem { index: 3 }.index(), 3);
}

#[test]
fn each_table_error_comes_from_an_operation() {
    let mut t = table();
    t.put_item(Item::new().with_s("id", "a").with_n("n", 1)).unwrap();

    assert!(t.put_item(Item::new().with_s("other", "x")).unwrap_err().is_invalid_key());
    assert!(t
        .update_item(&PrimaryKey::simple("none"), UpdateExpression::new().set("n", 2i32))
        .unwrap_err()
        .is_not_found());
    assert!(t
        .put(PutRequest::new(Item::new().with_s("id", "a")).if_not_exists())
        .unwrap_err()
        .item_already_exists());
    assert!(t.query_gsi("nope", KeyCondition::pk("x")).unwrap_err().is_index_not_found());
    assert!(t.query_lsi("nope", KeyCondition::pk("x")).unwrap_err().is_index_not_found());
    assert!(t
        .put(PutRequest::new(Item::new().with_s("id", "a")).condition(attr("n").eq(5i32)))
        .unwrap_err()
        .is_condition_failed());
    match t.put(PutRequest::new(Item::new().with_s("id", "a")).condition(attr("n").lt("x"))) {
        Err(TableError::ConditionError(m)) => assert_eq!(m, "cannot compare N with S"),
        other => panic!("unexpected: {:?}", other),
    }
    assert!(t
        .update_item(&PrimaryKey::simple("a"), UpdateExpression::new().set("id", "b"))
        .unwrap_err()
        .is_update_error());
    match t.update_item(&PrimaryKey::simple("a"), UpdateExpression::new().remove("id")) {
        Err(TableError::UpdateError(m)) => assert_eq!(m, "update removed key attributes"),
        other => panic!("unexpected: {:?}", other),
    }
    match t.update_item(&PrimaryKey::simple("a"), UpdateExpression::new().set("id", "b")) {
        Err(TableError::UpdateError(m)) => assert_eq!(m, "cannot modify key attributes"),
        other => panic!("unexpected: {:?}", other),
    }
}

#[test]
fn a_comparison_of_values_that_have_no_order_fails() {
    let item = Item::new().with_s("s", "x").with_bool("b", true);
    match evaluate(&attr("s").lt(1i32), &item) {
        Err(EvalError::TypeMismatch { left, right }) => {
            assert_eq!(left, "S");
            assert_eq!(right, "N");
        },
        other => panic!("unexpected: {:?}", other),
    }
    assert!(evaluate(&attr("b").ge(true), &item).is_err());
    // equality of two values of different types fails too
    match evaluate(&attr("s").eq(1i32), &item) {
        Err(EvalError::TypeMismatch { left, right }) => {
            assert_eq!(left, "S");
            assert_eq!(right, "N");
        },
        other => panic!("unexpected: {:?}", other),
    }
    match evaluate(&attr("b").ne(AttributeValue::Null), &item) {
        Err(EvalError::TypeMismatch { left, right }) => {
            assert_eq!(left, "BOOL");
            assert_eq!(right, "NULL");
        },
        other => panic!("unexpected: {:?}", other),
    }
    // equality of two values of one type is decided, whatever the type
    assert_eq!(evaluate(&attr("b").eq(true), &item).unwrap(), true);
    assert_eq!(evaluate(&attr("b").ne(true), &item).unwrap(), false);
    assert_eq!(evaluate(&attr("s").eq("y"), &item).unwrap(), false);
}

#[test]
fn an_index_of_an_unknown_name_is_none() {
    let mut t = table();
    t.add_gsi(GsiBuilder::new("by-n", KeySchema::simple("n", KeyType::N)));
    assert!(t.gsi("by-n").is_some());
    assert!(t.gsi("by-m").is_none());
    assert!(t.lsi("by-n").is_none());
    assert_eq!(t.gsi_names(), vec!["by-n".to_string()]);
}

#[test]
fn a_condition_that_compares_across_types_is_an_error_of_the_write() {
    let mut t = table();
    t.put_item(Item::new().with_s("id", "a").with_n("n", 1)).unwrap();
    match t.put(PutRequest::new(Item::new().with_s("id", "a")).condition(attr("n").eq("1"))) {
        Err(TableError::ConditionError(m)) => assert_eq!(m, "cannot compare N with S"),
        other => panic!("unexpected: {:?}", other),
    }
    match t.update_item(&PrimaryKey::simple("a"), UpdateExpression::new().set("n", 2i32)) {
        Ok(_) => {},
        other => panic!("unexpected: {:?}", other),
    }
    // the item is as the failed write left it, and as the update made it
    let item = t.get_item(&PrimaryKey::simple("a")).unwrap().unwrap();
    assert_eq!(item.get("n"), Some(&AttributeValue::N("2".to_string())));
}
