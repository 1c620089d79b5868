use nosquealdb::bytes::Rank;
use nosquealdb::query::{
    key_order, KeyCondition, QueryExecutor, QueryOptions, QueryResult, SortKeyOp,
};
use nosquealdb::types::{Item, KeySchema, KeyType, KeyValue, PrimaryKey};

#[test]
fn equal() {
    let op = SortKeyOp::eq("foo");
    assert!(op.matches(&KeyValue::S("foo".into())));
    assert!(!op.matches(&KeyValue::S("bar".into())));
}

#[test]
fn less_than() {
    let op = SortKeyOp::lt("b");
    assert!(op.matches(&KeyValue::S("a".into())));
    assert!(!op.matches(&KeyValue::S("b".into())));
    assert!(!op.matches(&KeyValue::S("c".into())));
}

#[test]
fn less_than_or_equal() {
    let op = SortKeyOp::le("b");
    assert!(op.matches(&KeyValue::S("a".into())));
    assert!(op.matches(&KeyValue::S("b".into())));
    assert!(!op.matches(&KeyValue::S("c".into())));
}

#[test]
fn greater_than() {
    let op = SortKeyOp::gt("b");
    assert!(!op.matches(&KeyValue::S("a".into())));
    assert!(!op.matches(&KeyValue::S("b".into())));
    assert!(op.matches(&KeyValue::S("c".into())));
}

#[test]
fn greater_than_or_equal() {
    let op = SortKeyOp::ge("b");
    assert!(!op.matches(&KeyValue::S("a".into())));
    assert!(op.matches(&KeyValue::S("b".into())));
    assert!(op.matches(&KeyValue::S("c".into())));
}

#[test]
fn between_inclusive() {
    let op = SortKeyOp::between("b", "d");
    assert!(!op.matches(&KeyValue::S("a".into())));
    assert!(op.matches(&KeyValue::S("b".into())));
    assert!(op.matches(&KeyValue::S("c".into())));
    assert!(op.matches(&KeyValue::S("d".into())));
    assert!(!op.matches(&KeyValue::S("e".into())));
}

#[test]
fn begins_with_string() {
    let op = SortKeyOp::begins_with("foo");
    assert!(op.matches(&KeyValue::S("foobar".into())));
    assert!(!op.matches(&KeyValue::S("boobaz".into())));
}

#[test]
fn begins_with_binary() {
    let op = SortKeyOp::begins_with(vec![0x04u8, 0x05]);
    assert!(op.matches(&KeyValue::B(vec![0x04, 0x05].into())));
    assert!(op.matches(&KeyValue::B(vec![0x04, 0x05, 0xFF].into())));
    assert!(!op.matches(&KeyValue::B(vec![0x05, 0x04].into())));
    assert!(!op.matches(&KeyValue::B(vec![0x05].into())));
}

#[test]
fn begins_with_is_for_strings_and_binary_only() {
    let op = SortKeyOp::begins_with(KeyValue::N("1".into()));
    assert!(!op.matches(&KeyValue::N("12".into())));
    let op = SortKeyOp::begins_with("1");
    assert!(!op.matches(&KeyValue::N("12".into())));
}

#[test]
fn condition_numeric_comparison() {
    let op = SortKeyOp::lt(KeyValue::N("100".into()));
    assert!(op.matches(&KeyValue::N("99".into())));
    assert!(op.matches(&KeyValue::N("0".into())));
    assert!(op.matches(&KeyValue::N("-5".into())));
    assert!(!op.matches(&KeyValue::N("100".into())));
    assert!(!op.matches(&KeyValue::N("1000".into())));
}

#[test]
fn numeric_decimal() {
    let op = SortKeyOp::ge(KeyValue::N("4.2".into()));
    assert!(op.matches(&KeyValue::N("4.2".into())));
    assert!(op.matches(&KeyValue::N("5.0".into())));
    assert!(op.matches(&KeyValue::N("4.200".into())));
    assert!(!op.matches(&KeyValue::N("-6.7".into())));
    assert!(!op.matches(&KeyValue::N("4".into())));
}

#[test]
fn pk_only() {
    let cond = KeyCondition::pk("user123");
    assert_eq!(cond.partition_key, KeyValue::S("user123".into()));
    assert!(cond.sort_key.is_none());
}

#[test]
fn pk_with_sk_builder() {
    let cond = KeyCondition::pk("user123").sk_begins_with("order");
    assert_eq!(cond.partition_key, KeyValue::S("user123".into()));
    assert!(matches!(cond.sort_key, Some(SortKeyOp::BeginsWith(_))));
}

#[test]
fn sk_builders() {
    assert!(matches!(
        KeyCondition::pk("a").sk_eq("b").sort_key,
        Some(SortKeyOp::Eq(_))
    ));
    assert!(matches!(
        KeyCondition::pk("a").sk_lt("b").sort_key,
        Some(SortKeyOp::Lt(_))
    ));
    assert!(matches!(
        KeyCondition::pk("a").sk_le("b").sort_key,
        Some(SortKeyOp::Le(_))
    ));
    assert!(matches!(
        KeyCondition::pk("a").sk_gt("b").sort_key,
        Some(SortKeyOp::Gt(_))
    ));
    assert!(matches!(
        KeyCondition::pk("a").sk_ge("b").sort_key,
        Some(SortKeyOp::Ge(_))
    ));
    assert!(matches!(
        KeyCondition::pk("a").sk_between("b", "c").sort_key,
        Some(SortKeyOp::Between { .. })
    ));
    assert_eq!(
        KeyCondition::pk_sk("a", SortKeyOp::eq("b")).sort_key,
        Some(SortKeyOp::Eq(KeyValue::S("b".into())))
    );
}

struct TestFixture {
    schema: KeySchema,
    items: Vec<(PrimaryKey, Item)>,
    opts: QueryOptions,
}

impl TestFixture {
    fn new() -> Self {
        Self {
            schema: KeySchema::composite("pk", KeyType::S, "sk", KeyType::S),
            items: vec![
                make_item("user1", "order#001", "first"),
                make_item("user1", "order#002", "second"),
                make_item("user1", "order#003", "third"),
                make_item("user1", "profile", "user1 profile"),
                make_item("user2", "order#001", "user2 first"),
                make_item("user2", "order#002", "user2 second"),
            ],
            opts: QueryOptions::new(),
        }
    }

    fn execute(&self, condition: KeyCondition) -> QueryResult {
        let executor = QueryExecutor::new(&self.schema);
        executor
            .execute(self.items.clone(), &condition, &self.opts)
            .unwrap()
    }

    fn execute_with_opts(&self, condition: KeyCondition, opts: QueryOptions) -> QueryResult {
        let executor = QueryExecutor::new(&self.schema);
        executor
            .execute(self.items.clone(), &condition, &opts)
            .unwrap()
    }
}

fn make_item(pk: &str, sk: &str, data: &str) -> (PrimaryKey, Item) {
    let key = PrimaryKey::composite(pk, sk);
    let item = Item::new()
        .with_s("pk", pk)
        .with_s("sk", sk)
        .with_s("data", data);
    (key, item)
}

#[test]
fn query_no_results() {
    let f = TestFixture::new();
    let cond = KeyCondition::pk("nonexistent");
    let result = f.execute(cond);
    assert_eq!(result.count, 0);
    assert_eq!(result.scanned_count, 6);
}

#[test]
fn query_by_partition_key() {
    let f = TestFixture::new();
    let cond = KeyCondition::pk("user1");
    let result = f.execute(cond);
    assert_eq!(result.count, 4);
    assert_eq!(result.scanned_count, 6);
}

#[test]
fn query_with_sk_begins_with() {
    let f = TestFixture::new();
    let cond = KeyCondition::pk("user1").sk_begins_with("order");
    let result = f.execute(cond);
    assert_eq!(result.count, 3);
}

#[test]
fn query_with_sk_between() {
    let f = TestFixture::new();
    let cond = KeyCondition::pk("user1").sk_between("order#002", "order#003");
    let result = f.execute(cond);
    assert_eq!(result.count, 2);
}

#[test]
fn query_reverse_order() {
    let f = TestFixture::new();
    let cond = KeyCondition::pk("user1").sk_begins_with("order");
    let opts = QueryOptions::new().reverse();
    let result = f.execute_with_opts(cond, opts);
    assert_eq!(result.count, 3);
    assert_eq!(result.items[0].get("sk").unwrap().as_s(), Some("order#003"));
    assert_eq!(result.items[2].get("sk").unwrap().as_s(), Some("order#001"));
}

#[test]
fn query_with_limit() {
    let f = TestFixture::new();
    let cond = KeyCondition::pk("user1").sk_begins_with("order");
    let opts = QueryOptions::new().with_limit(1);
    let result = f.execute_with_opts(cond, opts);
    assert_eq!(result.count, 1);
}

#[test]
fn query_forward_is_sorted() {
    let f = TestFixture::new();
    let cond = KeyCondition::pk("user1").sk_begins_with("order");
    let result = f.execute(cond);

    assert_eq!(result.count, 3);
    assert_eq!(result.items[0].get("sk").unwrap().as_s(), Some("order#001"));
    assert_eq!(result.items[1].get("sk").unwrap().as_s(), Some("order#002"));
    assert_eq!(result.items[2].get("sk").unwrap().as_s(), Some("order#003"));
}

#[test]
fn query_limit_with_reverse() {
    let f = TestFixture::new();
    let cond = KeyCondition::pk("user1").sk_begins_with("order");
    let opts = QueryOptions::new().with_limit(2).reverse();
    let result = f.execute_with_opts(cond, opts);

    assert_eq!(result.count, 2);
    assert_eq!(result.items[0].get("sk").unwrap().as_s(), Some("order#003"));
    assert_eq!(result.items[1].get("sk").unwrap().as_s(), Some("order#002"));
}

fn make_numeric_item(pk: &str, sk: i32, data: &str) -> (PrimaryKey, Item) {
    let key = PrimaryKey::composite(pk, KeyValue::N(sk.to_string()));
    let item = Item::new()
        .with_s("pk", pk)
        .with_n("sk", sk)
        .with_s("data", data);
    (key, item)
}

#[test]
fn sorted_integers() {
    let schema = KeySchema::composite("pk", KeyType::S, "sk", KeyType::N);
    let items = vec![
        make_numeric_item("user1", 100, "onehundred"),
        make_numeric_item("user1", -4, "negativefour"),
        make_numeric_item("user1", -100, "negativeonehundred"),
        make_numeric_item("user1", 50, "50"),
        make_numeric_item("user1", 0, "zero"),
    ];

    let executor = QueryExecutor::new(&schema);
    let result = executor
        .execute(items, &KeyCondition::pk("user1"), &QueryOptions::new())
        .unwrap();

    let sks: Vec<&str> = result
        .items
        .iter()
        .map(|i| i.get("sk").unwrap().as_n().unwrap())
        .collect();
    assert_eq!(sks, vec!["-100", "-4", "0", "50", "100"]);
}

#[test]
fn with_none_as_sort_key() {
    let pk1 = PrimaryKey::simple("user1");
    let pk2 = PrimaryKey::simple("user2");
    let pk3 = PrimaryKey::composite("user2", "order1");

    // None < Some
    assert_eq!(key_order(&pk1, &pk3), Rank::Less);
    assert_eq!(key_order(&pk2, &pk3), Rank::Less);
    // None ? None --> use unique suffix
    assert_ne!(key_order(&pk1, &pk2), Rank::Equal);
}

#[test]
fn with_same_sort_key() {
    let pk1 = PrimaryKey::composite("user1", "order1");
    let pk2 = PrimaryKey::composite("user2", "order1");

    // should use unique suffix
    assert_ne!(key_order(&pk1, &pk2), Rank::Equal);

    // order should be consistent
    assert_eq!(key_order(&pk1, &pk2), Rank::Less);
    assert_eq!(key_order(&pk2, &pk1), Rank::Greater);
}

#[test]
fn equal_keys_keep_the_order_in_which_they_came() {
    let schema = KeySchema::composite("pk", KeyType::S, "sk", KeyType::S);
    let items = vec![
        make_item("u", "a", "first"),
        make_item("u", "b", "other"),
        make_item("u", "a", "second"),
    ];
    let executor = QueryExecutor::new(&schema);
    let result = executor
        .execute(items.clone(), &KeyCondition::pk("u"), &QueryOptions::new())
        .unwrap();
    let data: Vec<&str> = result
        .items
        .iter()
        .map(|i| i.get("data").unwrap().as_s().unwrap())
        .collect();
    assert_eq!(data, vec!["first", "second", "other"]);
    let reversed = executor
        .execute(items, &KeyCondition::pk("u"), &QueryOptions::new().reverse())
        .unwrap();
    let data: Vec<&str> = reversed
        .items
        .iter()
        .map(|i| i.get("data").unwrap().as_s().unwrap())
        .collect();
    assert_eq!(data, vec!["other", "second", "first"]);
}

#[test]
fn validate_condition_against_schema() {
    let schema = KeySchema::composite("pk", KeyType::S, "sk", KeyType::N);
    let executor = QueryExecutor::new(&schema);
    assert!(executor.validate_condition(&KeyCondition::pk("a")).is_ok());
    let err = executor
        .validate_condition(&KeyCondition::pk(KeyValue::N("1".into())))
        .unwrap_err();
    assert!(err.is_invalid_key());
    assert_eq!(
        err.message(),
        "invalid key: key attribute 'pk' has wrong type. expected: S, got: N"
    );
    assert!(executor
        .validate_condition(&KeyCondition::pk("a").sk_eq("text"))
        .is_err());
    assert!(executor
        .validate_condition(&KeyCondition::pk("a").sk_eq(KeyValue::N("1".into())))
        .is_ok());
    let simple = KeySchema::simple("pk", KeyType::S);
    let err = QueryExecutor::new(&simple)
        .validate_condition(&KeyCondition::pk("a").sk_eq("b"))
        .unwrap_err();
    assert_eq!(
        err.message(),
        "invalid key: missing required key attribute: sort_key"
    );
    let empty = QueryResult::empty();
    assert_eq!(empty.count, 0);
    assert!(empty.items.is_empty());
}
