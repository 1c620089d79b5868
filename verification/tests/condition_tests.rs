use nosquealdb::condition::{
    attr, evaluate, AttrType, AttributePath, CompareOp, Condition, ConditionBuilder,
};
use nosquealdb::types::{AttrMap, AttributeValue, Item, StringSet};

fn test_item() -> Item {
    Item::new()
        .with_s("name", "Alice")
        .with_n("id", 42)
        .with_s("status", "active")
        .with_bool("verified", true)
        .with_l(
            "tags",
            vec![
                AttributeValue::S("rust".into()),
                AttributeValue::S("db".into()),
            ],
        )
        .with(
            "scores",
            AttributeValue::Ns(StringSet::from_vec(vec![
                "85".to_string(),
                "90".to_string(),
                "95".to_string(),
            ])),
        )
}

#[test]
fn not_equals() {
    let item = test_item();
    assert!(evaluate(&attr("id").ne(67i32), &item).unwrap());
    assert!(!evaluate(&attr("id").ne(42i32), &item).unwrap());
}

#[test]
fn string() {
    let item = test_item();
    assert!(evaluate(&attr("name").eq("Alice"), &item).unwrap());
    assert!(!evaluate(&attr("name").eq("Bob"), &item).unwrap());
}

#[test]
fn number() {
    let item = test_item();
    assert!(evaluate(&attr("id").eq(42i32), &item).unwrap());
    assert!(!evaluate(&attr("id").eq(67i32), &item).unwrap());
}

#[test]
fn bool() {
    let item = test_item();
    assert!(evaluate(&attr("verified").eq(true), &item).unwrap());
    assert!(!evaluate(&attr("verified").eq(false), &item).unwrap());
}

#[test]
fn eval_missing_attribute() {
    let item = test_item();
    assert!(!evaluate(&attr("missing").eq("AAAA"), &item).unwrap());
    assert!(evaluate(&attr("missing").ne("AAAA"), &item).unwrap());
}

#[test]
fn string_comparison() {
    let item = test_item();
    assert!(evaluate(&attr("name").lt("Bob"), &item).unwrap());
    assert!(evaluate(&attr("name").gt("Aaron"), &item).unwrap());
    assert!(evaluate(&attr("name").eq("Alice"), &item).unwrap());
    assert!(evaluate(&attr("name").le("Alice"), &item).unwrap());
    assert!(evaluate(&attr("name").ge("Alice"), &item).unwrap());
}

#[test]
fn eval_numeric_comparison() {
    let item = test_item();
    assert!(evaluate(&attr("id").gt(-1i32), &item).unwrap());
    assert!(evaluate(&attr("id").lt(50i32), &item).unwrap());
    assert!(evaluate(&attr("id").ge(-1i32), &item).unwrap());
    assert!(evaluate(&attr("id").le(50i32), &item).unwrap());
    assert!(evaluate(&attr("id").ge(42i32), &item).unwrap());
    assert!(evaluate(&attr("id").le(42i32), &item).unwrap());
    assert!(evaluate(&attr("id").eq(42i32), &item).unwrap());
    assert!(evaluate(&attr("id").ne(67i32), &item).unwrap());
}

#[test]
fn between() {
    let item = test_item();
    assert!(evaluate(&attr("id").between(-1i32, 67i32), &item).unwrap());
    assert!(!evaluate(&attr("id").between(0i32, 1i32), &item).unwrap());
    assert!(evaluate(&attr("name").between("Aaron", "Bob"), &item).unwrap());
    assert!(!evaluate(&attr("name").between("foo", "bar"), &item).unwrap());
}

#[test]
fn attribute_existence() {
    let item = test_item();
    assert!(evaluate(&attr("name").is_present(), &item).unwrap());
    assert!(!evaluate(&attr("nonexistent").is_present(), &item).unwrap());

    assert!(!evaluate(&attr("name").not_exists(), &item).unwrap());
    assert!(evaluate(&attr("nonexistent").not_exists(), &item).unwrap());
}

#[test]
fn begins_with() {
    let item = test_item();
    assert!(evaluate(&attr("name").begins_with("A"), &item).unwrap());
    assert!(evaluate(&attr("name").begins_with("Al"), &item).unwrap());
    assert!(!evaluate(&attr("name").begins_with("xyAl"), &item).unwrap());
}

#[test]
fn contains() {
    let item = test_item();
    assert!(evaluate(&attr("name").contains("li"), &item).unwrap());
    assert!(evaluate(&attr("name").contains("ce"), &item).unwrap());
    assert!(!evaluate(&attr("name").contains("xce"), &item).unwrap());
    assert!(!evaluate(&attr("name").contains("Alz"), &item).unwrap());
}

#[test]
fn attr_type_check() {
    let item = test_item();
    assert!(evaluate(&attr("name").is_type(AttrType::String), &item).unwrap());
    assert!(!evaluate(&attr("id").is_type(AttrType::String), &item).unwrap());
    assert!(evaluate(&attr("id").is_type(AttrType::Number), &item).unwrap());
    assert!(evaluate(&attr("verified").is_type(AttrType::Boolean), &item).unwrap());
    assert!(evaluate(&attr("tags").is_type(AttrType::List), &item).unwrap());
    assert!(evaluate(&attr("scores").is_type(AttrType::NumberSet), &item).unwrap());
}

#[test]
fn size_check() {
    let item = test_item();
    assert!(evaluate(&attr("name").size_eq(5), &item).unwrap());
    assert!(evaluate(&attr("name").size_gt(3), &item).unwrap());
    assert!(evaluate(&attr("name").size_lt(9), &item).unwrap());
    assert!(evaluate(&attr("tags").size_eq(2), &item).unwrap());
}

#[test]
fn not() {
    let item = test_item();
    assert!(evaluate(&attr("name").eq("Bob").not(), &item).unwrap());
    assert!(!evaluate(&attr("name").eq("Alice").not(), &item).unwrap());
}

#[test]
fn and() {
    let item = test_item();
    let cond = attr("name").eq("Alice").and(attr("status").eq("active"));
    assert!(evaluate(&cond, &item).unwrap());

    let cond = attr("name").eq("Alice").and(attr("status").eq("inactive"));
    assert!(!evaluate(&cond, &item).unwrap());

    let cond = attr("name").eq("Bob").and(attr("status").eq("inactive"));
    assert!(!evaluate(&cond, &item).unwrap());

    let cond = attr("name").eq("Bob").and(attr("status").eq("active"));
    assert!(!evaluate(&cond, &item).unwrap());
}

#[test]
fn or() {
    let item = test_item();
    let cond = attr("name").eq("Alice").or(attr("status").eq("active"));
    assert!(evaluate(&cond, &item).unwrap());

    let cond = attr("name").eq("Alice").or(attr("status").eq("inactive"));
    assert!(evaluate(&cond, &item).unwrap());

    let cond = attr("name").eq("Bob").or(attr("status").eq("active"));
    assert!(evaluate(&cond, &item).unwrap());

    let cond = attr("name").eq("Bob").or(attr("status").eq("inactive"));
    assert!(!evaluate(&cond, &item).unwrap());
}

#[test]
fn complex() {
    let item = test_item();
    let cond = attr("name")
        .eq("Alice")
        .and(attr("id").ge(67i32))
        .not()
        .or(attr("status").eq("admin"));
    assert!(evaluate(&cond, &item).unwrap());
}

#[test]
fn map() {
    let mut address = AttrMap::new();
    address.insert("state".to_string(), AttributeValue::S("California".into()));

    let item = Item::new().with("country", AttributeValue::M(address));

    let path = AttributePath::new("country").key("state");
    assert!(evaluate(&ConditionBuilder::new(path.clone()).eq("California"), &item).unwrap());
    assert!(!evaluate(&ConditionBuilder::new(path).eq("Florida"), &item).unwrap());
}

#[test]
fn list() {
    let item = Item::new().with(
        "items",
        AttributeValue::L(vec![
            AttributeValue::S("first".into()),
            AttributeValue::S("second".into()),
        ]),
    );

    let path = AttributePath::new("items").index(0);
    let cond = ConditionBuilder::new(path).eq("first");
    assert!(evaluate(&cond, &item).unwrap());
}

#[test]
fn deeply() {
    let mut inner_map = AttrMap::new();
    inner_map.insert("name".to_string(), AttributeValue::S("nested".into()));
    let inner = AttributeValue::M(inner_map);
    let list = AttributeValue::L(vec![inner]);
    let mut outer_map = AttrMap::new();
    outer_map.insert("items".to_string(), list);
    let outer = AttributeValue::M(outer_map);

    let item = Item::new().with("data", outer);

    let path = AttributePath::new("data").key("items").index(0).key("name");
    let cond = ConditionBuilder::new(path).eq("nested");
    assert!(evaluate(&cond, &item).unwrap());
}

#[test]
fn logical_operators() {
    let cond = attr("status")
        .eq("caffeinated")
        .and(attr("caffeine_content").ge(300i32));
    assert!(matches!(cond, Condition::And(_, _)));

    let cond = attr("role").eq("admin").or(attr("role").eq("manager"));
    assert!(matches!(cond, Condition::Or(_, _)));

    let cond = attr("deleted").is_present().not();
    assert!(matches!(cond, Condition::Not(_)));
}

#[test]
fn attr_type_condition() {
    let cond = attr("data").is_type(AttrType::Mapping);
    assert!(matches!(
        cond,
        Condition::AttributeType {
            attribute_type: AttrType::Mapping,
            ..
        }
    ));
}

#[test]
fn size_condition() {
    let cond = attr("tags").size_gt(5);
    assert!(matches!(
        cond,
        Condition::Size {
            op: CompareOp::Gt,
            value: 5,
            ..
        }
    ));
}

#[test]
fn creates_compare_conditions() {
    let cond = attr("status").eq("active");
    assert!(matches!(
        cond,
        Condition::Compare {
            op: CompareOp::Eq,
            ..
        }
    ));

    let cond = attr("tenure").gt(4i32);
    assert!(matches!(
        cond,
        Condition::Compare {
            op: CompareOp::Gt,
            ..
        }
    ));
}

#[test]
fn creates_function_conditions() {
    let cond = attr("email").is_present();
    assert!(matches!(cond, Condition::AttributeExists(_)));
    let cond = attr("email").not_exists();
    assert!(matches!(cond, Condition::AttributeNotExists(_)));
    let cond = attr("username").begins_with("AAA");
    assert!(matches!(cond, Condition::BeginsWith { .. }));
}

#[test]
fn nested_path() {
    let path = AttributePath::new("address").key("city");
    let cond = ConditionBuilder::new(path).eq("Los Angeles");
    let Condition::Compare { path, .. } = cond else {
        panic!("expected compare condition");
    };

    assert_eq!(path.root(), Some("address"));
    assert_eq!(path.depth(), 2);
}

#[test]
fn path_simple() {
    let item = Item::new().with_s("pk", "id");
    let path = AttributePath::new("pk");
    let value = path.resolve(&item);
    assert_eq!(value, Some(&AttributeValue::S("id".into())));
}

#[test]
fn path_nested() {
    let mut map = AttrMap::new();
    map.insert("city".to_string(), AttributeValue::S("Newton Falls".into()));
    map.insert("zip".to_string(), AttributeValue::N("44444".into()));

    let item = Item::new().with_s("name", "zach").with_m("address", map);

    let path = AttributePath::new("address").key("city");
    let value = path.resolve(&item);
    assert_eq!(value, Some(&AttributeValue::S("Newton Falls".into())));
    let path = AttributePath::new("address").key("zip");
    let value = path.resolve(&item);
    assert_eq!(value, Some(&AttributeValue::N("44444".into())));
}

#[test]
fn deeply_nested() {
    let mut inner = AttrMap::new();
    let mut outer = AttrMap::new();
    inner.insert("value".to_string(), AttributeValue::N("42".into()));

    let list = AttributeValue::L(vec![AttributeValue::M(inner)]);
    outer.insert("items".to_string(), list);

    let item = Item::new().with_m("data", outer);
    let path = AttributePath::new("data")
        .key("items")
        .index(0)
        .key("value");
    let value = path.resolve(&item);
    assert_eq!(value, Some(&AttributeValue::N("42".into())));
}

#[test]
fn with_index() {
    let item = Item::new().with_l(
        "tags",
        vec![
            AttributeValue::S("rust".into()),
            AttributeValue::S("database".into()),
        ],
    );

    let path = AttributePath::new("tags").index(0);
    let value = path.resolve(&item);
    assert_eq!(value, Some(&AttributeValue::S("rust".into())));
    let path = AttributePath::new("tags").index(1);
    let value = path.resolve(&item);
    assert_eq!(value, Some(&AttributeValue::S("database".into())));
}

#[test]
fn missing_returns_none() {
    let item = Item::new().with_s("username", "zach");
    assert!(AttributePath::new("missing").resolve(&item).is_none());
}

#[test]
fn wrong_type_returns_none() {
    let item = Item::new().with_s("username", "zach");

    // index on string
    assert!(AttributePath::new("username")
        .index(0)
        .resolve(&item)
        .is_none());
    // key lookup on string
    assert!(AttributePath::new("username")
        .key("nested")
        .resolve(&item)
        .is_none());
}

#[test]
fn out_of_bounds_returns_none() {
    let item = Item::new().with_l("list", vec![AttributeValue::N("0".into())]);
    assert!(AttributePath::new("list").index(1).resolve(&item).is_none());
}

// conditions beyond the cases above

#[test]
fn absent_path_holds_for_ne_only() {
    let item = test_item();
    assert!(evaluate(&attr("missing").ne(1i32), &item).unwrap());
    assert!(!evaluate(&attr("missing").eq(1i32), &item).unwrap());
    assert!(!evaluate(&attr("missing").lt(1i32), &item).unwrap());
    assert!(!evaluate(&attr("missing").le(1i32), &item).unwrap());
    assert!(!evaluate(&attr("missing").gt(1i32), &item).unwrap());
    assert!(!evaluate(&attr("missing").ge(1i32), &item).unwrap());
    assert!(!evaluate(&attr("missing").between(0i32, 2i32), &item).unwrap());
    assert!(!evaluate(&attr("missing").begins_with("a"), &item).unwrap());
    assert!(!evaluate(&attr("missing").contains("a"), &item).unwrap());
    assert!(!evaluate(&attr("missing").size_eq(0), &item).unwrap());
}

#[test]
fn cross_type_comparison_is_an_error() {
    let item = test_item();
    let err = evaluate(&attr("name").lt(5i32), &item).unwrap_err();
    assert_eq!(err.message(), "cannot compare S with N");
    assert!(evaluate(&attr("verified").gt(true), &item).is_err());
    // so is equality of two values of different types
    let err = evaluate(&attr("name").eq(5i32), &item).unwrap_err();
    assert_eq!(err.message(), "cannot compare S with N");
    let err = evaluate(&attr("name").ne(5i32), &item).unwrap_err();
    assert_eq!(err.message(), "cannot compare S with N");
    let err = evaluate(&attr("id").eq("42"), &item).unwrap_err();
    assert_eq!(err.message(), "cannot compare N with S");
    // values of one type are decided
    assert!(evaluate(&attr("verified").eq(true), &item).unwrap());
    assert!(evaluate(&attr("verified").ne(false), &item).unwrap());
}

#[test]
fn short_circuit_skips_the_second_condition() {
    let item = test_item();
    let failing = attr("name").lt(5i32);
    assert!(evaluate(&failing, &item).is_err());
    assert!(evaluate(&attr("name").eq("Alice").or(attr("name").lt(5i32)), &item).unwrap());
    assert!(!evaluate(&attr("name").eq("Bob").and(attr("name").lt(5i32)), &item).unwrap());
    assert!(evaluate(&attr("name").eq("Bob").or(attr("name").lt(5i32)), &item).is_err());
}

#[test]
fn numbers_compare_by_value() {
    let item = Item::new().with_n("price", "4.2");
    assert!(evaluate(&attr("price").eq(AttributeValue::N("4.200".into())), &item).unwrap());
    assert!(evaluate(&attr("price").lt(AttributeValue::N("10".into())), &item).unwrap());
    assert!(evaluate(&attr("price").gt(AttributeValue::N("-7".into())), &item).unwrap());
}

#[test]
fn contains_in_collections() {
    let item = test_item().with(
        "letters",
        AttributeValue::Ss(StringSet::from_vec(vec!["a".to_string(), "b".to_string()])),
    );
    assert!(evaluate(&attr("tags").contains("rust"), &item).unwrap());
    assert!(!evaluate(&attr("tags").contains("go"), &item).unwrap());
    assert!(evaluate(&attr("letters").contains("a"), &item).unwrap());
    assert!(!evaluate(&attr("letters").contains("z"), &item).unwrap());
    assert!(evaluate(&attr("scores").contains(AttributeValue::N("90.0".into())), &item).unwrap());
    assert!(!evaluate(&attr("scores").contains(AttributeValue::N("91".into())), &item).unwrap());
}

#[test]
fn sizes() {
    let item = test_item().with_null("nothing").with_b("blob", vec![1, 2, 3]);
    assert!(evaluate(&attr("verified").size_eq(1), &item).unwrap());
    assert!(evaluate(&attr("nothing").size_eq(0), &item).unwrap());
    assert!(evaluate(&attr("blob").size_eq(3), &item).unwrap());
    assert!(evaluate(&attr("id").size_eq(2), &item).unwrap());
    assert!(evaluate(&attr("scores").size_eq(3), &item).unwrap());
    assert!(evaluate(&attr("nothing").is_present(), &item).unwrap());
}

#[test]
fn path_queries() {
    let path = AttributePath::new("a");
    assert!(path.is_simple());
    assert_eq!(path.depth(), 1);
    assert_eq!(path.segments().len(), 1);
    let empty = AttributePath::empty();
    assert_eq!(empty.root(), None);
    assert_eq!(empty.depth(), 0);
    assert!(!empty.is_simple());
    assert!(empty.resolve(&Item::new().with_s("a", "b")).is_none());
    assert!(!AttributePath::new("a").index(1).is_simple());
    assert_eq!(AttrType::Mapping.as_str(), "M");
    assert_eq!(AttrType::StringSet.as_str(), "SS");
    assert_eq!(AttrType::Boolean.as_str(), "BOOL");
}

#[test]
fn the_size_of_a_number_counts_its_digits_only() {
    let item = Item::new()
        .with_n("plain", "12345")
        .with_n("negative", "-12.50")
        .with_n("fraction", ".5")
        .with_n("odd", "1e3");
    assert!(evaluate(&attr("plain").size_eq(5), &item).unwrap());
    assert!(evaluate(&attr("negative").size_eq(4), &item).unwrap());
    assert!(!evaluate(&attr("negative").size_eq(6), &item).unwrap());
    assert!(evaluate(&attr("fraction").size_eq(1), &item).unwrap());
    assert!(evaluate(&attr("odd").size_eq(2), &item).unwrap());
}
