use nosquealdb::condition::AttributePath;
use nosquealdb::error::TableError;
use nosquealdb::types::{AttrMap, AttributeValue, BinarySet, Item, StringSet};
use nosquealdb::update::{UpdateAction, UpdateExecutor, UpdateExpression};

fn text(s: &str) -> AttributeValue {
    AttributeValue::S(s.to_string())
}

fn num(s: &str) -> AttributeValue {
    AttributeValue::N(s.to_string())
}

fn strings(items: &[&str]) -> StringSet {
    StringSet::from_vec(items.iter().map(|s| s.to_string()).collect())
}

fn run(item: Item, expression: UpdateExpression) -> Result<Item, TableError> {
    UpdateExecutor::new().execute(item, &expression)
}

fn update_error(result: Result<Item, TableError>) -> String {
    match result {
        Err(TableError::UpdateError(m)) => m,
        other => panic!("unexpected: {:?}", other),
    }
}

fn letters() -> Item {
    Item::new().with_l("list", vec![text("a"), text("b")])
}

#[test]
fn a_list_position_inside_the_list_is_replaced() {
    let item = run(
        letters(),
        UpdateExpression::new().set(AttributePath::new("list").index(1), "z"),
    )
    .unwrap();
    assert_eq!(item.get("list"), Some(&AttributeValue::L(vec![text("a"), text("z")])));
}

#[test]
fn the_position_right_behind_the_list_appends() {
    let item = run(
        letters(),
        UpdateExpression::new().set(AttributePath::new("list").index(2), "c"),
    )
    .unwrap();
    assert_eq!(
        item.get("list"),
        Some(&AttributeValue::L(vec![text("a"), text("b"), text("c")]))
    );
}

#[test]
fn a_position_further_behind_the_list_fails() {
    let result = run(
        letters(),
        UpdateExpression::new().set(AttributePath::new("list").index(3), "c"),
    );
    assert_eq!(update_error(result), "list index out of bounds");
}

#[test]
fn a_position_in_what_is_no_list_fails() {
    let result = run(
        Item::new().with_s("name", "x"),
        UpdateExpression::new().set(AttributePath::new("name").index(0), "c"),
    );
    assert_eq!(update_error(result), "cannot index into non-list type");
}

#[test]
fn a_path_must_start_with_a_name() {
    let result = run(
        letters(),
        UpdateExpression::new().set(AttributePath::empty().index(0), "c"),
    );
    assert_eq!(update_error(result), "path must start with attribute name");
    assert!(run(letters(), UpdateExpression::new().set(AttributePath::empty(), "c")).is_err());
}

#[test]
fn a_nested_name_creates_the_maps_on_its_way() {
    let item = run(
        Item::new(),
        UpdateExpression::new().set(AttributePath::new("a").key("b").key("c"), 1i32),
    )
    .unwrap();
    let mut c = AttrMap::new();
    c.insert("c".to_string(), num("1"));
    let mut b = AttrMap::new();
    b.insert("b".to_string(), AttributeValue::M(c));
    assert_eq!(item.get("a"), Some(&AttributeValue::M(b)));
}

#[test]
fn an_element_of_a_list_is_changed_in_its_place() {
    let mut inner = AttrMap::new();
    inner.insert("k".to_string(), text("old"));
    let item = Item::new().with_l("list", vec![AttributeValue::M(inner), text("b")]);
    let item = run(
        item,
        UpdateExpression::new().set(AttributePath::new("list").index(0).key("k"), "new"),
    )
    .unwrap();
    let mut expected = AttrMap::new();
    expected.insert("k".to_string(), text("new"));
    assert_eq!(
        item.get("list"),
        Some(&AttributeValue::L(vec![AttributeValue::M(expected), text("b")]))
    );
    // a step through a position behind the list fails
    let result = run(
        letters(),
        UpdateExpression::new().set(AttributePath::new("list").index(2).key("k"), "x"),
    );
    assert_eq!(update_error(result), "list index out of bounds");
}

#[test]
fn a_value_is_set_only_where_there_is_none() {
    let item = run(
        Item::new().with_s("a", "kept"),
        UpdateExpression::new().set_if_not_exists("a", "new").set_if_not_exists("b", "new"),
    )
    .unwrap();
    assert_eq!(item.get("a"), Some(&text("kept")));
    assert_eq!(item.get("b"), Some(&text("new")));
}

#[test]
fn removing_what_is_not_there_changes_nothing() {
    let before = letters();
    let after = run(
        letters(),
        UpdateExpression::new()
            .remove("gone")
            .remove(AttributePath::new("list").index(5))
            .remove(AttributePath::new("list").key("k"))
            .remove(AttributePath::new("gone").key("k")),
    )
    .unwrap();
    assert!(after == before);
}

#[test]
fn removing_a_list_element_closes_the_gap() {
    let item = run(letters(), UpdateExpression::new().remove(AttributePath::new("list").index(0)))
        .unwrap();
    assert_eq!(item.get("list"), Some(&AttributeValue::L(vec![text("b")])));
}

#[test]
fn adding_to_nothing_stores_the_operand() {
    let item = run(
        Item::new(),
        UpdateExpression::new()
            .add("n", 5i32)
            .add("s", AttributeValue::Ss(strings(&["a"]))),
    )
    .unwrap();
    assert_eq!(item.get("n"), Some(&num("5")));
    assert_eq!(item.get("s"), Some(&AttributeValue::Ss(strings(&["a"]))));
}

#[test]
fn adding_numbers_gives_their_sum() {
    let item = run(
        Item::new().with_n("n", "10.5"),
        UpdateExpression::new().add("n", num("-0.25")).add("n", 1i32),
    )
    .unwrap();
    assert_eq!(item.get("n"), Some(&num("11.25")));
}

#[test]
fn adding_sets_gives_their_union() {
    let item = Item::new()
        .with("s", AttributeValue::Ss(strings(&["b", "a"])))
        .with("n", AttributeValue::Ns(strings(&["1"])))
        .with("b", AttributeValue::Bs(BinarySet::from_vec(vec![vec![1]])));
    let item = run(
        item,
        UpdateExpression::new()
            .add("s", AttributeValue::Ss(strings(&["c", "a"])))
            .add("n", AttributeValue::Ns(strings(&["2"])))
            .add("b", AttributeValue::Bs(BinarySet::from_vec(vec![vec![0], vec![1]]))),
    )
    .unwrap();
    assert_eq!(item.get("s"), Some(&AttributeValue::Ss(strings(&["a", "b", "c"]))));
    assert_eq!(item.get("n"), Some(&AttributeValue::Ns(strings(&["1", "2"]))));
    assert_eq!(
        item.get("b"),
        Some(&AttributeValue::Bs(BinarySet::from_vec(vec![vec![0], vec![1]])))
    );
}

#[test]
fn adding_to_a_value_of_another_type_fails() {
    let message = "ADD requires number or set types with matching operand";
    let item = || {
        Item::new()
            .with_s("s", "text")
            .with_n("n", 1)
            .with("set", AttributeValue::Ss(strings(&["a"])))
    };
    assert_eq!(update_error(run(item(), UpdateExpression::new().add("s", 1i32))), message);
    assert_eq!(update_error(run(item(), UpdateExpression::new().add("n", "x"))), message);
    assert_eq!(
        update_error(run(
            item(),
            UpdateExpression::new().add("set", AttributeValue::Ns(strings(&["1"])))
        )),
        message
    );
    assert_eq!(update_error(run(item(), UpdateExpression::new().add("gone", "x"))), message);
    assert_eq!(
        update_error(run(item(), UpdateExpression::new().add("n", num("abc")))),
        "invalid number"
    );
}

#[test]
fn deleting_from_a_set_gives_the_difference() {
    let item = Item::new().with("s", AttributeValue::Ss(strings(&["a", "b", "c"])));
    let item = run(
        item,
        UpdateExpression::new().delete("s", AttributeValue::Ss(strings(&["b", "x"]))),
    )
    .unwrap();
    assert_eq!(item.get("s"), Some(&AttributeValue::Ss(strings(&["a", "c"]))));
}

#[test]
fn deleting_from_nothing_changes_nothing() {
    let item = run(
        letters(),
        UpdateExpression::new().delete("gone", AttributeValue::Ss(strings(&["b"]))),
    )
    .unwrap();
    assert!(item == letters());
}

#[test]
fn deleting_from_a_value_of_another_type_fails() {
    let message = "DELETE requires set types with matching operand";
    let item = || Item::new().with_n("n", 1).with("set", AttributeValue::Ss(strings(&["a"])));
    assert_eq!(
        update_error(run(
            item(),
            UpdateExpression::new().delete("n", AttributeValue::Ss(strings(&["a"])))
        )),
        message
    );
    assert_eq!(
        update_error(run(
            item(),
            UpdateExpression::new().delete("set", AttributeValue::Ns(strings(&["1"])))
        )),
        message
    );
    assert_eq!(update_error(run(item(), UpdateExpression::new().delete("set", "a"))), message);
}

#[test]
fn every_action_sees_what_the_earlier_ones_did() {
    let item = run(
        Item::new(),
        UpdateExpression::new()
            .set("n", 1i32)
            .add("n", 2i32)
            .set_if_not_exists("n", 100i32)
            .set("copy", "x")
            .remove("copy")
            .set_if_not_exists("copy", "y"),
    )
    .unwrap();
    assert_eq!(item.get("n"), Some(&num("3")));
    assert_eq!(item.get("copy"), Some(&text("y")));
}

#[test]
fn a_failing_action_fails_the_whole_update() {
    let result = run(
        Item::new().with_s("s", "x"),
        UpdateExpression::new().set("a", 1i32).add("s", 1i32).set("b", 2i32),
    );
    assert!(result.is_err());
}

#[test]
fn one_action_can_be_carried_out_alone() {
    let executor = UpdateExecutor::new();
    let item = executor
        .apply_action(
            Item::new(),
            &UpdateAction::Assign { path: AttributePath::new("a"), value: text("v") },
        )
        .unwrap();
    assert_eq!(item.get("a"), Some(&text("v")));
}
