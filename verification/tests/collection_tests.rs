use nosquealdb::bytes::{
    bytes_equal, bytes_start_with, compare_bytes, contains_bytes, copy_bytes, copy_range, Rank,
};
use nosquealdb::sorted::{SortedMap, SortedSet};
use nosquealdb::storage::{MemoryStorage, Storage, StorageExt};
use nosquealdb::text::{compare_text, contains_text, starts_with_text, text_equal};

fn keys(map: &SortedMap<String, i32>) -> Vec<String> {
    map.entries.iter().map(|(k, _)| k.clone()).collect()
}

#[test]
fn bytes_are_ordered_like_words_in_a_dictionary() {
    assert_eq!(compare_bytes(b"", b""), Rank::Equal);
    assert_eq!(compare_bytes(b"", b"a"), Rank::Less);
    assert_eq!(compare_bytes(b"a", b""), Rank::Greater);
    assert_eq!(compare_bytes(b"ab", b"abc"), Rank::Less);
    assert_eq!(compare_bytes(b"abd", b"abc"), Rank::Greater);
    assert_eq!(compare_bytes(b"b", b"abc"), Rank::Greater);
    assert_eq!(compare_bytes(&[0xFF], &[0x00, 0x01]), Rank::Greater);
    assert_eq!(compare_bytes(b"same", b"same"), Rank::Equal);
}

#[test]
fn ranks_answer_the_usual_questions() {
    assert!(Rank::Less.is_lt() && Rank::Less.is_le() && !Rank::Less.is_ge());
    assert!(Rank::Equal.is_eq() && Rank::Equal.is_le() && Rank::Equal.is_ge());
    assert!(!Rank::Equal.is_lt() && !Rank::Equal.is_gt());
    assert!(Rank::Greater.is_gt() && Rank::Greater.is_ge() && !Rank::Greater.is_le());
}

#[test]
fn bytes_are_searched_and_copied() {
    assert!(bytes_equal(b"abc", b"abc"));
    assert!(!bytes_equal(b"abc", b"abd"));
    assert!(!bytes_equal(b"abc", b"ab"));
    assert!(bytes_start_with(b"abc", b""));
    assert!(bytes_start_with(b"abc", b"ab"));
    assert!(!bytes_start_with(b"abc", b"bc"));
    assert!(!bytes_start_with(b"ab", b"abc"));
    assert!(contains_bytes(b"hello world", b"o w"));
    assert!(contains_bytes(b"hello", b""));
    assert!(contains_bytes(b"hello", b"hello"));
    assert!(contains_bytes(b"aab", b"ab"));
    assert!(!contains_bytes(b"hello", b"hello!"));
    assert!(!contains_bytes(b"hello", b"lol"));
    assert!(!contains_bytes(b"", b"a"));
    assert_eq!(copy_bytes(b"xyz"), b"xyz".to_vec());
    assert_eq!(copy_range(b"abcdef", 2, 4), b"cd".to_vec());
    assert_eq!(copy_range(b"abcdef", 3, 3), Vec::<u8>::new());
    assert_eq!(copy_range(b"abcdef", 0, 6), b"abcdef".to_vec());
}

#[test]
fn texts_are_ordered_and_searched_by_their_bytes() {
    assert!(text_equal("é", "é"));
    assert!(!text_equal("e", "é"));
    assert_eq!(compare_text("a", "b"), Rank::Less);
    assert_eq!(compare_text("Z", "a"), Rank::Less);
    assert_eq!(compare_text("z", "é"), Rank::Less);
    assert_eq!(compare_text("abc", "ab"), Rank::Greater);
    assert!(starts_with_text("héllo", "hé"));
    assert!(!starts_with_text("héllo", "he"));
    assert!(contains_text("héllo", "éll"));
    assert!(!contains_text("héllo", "ello"));
}

#[test]
fn a_map_keeps_its_entries_in_ascending_order() {
    let mut map: SortedMap<String, i32> = SortedMap::new();
    assert!(map.is_empty());
    for (i, k) in ["m", "c", "x", "a", "q"].iter().enumerate() {
        assert_eq!(map.insert(k.to_string(), i as i32), None);
    }
    assert_eq!(keys(&map), ["a", "c", "m", "q", "x"]);
    assert!(map.is_sorted());
    assert_eq!(map.len(), 5);
    assert_eq!(map.get("c"), Some(&1));
    assert_eq!(map.get("b"), None);
    assert!(map.contains_key("x"));
    assert_eq!(map.search(b"m"), (2, true));
    assert_eq!(map.search(b"n"), (3, false));
    assert_eq!(map.search(b""), (0, false));
    assert_eq!(map.search(b"z"), (5, false));
    assert_eq!(map.key_at(0), "a");
    assert_eq!(*map.value_at(4), 2);
}

#[test]
fn an_insert_under_a_key_that_is_there_replaces_the_value() {
    let mut map: SortedMap<String, i32> = SortedMap::new();
    map.insert("k".to_string(), 1);
    assert_eq!(map.insert("k".to_string(), 2), Some(1));
    assert_eq!(map.len(), 1);
    assert_eq!(map.get("k"), Some(&2));
}

#[test]
fn a_remove_hands_back_what_was_there() {
    let mut map: SortedMap<String, i32> = SortedMap::new();
    map.insert("a".to_string(), 1);
    map.insert("b".to_string(), 2);
    assert_eq!(map.remove("a"), Some(1));
    assert_eq!(map.remove("a"), None);
    assert_eq!(keys(&map), ["b"]);
    map.clear();
    assert!(map.is_empty());
}

#[test]
fn a_map_keyed_by_bytes_orders_by_bytes() {
    let mut map: SortedMap<Vec<u8>, i32> = SortedMap::new();
    map.insert(vec![2], 0);
    map.insert(vec![1, 255], 1);
    map.insert(vec![], 2);
    map.insert(vec![1], 3);
    let order: Vec<Vec<u8>> = map.entries.iter().map(|(k, _)| k.clone()).collect();
    assert_eq!(order, vec![vec![], vec![1], vec![1, 255], vec![2]]);
}

#[test]
fn a_set_holds_every_element_once_in_ascending_order() {
    let mut set: SortedSet<String> =
        SortedSet::from_vec(vec!["b".to_string(), "a".to_string(), "b".to_string()]);
    assert_eq!(set.len(), 2);
    assert_eq!(set.item_at(0), "a");
    assert_eq!(set.item_at(1), "b");
    assert!(set.contains("a"));
    assert!(!set.contains("c"));
    assert!(set.insert("c".to_string()));
    assert!(!set.insert("c".to_string()));
    assert!(set.remove("a"));
    assert!(!set.remove("a"));
    assert_eq!(set.len(), 2);
    assert!(set.is_sorted());
}

#[test]
fn sets_are_joined_and_taken_apart() {
    let mut set: SortedSet<String> = SortedSet::from_vec(vec!["a".to_string(), "c".to_string()]);
    let other: SortedSet<String> = SortedSet::from_vec(vec!["b".to_string(), "c".to_string()]);
    set.extend_from(&other);
    assert!(set.same(&SortedSet::from_vec(vec![
        "a".to_string(),
        "b".to_string(),
        "c".to_string()
    ])));
    set.remove_all(&other);
    assert!(set.same(&SortedSet::from_vec(vec!["a".to_string()])));
    assert!(set.duplicate().same(&set));
    assert!(!set.same(&other));
}

#[test]
fn a_store_keeps_the_last_value_under_a_key() {
    let mut store = MemoryStorage::new();
    assert!(Storage::is_empty(&store));
    store.put("b", vec![1]).unwrap();
    store.put("a", vec![2]).unwrap();
    store.put("b", vec![3]).unwrap();
    assert_eq!(Storage::len(&store), 2);
    assert_eq!(store.get("b").unwrap(), Some(vec![3]));
    assert_eq!(store.get("c").unwrap(), None);
    assert!(store.has_key("a").unwrap());
    assert_eq!(store.keys(), vec!["a".to_string(), "b".to_string()]);
    store.delete("a").unwrap();
    store.delete("a").unwrap();
    assert!(!store.has_key("a").unwrap());
    assert_eq!(store.total_value_bytes(), 1);
}

#[test]
fn a_store_finds_its_keys_by_prefix() {
    let mut store = MemoryStorage::new();
    for key in ["user#1", "user#2", "order#1", "us", "user"] {
        store.put(key, key.as_bytes().to_vec()).unwrap();
    }
    assert_eq!(
        store.keys_with_prefix("user"),
        vec!["user".to_string(), "user#1".to_string(), "user#2".to_string()]
    );
    assert_eq!(store.count_with_prefix("user#"), 2);
    assert_eq!(store.count_with_prefix(""), 5);
    assert_eq!(store.count_with_prefix("x"), 0);
    assert_eq!(store.total_value_bytes(), 6 + 6 + 7 + 2 + 4);
}

#[test]
fn the_derived_operations_of_a_store_fail_with_their_errors() {
    let mut store = MemoryStorage::new();
    store.put_if_not_exists("k", vec![1]).unwrap();
    assert!(store.put_if_not_exists("k", vec![2]).unwrap_err().key_already_exists());
    assert_eq!(store.get_or_error("k").unwrap(), vec![1]);
    assert!(store.get_or_error("none").unwrap_err().is_not_found());
    assert!(store.update("none", vec![0]).unwrap_err().is_not_found());
    store.update("k", vec![9]).unwrap();
    assert_eq!(
        store.get_many(&vec!["k", "none"]).unwrap(),
        vec![Some(vec![9]), None]
    );
    assert_eq!(store.delete_and_get_old("k").unwrap(), Some(vec![9]));
    assert_eq!(store.delete_and_get_old("k").unwrap(), None);
}
