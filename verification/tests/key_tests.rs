use nosquealdb::types::{
    AttributeValue, Item, KeyAttribute, KeySchema, KeyType, KeyValidationError, KeyValue,
    PrimaryKey,
};
use nosquealdb::utils::{base64_decode, base64_encode, escape_key_chars};

#[test]
fn a_string_key_is_escaped_behind_its_type() {
    assert_eq!(PrimaryKey::simple("user").to_storage_key(), "S:user");
    assert_eq!(PrimaryKey::simple("a#b").to_storage_key(), "S:a\\#b");
    assert_eq!(PrimaryKey::simple("a:b").to_storage_key(), "S:a\\:b");
    assert_eq!(PrimaryKey::simple("a\\b").to_storage_key(), "S:a\\\\b");
    assert_eq!(PrimaryKey::simple("").to_storage_key(), "S:");
}

#[test]
fn a_number_key_stands_as_written() {
    let key = PrimaryKey::simple(KeyValue::N("-12.50".to_string()));
    assert_eq!(key.to_storage_key(), "N:-12.50");
}

#[test]
fn a_binary_key_stands_in_base64() {
    assert_eq!(PrimaryKey::simple(vec![1u8, 2, 3]).to_storage_key(), "B:AQID");
    assert_eq!(PrimaryKey::simple(Vec::<u8>::new()).to_storage_key(), "B:");
    assert_eq!(PrimaryKey::simple(vec![255u8]).to_storage_key(), "B:/w==");
}

#[test]
fn a_sort_key_follows_behind_a_hash_sign() {
    assert_eq!(
        PrimaryKey::composite("u1", "order#7").to_storage_key(),
        "S:u1#S:order\\#7"
    );
    assert_eq!(
        PrimaryKey::composite("u1", KeyValue::N("5".to_string())).to_storage_key(),
        "S:u1#N:5"
    );
    assert_eq!(
        PrimaryKey::composite(vec![0u8], "x").to_storage_key(),
        "B:AA==#S:x"
    );
}

#[test]
fn escaping_puts_a_backslash_before_the_three_special_characters() {
    assert_eq!(escape_key_chars("plain"), "plain");
    assert_eq!(escape_key_chars("#"), "\\#");
    assert_eq!(escape_key_chars(":"), "\\:");
    assert_eq!(escape_key_chars("\\"), "\\\\");
    assert_eq!(escape_key_chars("a#b:c\\d"), "a\\#b\\:c\\\\d");
    assert_eq!(escape_key_chars(""), "");
    assert_eq!(escape_key_chars("é#"), "é\\#");
}

#[test]
fn different_strings_have_different_escaped_forms() {
    let samples = [
        "", "#", "\\#", "\\", "\\\\", ":", "a#b", "a\\#b", "a", "a#", "a\\", "#a", "\\:", "::",
        "a:b", "a\\:b",
    ];
    for (i, a) in samples.iter().enumerate() {
        for (j, b) in samples.iter().enumerate() {
            if i != j {
                assert_ne!(escape_key_chars(a), escape_key_chars(b), "{:?} and {:?}", a, b);
                assert_ne!(
                    PrimaryKey::simple(*a).to_storage_key(),
                    PrimaryKey::simple(*b).to_storage_key()
                );
            }
        }
    }
}

#[test]
fn keys_that_differ_only_in_where_the_parts_meet_have_different_storage_keys() {
    let one = PrimaryKey::composite("a#S:b", "c");
    let other = PrimaryKey::composite("a", "b#S:c");
    assert_ne!(one.to_storage_key(), other.to_storage_key());
}

#[test]
fn base64_has_its_exact_text() {
    assert_eq!(base64_encode(b""), "");
    assert_eq!(base64_encode(b"f"), "Zg==");
    assert_eq!(base64_encode(b"fo"), "Zm8=");
    assert_eq!(base64_encode(b"foo"), "Zm9v");
    assert_eq!(base64_encode(b"foob"), "Zm9vYg==");
    assert_eq!(base64_encode(b"fooba"), "Zm9vYmE=");
    assert_eq!(base64_encode(b"foobar"), "Zm9vYmFy");
    assert_eq!(base64_encode(&[0xFB, 0xFF]), "+/8=");
    assert_eq!(base64_encode(&[0, 0, 0]), "AAAA");
}

#[test]
fn base64_text_stands_for_its_exact_bytes() {
    assert_eq!(base64_decode(""), Some(vec![]));
    assert_eq!(base64_decode("Zg=="), Some(b"f".to_vec()));
    assert_eq!(base64_decode("Zm8="), Some(b"fo".to_vec()));
    assert_eq!(base64_decode("Zm9v"), Some(b"foo".to_vec()));
    assert_eq!(base64_decode("Zm9vYmFy"), Some(b"foobar".to_vec()));
    assert_eq!(base64_decode("+/8="), Some(vec![0xFB, 0xFF]));
    // the padding may be left out
    assert_eq!(base64_decode("Zg"), Some(b"f".to_vec()));
    assert_eq!(base64_decode("Zm8"), Some(b"fo".to_vec()));
}

#[test]
fn text_that_is_no_base64_stands_for_nothing() {
    assert_eq!(base64_decode("Zm9v!"), None);
    assert_eq!(base64_decode("Z"), None);
    assert_eq!(base64_decode("Zm9vY"), None);
    assert_eq!(base64_decode("Zg==Zg"), None);
    assert_eq!(base64_decode("é"), None);
    assert_eq!(base64_decode(" Zm9v"), None);
}

#[test]
fn every_byte_sequence_comes_back_from_its_base64_text() {
    let all: Vec<u8> = (0..=255).collect();
    for len in 0..all.len() {
        let data = &all[..len];
        assert_eq!(base64_decode(&base64_encode(data)), Some(data.to_vec()));
    }
    for start in 0..all.len() {
        let data = &all[start..];
        assert_eq!(base64_decode(&base64_encode(data)), Some(data.to_vec()));
    }
}

#[test]
fn an_item_that_passes_the_key_check_holds_its_key() {
    let schema = KeySchema::composite("pk", KeyType::S, "sk", KeyType::N);
    let item = Item::new().with_s("pk", "u#1").with_n("sk", 7).with_s("other", "x");
    assert!(item.validate_key(&schema).is_ok());
    let key = item.extract_key(&schema).unwrap();
    assert_eq!(key.to_storage_key(), "S:u\\#1#N:7");
    assert!(key.same(&PrimaryKey::composite("u#1", KeyValue::N("7".to_string()))));
}

#[test]
fn an_item_without_the_partition_key_fails_the_key_check() {
    let schema = KeySchema::composite("pk", KeyType::S, "sk", KeyType::N);
    let item = Item::new().with_n("sk", 7);
    match item.validate_key(&schema) {
        Err(KeyValidationError::MissingAttribute { name }) => assert_eq!(name, "pk"),
        other => panic!("unexpected: {:?}", other),
    }
    assert!(item.extract_key(&schema).is_none());
}

#[test]
fn an_item_without_the_sort_key_fails_the_key_check() {
    let schema = KeySchema::composite("pk", KeyType::S, "sk", KeyType::N);
    let item = Item::new().with_s("pk", "u");
    match item.validate_key(&schema) {
        Err(KeyValidationError::MissingAttribute { name }) => assert_eq!(name, "sk"),
        other => panic!("unexpected: {:?}", other),
    }
    assert!(item.extract_key(&schema).is_none());
}

#[test]
fn a_key_attribute_of_another_type_fails_the_key_check() {
    let schema = KeySchema::simple("pk", KeyType::N);
    let item = Item::new().with_s("pk", "u");
    match item.validate_key(&schema) {
        Err(KeyValidationError::TypeMismatch { name, expected, actual }) => {
            assert_eq!(name, "pk");
            assert_eq!(expected, "N");
            assert_eq!(actual, "S");
        },
        other => panic!("unexpected: {:?}", other),
    }
    assert!(item.extract_key(&schema).is_none());
}

#[test]
fn the_partition_key_is_checked_before_the_sort_key() {
    let schema = KeySchema::composite("pk", KeyType::S, "sk", KeyType::S);
    match Item::new().validate_key(&schema) {
        Err(KeyValidationError::MissingAttribute { name }) => assert_eq!(name, "pk"),
        other => panic!("unexpected: {:?}", other),
    }
}

#[test]
fn a_key_value_knows_its_type() {
    assert!(KeyType::S.matches(&KeyValue::S("a".to_string())));
    assert!(!KeyType::S.matches(&KeyValue::N("1".to_string())));
    assert!(KeyType::B.matches_attribute(&AttributeValue::B(vec![1])));
    assert!(!KeyType::N.matches_attribute(&AttributeValue::Bool(true)));
    assert_eq!(KeyAttribute::number("n").key_type, KeyType::N);
}
