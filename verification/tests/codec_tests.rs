use nosquealdb::types::{
    decode, encode, AttrMap, AttributeValue, BinarySet, DecodeError, Item, StringSet,
};

fn text(s: &str) -> AttributeValue {
    AttributeValue::S(s.to_string())
}

fn num(s: &str) -> AttributeValue {
    AttributeValue::N(s.to_string())
}

fn nested() -> AttributeValue {
    let mut inner = AttrMap::new();
    inner.insert("z".to_string(), AttributeValue::Null);
    inner.insert("a".to_string(), AttributeValue::Bool(true));
    inner.insert(
        "list".to_string(),
        AttributeValue::L(vec![
            num("-1.50"),
            text(""),
            AttributeValue::B(vec![0, 255, 7]),
            AttributeValue::L(vec![]),
            AttributeValue::M(AttrMap::new()),
        ]),
    );
    let mut outer = AttrMap::new();
    outer.insert("inner".to_string(), AttributeValue::M(inner));
    outer.insert(
        "names".to_string(),
        AttributeValue::Ss(StringSet::from_vec(vec![
            "b".to_string(),
            "a".to_string(),
            "c".to_string(),
        ])),
    );
    outer.insert(
        "numbers".to_string(),
        AttributeValue::Ns(StringSet::from_vec(vec!["10".to_string(), "9".to_string()])),
    );
    outer.insert(
        "blobs".to_string(),
        AttributeValue::Bs(BinarySet::from_vec(vec![vec![2, 1], vec![1, 2], vec![]])),
    );
    AttributeValue::M(outer)
}

#[test]
fn scalar_values_have_their_exact_bytes() {
    assert_eq!(encode(&text("hi")), vec![1, 2, b'h', b'i']);
    assert_eq!(encode(&num("42")), vec![2, 2, b'4', b'2']);
    assert_eq!(encode(&AttributeValue::B(vec![9, 8, 7])), vec![3, 3, 9, 8, 7]);
    assert_eq!(encode(&AttributeValue::Bool(true)), vec![4, 1]);
    assert_eq!(encode(&AttributeValue::Bool(false)), vec![4, 0]);
    assert_eq!(encode(&AttributeValue::Null), vec![5]);
    assert_eq!(encode(&text("")), vec![1, 0]);
}

#[test]
fn containers_have_their_exact_bytes() {
    let mut m = AttrMap::new();
    m.insert("k".to_string(), AttributeValue::Null);
    assert_eq!(encode(&AttributeValue::M(m)), vec![6, 1, 1, b'k', 5]);
    assert_eq!(
        encode(&AttributeValue::L(vec![AttributeValue::Bool(true), AttributeValue::Null])),
        vec![7, 2, 4, 1, 5]
    );
    assert_eq!(
        encode(&AttributeValue::Ss(StringSet::from_vec(vec!["b".to_string(), "a".to_string()]))),
        vec![8, 2, 1, b'a', 1, b'b']
    );
    assert_eq!(
        encode(&AttributeValue::Ns(StringSet::from_vec(vec!["7".to_string()]))),
        vec![9, 1, 1, b'7']
    );
    assert_eq!(
        encode(&AttributeValue::Bs(BinarySet::from_vec(vec![vec![5], vec![]]))),
        vec![10, 2, 0, 1, 5]
    );
}

#[test]
fn short_lengths_take_one_byte_and_long_ones_four() {
    let short = encode(&AttributeValue::B(vec![0; 127]));
    assert_eq!(&short[..2], &[3, 127]);
    assert_eq!(short.len(), 2 + 127);

    let long = encode(&AttributeValue::B(vec![0; 128]));
    assert_eq!(&long[..5], &[3, 0x80, 0, 0, 128]);
    assert_eq!(long.len(), 5 + 128);

    let longer = encode(&AttributeValue::B(vec![1; 70_000]));
    assert_eq!(&longer[..5], &[3, 0x80, 0x01, 0x11, 0x70]);
    assert_eq!(longer.len(), 5 + 70_000);
}

#[test]
fn every_kind_of_value_comes_back_from_its_bytes() {
    let values = vec![
        text("hello"),
        text(""),
        text("héllo wörld ✓"),
        num("0"),
        num("-12.5"),
        AttributeValue::B(vec![]),
        AttributeValue::B((0..=255).collect()),
        AttributeValue::Bool(true),
        AttributeValue::Bool(false),
        AttributeValue::Null,
        AttributeValue::L(vec![]),
        AttributeValue::M(AttrMap::new()),
        AttributeValue::Ss(StringSet::new()),
        nested(),
    ];
    for v in values {
        let bytes = encode(&v);
        assert_eq!(decode(&bytes), Ok(v));
    }
}

#[test]
fn a_large_value_comes_back_from_its_bytes() {
    let mut list = Vec::new();
    for i in 0..300 {
        list.push(text(&"x".repeat(i)));
    }
    let v = AttributeValue::L(list);
    assert_eq!(decode(&encode(&v)), Ok(v));
}

#[test]
fn equal_maps_have_the_same_bytes_whatever_the_order_of_insertion() {
    let mut forward = AttrMap::new();
    forward.insert("a".to_string(), num("1"));
    forward.insert("b".to_string(), num("2"));
    forward.insert("c".to_string(), num("3"));

    let mut backward = AttrMap::new();
    backward.insert("c".to_string(), num("3"));
    backward.insert("b".to_string(), num("2"));
    backward.insert("a".to_string(), num("1"));

    assert_eq!(
        encode(&AttributeValue::M(forward)),
        encode(&AttributeValue::M(backward))
    );
}

#[test]
fn equal_items_have_the_same_bytes() {
    let one = Item::new().with_s("pk", "u").with_n("age", 3).with_bool("ok", true);
    let other = Item::new().with_bool("ok", true).with_n("age", 3).with_s("pk", "u");
    assert_eq!(encode(&one.to_attribute()), encode(&other.to_attribute()));
}

#[test]
fn equal_sets_have_the_same_bytes_whatever_the_order_of_insertion() {
    let one = StringSet::from_vec(vec!["x".to_string(), "y".to_string(), "x".to_string()]);
    let other = StringSet::from_vec(vec!["y".to_string(), "x".to_string()]);
    assert_eq!(encode(&AttributeValue::Ss(one)), encode(&AttributeValue::Ss(other)));
}

#[test]
fn map_keys_are_written_in_ascending_order() {
    let mut m = AttrMap::new();
    m.insert("b".to_string(), AttributeValue::Null);
    m.insert("a".to_string(), AttributeValue::Null);
    assert_eq!(
        encode(&AttributeValue::M(m)),
        vec![6, 2, 1, b'a', 5, 1, b'b', 5]
    );
}

#[test]
fn no_bytes_end_too_early() {
    assert_eq!(decode(&[]), Err(DecodeError::UnexpectedEof));
}

#[test]
fn a_string_cut_short_ends_too_early() {
    assert_eq!(decode(&[1, 3, b'a', b'b']), Err(DecodeError::UnexpectedEof));
    assert_eq!(decode(&[1]), Err(DecodeError::UnexpectedEof));
    assert_eq!(decode(&[1, 0x80, 0, 0]), Err(DecodeError::UnexpectedEof));
}

#[test]
fn a_container_cut_short_ends_too_early() {
    assert_eq!(decode(&[7, 2, 5]), Err(DecodeError::UnexpectedEof));
    assert_eq!(decode(&[6, 1, 1, b'k']), Err(DecodeError::UnexpectedEof));
    assert_eq!(decode(&[4]), Err(DecodeError::UnexpectedEof));
}

#[test]
fn an_unknown_first_byte_is_no_type_tag() {
    assert_eq!(decode(&[0]), Err(DecodeError::InvalidTypeTag(0)));
    assert_eq!(decode(&[11]), Err(DecodeError::InvalidTypeTag(11)));
    assert_eq!(decode(&[255, 1, 2]), Err(DecodeError::InvalidTypeTag(255)));
    assert_eq!(decode(&[7, 1, 99]), Err(DecodeError::InvalidTypeTag(99)));
}

#[test]
fn a_boolean_must_be_zero_or_one() {
    assert_eq!(decode(&[4, 2]), Err(DecodeError::InvalidBool(2)));
    assert_eq!(decode(&[4, 255]), Err(DecodeError::InvalidBool(255)));
}

#[test]
fn a_string_must_be_utf8() {
    assert_eq!(decode(&[1, 2, 0xC3, 0x28]), Err(DecodeError::InvalidUtf8));
    assert_eq!(decode(&[2, 1, 0xFF]), Err(DecodeError::InvalidUtf8));
    assert_eq!(decode(&[6, 1, 1, 0x80, 5]), Err(DecodeError::InvalidUtf8));
    assert_eq!(decode(&[8, 1, 1, 0xFF]), Err(DecodeError::InvalidUtf8));
}

#[test]
fn text_of_several_bytes_per_character_comes_back() {
    // two, three and four bytes in UTF-8
    let s = "é€😀";
    let bytes = encode(&text(s));
    assert_eq!(bytes[1] as usize, s.len());
    assert_eq!(decode(&bytes), Ok(text(s)));
}
