use nosquealdb::bytes::Rank;
use nosquealdb::error::TableError;
use nosquealdb::number::{
    add_numbers, compare_numbers, format_decimal, format_int, format_uint, parse_decimal,
    NumberError,
};
use nosquealdb::types::{AttributeValue, Item};
use nosquealdb::utils::{add_numeric_strings, compare_numeric_strings, numbers_equal};
use std::cmp::Ordering;

#[test]
fn a_numeral_is_split_at_its_sign_and_point() {
    let d = parse_decimal(b"-12.50").unwrap();
    assert!(d.neg);
    assert_eq!(d.int_part, b"12".to_vec());
    assert_eq!(d.frac_part, b"50".to_vec());

    let d = parse_decimal(b"7").unwrap();
    assert!(!d.neg);
    assert_eq!(d.int_part, b"7".to_vec());
    assert!(d.frac_part.is_empty());

    let d = parse_decimal(b".5").unwrap();
    assert!(d.int_part.is_empty());
    assert_eq!(d.frac_part, b"5".to_vec());
}

#[test]
fn text_that_is_no_numeral_is_not_split() {
    assert!(parse_decimal(b"").is_none());
    assert!(parse_decimal(b"-").is_none());
    assert!(parse_decimal(b".").is_none());
    assert!(parse_decimal(b"abc").is_none());
    assert!(parse_decimal(b"1.2.3").is_none());
    assert!(parse_decimal(b"12a").is_none());
    assert!(parse_decimal(b"1 ").is_none());
    assert!(parse_decimal(b"--1").is_none());
}

#[test]
fn numerals_compare_by_value() {
    assert_eq!(compare_numbers(b"2", b"10"), Rank::Less);
    assert_eq!(compare_numbers(b"10", b"2"), Rank::Greater);
    assert_eq!(compare_numbers(b"-2", b"-10"), Rank::Greater);
    assert_eq!(compare_numbers(b"-1", b"1"), Rank::Less);
    assert_eq!(compare_numbers(b"1.5", b"1.50"), Rank::Equal);
    assert_eq!(compare_numbers(b"007", b"7"), Rank::Equal);
    assert_eq!(compare_numbers(b"0", b"-0"), Rank::Equal);
    assert_eq!(compare_numbers(b"0.1", b"0.09"), Rank::Greater);
    assert_eq!(compare_numbers(b"-0.1", b"-0.09"), Rank::Less);
    assert_eq!(compare_numeric_strings("100", "99.99"), Ordering::Greater);
    assert_eq!(compare_numeric_strings("-42", "-1"), Ordering::Less);
    assert_eq!(compare_numeric_strings("3.0", "3"), Ordering::Equal);
}

#[test]
fn numbers_too_long_for_a_machine_word_compare_by_value() {
    assert_eq!(
        compare_numbers(
            b"123456789012345678901234567890123456789012345678901",
            b"123456789012345678901234567890123456789012345678900"
        ),
        Rank::Greater
    );
    assert_eq!(
        compare_numbers(
            b"0.1234567890123456789012345678901234567890",
            b"0.1234567890123456789012345678901234567891"
        ),
        Rank::Less
    );
}

#[test]
fn texts_that_are_no_numerals_compare_as_bytes() {
    assert_eq!(compare_numbers(b"abc", b"abd"), Rank::Less);
    assert_eq!(compare_numbers(b"10", b"x"), Rank::Less);
    assert_eq!(compare_numbers(b"x", b"x"), Rank::Equal);
}

#[test]
fn equal_numbers_may_be_written_differently() {
    assert!(numbers_equal("1", "1.0"));
    assert!(numbers_equal("-0", "0"));
    assert!(numbers_equal("0010", "10.00"));
    assert!(!numbers_equal("1", "1.01"));
    assert!(!numbers_equal("1", "-1"));
}

#[test]
fn sums_are_exact() {
    assert_eq!(add_numeric_strings("0.1", "0.2").unwrap(), "0.3");
    assert_eq!(add_numeric_strings("1.5", "2.5").unwrap(), "4");
    assert_eq!(add_numeric_strings("5", "-5").unwrap(), "0");
    assert_eq!(add_numeric_strings("-0.5", "0.25").unwrap(), "-0.25");
    assert_eq!(add_numeric_strings("999", "1").unwrap(), "1000");
    assert_eq!(add_numeric_strings("1", "-0.001").unwrap(), "0.999");
    assert_eq!(
        add_numeric_strings("9007199254740993", "1").unwrap(),
        "9007199254740994"
    );
    assert_eq!(
        add_numeric_strings("123456789012345678901234567890", "1").unwrap(),
        "123456789012345678901234567891"
    );
    assert_eq!(add_numbers(b"2", b"2"), Ok("4".to_string()));
}

#[test]
fn a_sum_of_text_that_is_no_numeral_fails() {
    assert_eq!(add_numbers(b"x", b"1"), Err(NumberError::NotANumber));
    assert_eq!(add_numbers(b"1", b""), Err(NumberError::NotANumber));
    match add_numeric_strings("1", "one") {
        Err(TableError::UpdateError(m)) => assert_eq!(m, "invalid number"),
        other => panic!("unexpected: {:?}", other),
    }
}

#[test]
fn sums_have_no_limit() {
    let max = u128::MAX.to_string();
    assert_eq!(
        add_numbers(max.as_bytes(), b"1"),
        Ok("340282366920938463463374607431768211456".to_string())
    );
    assert_eq!(add_numbers(max.as_bytes(), b"0"), Ok(max.clone()));
    assert_eq!(
        add_numeric_strings(&max, &max).unwrap(),
        "680564733841876926926749214863536422910"
    );
    let negative = format!("-{}", max);
    assert_eq!(add_numbers(max.as_bytes(), negative.as_bytes()), Ok("0".to_string()));

    let nines = "9".repeat(100);
    let expected = format!("1{}", "0".repeat(100));
    assert_eq!(add_numeric_strings(&nines, "1").unwrap(), expected);
    assert_eq!(add_numeric_strings(&expected, "-1").unwrap(), nines);
    assert_eq!(add_numeric_strings("-1", &expected).unwrap(), nines);
    assert_eq!(
        add_numeric_strings(&format!("-{}", expected), "1").unwrap(),
        format!("-{}", nines)
    );

    let small = format!("0.{}1", "0".repeat(60));
    assert_eq!(
        add_numeric_strings("1", &small).unwrap(),
        format!("1.{}1", "0".repeat(60))
    );
    assert_eq!(
        add_numeric_strings("1", &format!("-{}", small)).unwrap(),
        format!("0.{}", "9".repeat(61))
    );
}

#[test]
fn sums_borrow_and_carry_across_digits() {
    assert_eq!(add_numeric_strings("1000", "-1").unwrap(), "999");
    assert_eq!(add_numeric_strings("1", "-1000").unwrap(), "-999");
    assert_eq!(add_numeric_strings("-1000", "1").unwrap(), "-999");
    assert_eq!(add_numeric_strings("999.9", "0.1").unwrap(), "1000");
    assert_eq!(add_numeric_strings("-999.9", "-0.1").unwrap(), "-1000");
    assert_eq!(add_numeric_strings("0.05", "-0.1").unwrap(), "-0.05");
    assert_eq!(add_numeric_strings("10.00", "-10").unwrap(), "0");
    assert_eq!(add_numeric_strings("007", "003").unwrap(), "10");
    assert_eq!(add_numeric_strings(".5", "+.5").unwrap(), "1");
    assert_eq!(add_numeric_strings("-0", "0").unwrap(), "0");
    assert_eq!(add_numeric_strings("123456789", "987654321").unwrap(), "1111111110");
    assert_eq!(add_numeric_strings("100", "-99.999").unwrap(), "0.001");
}

#[test]
fn numbers_are_written_without_needless_digits() {
    assert_eq!(format_int(0), "0");
    assert_eq!(format_int(-17), "-17");
    assert_eq!(format_int(i128::MIN), i128::MIN.to_string());
    assert_eq!(format_int(i128::MAX), i128::MAX.to_string());
    assert_eq!(format_uint(u128::MAX), u128::MAX.to_string());
    assert_eq!(format_decimal(false, 1500, 3), "1.5");
    assert_eq!(format_decimal(true, 5, 2), "-0.05");
    assert_eq!(format_decimal(false, 100, 2), "1");
    assert_eq!(format_decimal(true, 0, 2), "0");
    assert_eq!(format_decimal(false, 42, 0), "42");
}

#[test]
fn whole_numbers_of_every_width_become_number_values() {
    let item = Item::new()
        .with_n("a", 5u8)
        .with_n("b", -5i8)
        .with_n("c", 70_000u32)
        .with_n("d", -70_000i64)
        .with_n("e", u64::MAX)
        .with_n("f", "3.25");
    assert_eq!(item.get("a"), Some(&AttributeValue::N("5".to_string())));
    assert_eq!(item.get("b"), Some(&AttributeValue::N("-5".to_string())));
    assert_eq!(item.get("c"), Some(&AttributeValue::N("70000".to_string())));
    assert_eq!(item.get("d"), Some(&AttributeValue::N("-70000".to_string())));
    assert_eq!(item.get("e"), Some(&AttributeValue::N(u64::MAX.to_string())));
    assert_eq!(item.get("f"), Some(&AttributeValue::N("3.25".to_string())));
}
