//! How values are ordered: strings and binary data by their bytes, numbers by
//! their value.

use crate::bytes::{compare_bytes, lex_rank, Rank};
use crate::error::{EvalError, EvalErrorView};
use crate::number::{compare_numbers, number_rank};
use crate::text::{compare_text, text_bytes, text_rank};
use crate::types::attributes::{type_label_of, AttrView, AttributeValue};
use crate::types::key::{key_label_of, KeyValue, KeyView};
use vstd::prelude::*;
use vstd::string::StringSliceAdditionalSpecFns;

verus! {

/// Compares two number texts by value; texts that are no numerals are
/// compared as plain strings.
pub open spec fn number_text_rank(a: Seq<char>, b: Seq<char>) -> Rank {
    number_rank(text_bytes(a), text_bytes(b))
}

/// Compares two key values: two of one type by their content, two of
/// different types by the names of their types.
pub open spec fn key_rank(a: KeyView, b: KeyView) -> Rank {
    match (a, b) {
        (KeyView::S(x), KeyView::S(y)) => text_rank(x, y),
        (KeyView::N(x), KeyView::N(y)) => number_text_rank(x, y),
        (KeyView::B(x), KeyView::B(y)) => lex_rank(x, y),
        _ => text_rank(key_label_of(a), key_label_of(b)),
    }
}

/// Compares two attribute values: two strings, two numbers or two binary
/// values; any other pair cannot be compared.
pub open spec fn value_rank(a: AttrView, b: AttrView) -> Result<Rank, EvalErrorView> {
    match (a, b) {
        (AttrView::S(x), AttrView::S(y)) => Ok(text_rank(x, y)),
        (AttrView::N(x), AttrView::N(y)) => Ok(number_text_rank(x, y)),
        (AttrView::B(x), AttrView::B(y)) => Ok(lex_rank(x, y)),
        _ => Err(EvalErrorView::TypeMismatch { left: type_label_of(a), right: type_label_of(b) }),
    }
}

/// Compares two number texts by value.
pub fn number_text_rank_of(a: &str, b: &str) -> (r: Rank)
    ensures
        r == number_text_rank(a@, b@),
{
    compare_numbers(a.as_bytes(), b.as_bytes())
}

/// Compares two key values.
pub fn key_rank_of(a: &KeyValue, b: &KeyValue) -> (r: Rank)
    ensures
        r == key_rank(a@, b@),
{
    match (a, b) {
        (KeyValue::S(x), KeyValue::S(y)) => compare_text(x.as_str(), y.as_str()),
        (KeyValue::N(x), KeyValue::N(y)) => number_text_rank_of(x.as_str(), y.as_str()),
        (KeyValue::B(x), KeyValue::B(y)) => compare_bytes(x.as_slice(), y.as_slice()),
        _ => compare_text(a.type_label(), b.type_label()),
    }
}

/// Compares two attribute values.
pub fn value_rank_of(a: &AttributeValue, b: &AttributeValue) -> (r: Result<Rank, EvalError>)
    ensures
        match r {
            Ok(rank) => value_rank(a@, b@) == Ok::<_, EvalErrorView>(rank),
            Err(e) => value_rank(a@, b@) == Err::<Rank, _>(e@),
        },
{
    match (a, b) {
        (AttributeValue::S(x), AttributeValue::S(y)) => Ok(compare_text(x.as_str(), y.as_str())),
        (AttributeValue::N(x), AttributeValue::N(y)) => Ok(
            number_text_rank_of(x.as_str(), y.as_str()),
        ),
        (AttributeValue::B(x), AttributeValue::B(y)) => Ok(
            compare_bytes(x.as_slice(), y.as_slice()),
        ),
        _ => Err(EvalError::TypeMismatch { left: a.type_label(), right: b.type_label() }),
    }
}

} // verus!
