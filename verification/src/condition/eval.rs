//! The evaluation of conditions against an item.

use crate::bytes::{bytes_start_with, contains_bytes, occurs_in, Rank};
use crate::compare::{number_text_rank, number_text_rank_of, value_rank, value_rank_of};
use crate::condition::expression::{AttrType, CompareOp, Condition, ConditionView};
use crate::condition::path::{resolved, PathView};
use crate::number::{count_digits, digit_count};
use crate::error::{EvalError, EvalErrorView, EvalResult};
use crate::sorted::{lookup, set_has};
use crate::text::{
    contains_text, starts_with_text, text_bytes, text_contains, text_equal, text_starts_with,
};
use crate::types::attributes::{
    lemma_map_view, lemma_values_view_lookup, list_view, type_label_of, values_view, AttrMap,
    AttrView, AttributeValue,
};
use crate::types::item::{Item, ItemView};
use vstd::prelude::*;
use vstd::string::StringSliceAdditionalSpecFns;

verus! {

/// Whether two values are equal for a condition: numbers by value, lists
/// element by element, maps name by name, everything else by content. Values
/// of different types are never equal.
pub open spec fn values_equal_spec(a: AttrView, b: AttrView) -> bool
    decreases a,
{
    match (a, b) {
        (AttrView::S(x), AttrView::S(y)) => x == y,
        (AttrView::N(x), AttrView::N(y)) => number_text_rank(x, y) == Rank::Equal,
        (AttrView::B(x), AttrView::B(y)) => x == y,
        (AttrView::Bool(x), AttrView::Bool(y)) => x == y,
        (AttrView::Null, AttrView::Null) => true,
        (AttrView::L(x), AttrView::L(y)) => x.len() == y.len() && forall|i: int|
            0 <= i < x.len() ==> values_equal_spec(#[trigger] x[i], y[i]),
        (AttrView::M(x), AttrView::M(y)) => x.len() == y.len() && forall|i: int|
            0 <= i < x.len() ==> entry_matches(#[trigger] x[i], y),
        (AttrView::Ss(x), AttrView::Ss(y)) => x == y,
        (AttrView::Ns(x), AttrView::Ns(y)) => x == y,
        (AttrView::Bs(x), AttrView::Bs(y)) => x == y,
        _ => false,
    }
}

/// The map `other` holds, under the name of `entry`, a value equal to the
/// entry's.
pub open spec fn entry_matches(entry: (Seq<char>, AttrView), other: Seq<(Seq<char>, AttrView)>) -> bool
    decreases entry,
{
    match lookup::<String, AttrView>(other, text_bytes(entry.0)) {
        Some(v) => values_equal_spec(entry.1, v),
        None => false,
    }
}

/// Whether the outcome of a comparison meets an operator.
pub open spec fn rank_meets(op: CompareOp, r: Rank) -> bool {
    match op {
        CompareOp::Eq => r == Rank::Equal,
        CompareOp::Ne => r != Rank::Equal,
        CompareOp::Lt => r == Rank::Less,
        CompareOp::Le => r != Rank::Greater,
        CompareOp::Gt => r == Rank::Greater,
        CompareOp::Ge => r != Rank::Less,
    }
}

/// Whether two values have the same type.
pub open spec fn same_type(a: AttrView, b: AttrView) -> bool {
    match (a, b) {
        (AttrView::S(_), AttrView::S(_)) => true,
        (AttrView::N(_), AttrView::N(_)) => true,
        (AttrView::B(_), AttrView::B(_)) => true,
        (AttrView::Bool(_), AttrView::Bool(_)) => true,
        (AttrView::Null, AttrView::Null) => true,
        (AttrView::M(_), AttrView::M(_)) => true,
        (AttrView::L(_), AttrView::L(_)) => true,
        (AttrView::Ss(_), AttrView::Ss(_)) => true,
        (AttrView::Ns(_), AttrView::Ns(_)) => true,
        (AttrView::Bs(_), AttrView::Bs(_)) => true,
        _ => false,
    }
}

/// The error of a comparison of two values that cannot be compared.
pub open spec fn mismatch(a: AttrView, b: AttrView) -> EvalErrorView {
    EvalErrorView::TypeMismatch { left: type_label_of(a), right: type_label_of(b) }
}

/// A value compared with another under an operator. Two values of different
/// types cannot be compared under any operator: that is an error, not a
/// comparison that does not hold. Equality is decided for two values of any
/// one type, order only for two strings, two numbers or two binary values.
pub open spec fn compared(a: AttrView, op: CompareOp, value: AttrView) -> Result<bool, EvalErrorView> {
    match op {
        CompareOp::Eq => if same_type(a, value) {
            Ok(values_equal_spec(a, value))
        } else {
            Err(mismatch(a, value))
        },
        CompareOp::Ne => if same_type(a, value) {
            Ok(!values_equal_spec(a, value))
        } else {
            Err(mismatch(a, value))
        },
        _ => match value_rank(a, value) {
            Ok(r) => Ok(rank_meets(op, r)),
            Err(e) => Err(e),
        },
    }
}

/// A comparison of two values of different types fails, whatever the
/// operator.
pub proof fn lemma_compare_across_types(a: AttrView, op: CompareOp, value: AttrView)
    requires
        !same_type(a, value),
    ensures
        compared(a, op, value) == Err::<bool, EvalErrorView>(mismatch(a, value)),
{
}

/// Whether a value contains an operand: a string a substring, binary data a
/// run of bytes, a list an equal element, a set an element.
pub open spec fn contained(attr: Option<AttrView>, operand: AttrView) -> bool {
    match attr {
        Some(AttrView::S(s)) => operand matches AttrView::S(p) && text_contains(s, p),
        Some(AttrView::B(b)) => operand matches AttrView::B(p) && occurs_in(p, b),
        Some(AttrView::L(l)) => exists|i: int|
            0 <= i < l.len() && values_equal_spec(#[trigger] l[i], operand),
        Some(AttrView::Ss(set)) => operand matches AttrView::S(s) && set_has::<String>(
            set,
            text_bytes(s),
        ),
        Some(AttrView::Ns(set)) => operand matches AttrView::N(n) && exists|i: int|
            0 <= i < set.len() && number_text_rank(#[trigger] set[i], n) == Rank::Equal,
        Some(AttrView::Bs(set)) => operand matches AttrView::B(b) && set_has::<Vec<u8>>(set, b),
        _ => false,
    }
}

/// Whether a value has a type.
pub open spec fn has_type(a: AttrView, t: AttrType) -> bool {
    match (a, t) {
        (AttrView::S(_), AttrType::String) => true,
        (AttrView::N(_), AttrType::Number) => true,
        (AttrView::B(_), AttrType::Binary) => true,
        (AttrView::Bool(_), AttrType::Boolean) => true,
        (AttrView::Null, AttrType::Null) => true,
        (AttrView::M(_), AttrType::Mapping) => true,
        (AttrView::L(_), AttrType::List) => true,
        (AttrView::Ss(_), AttrType::StringSet) => true,
        (AttrView::Ns(_), AttrType::NumberSet) => true,
        (AttrView::Bs(_), AttrType::BinarySet) => true,
        _ => false,
    }
}

/// The size of a value: the bytes of a string or of binary data, the digits of
/// a number, the entries of a map, list or set, 1 for a boolean, 0 for null.
pub open spec fn size_of(a: AttrView) -> nat {
    match a {
        AttrView::S(s) => text_bytes(s).len(),
        AttrView::N(n) => digit_count(text_bytes(n)),
        AttrView::B(b) => b.len(),
        AttrView::Bool(_) => 1,
        AttrView::Null => 0,
        AttrView::M(e) => e.len(),
        AttrView::L(l) => l.len(),
        AttrView::Ss(s) => s.len(),
        AttrView::Ns(s) => s.len(),
        AttrView::Bs(s) => s.len(),
    }
}

/// Whether a size meets an operator.
pub open spec fn size_meets(size: nat, op: CompareOp, value: nat) -> bool {
    match op {
        CompareOp::Eq => size == value,
        CompareOp::Ne => size != value,
        CompareOp::Lt => size < value,
        CompareOp::Le => size <= value,
        CompareOp::Gt => size > value,
        CompareOp::Ge => size >= value,
    }
}

/// Whether the value begins with the prefix: a string with a string, binary
/// data with binary data, nothing else.
pub open spec fn begun(attr: Option<AttrView>, prefix: AttrView) -> bool {
    match (attr, prefix) {
        (Some(AttrView::S(s)), AttrView::S(p)) => text_starts_with(s, p),
        (Some(AttrView::B(b)), AttrView::B(p)) => p.is_prefix_of(b),
        _ => false,
    }
}

/// Whether the value lies between two bounds, both included.
pub open spec fn lies_between(a: AttrView, low: AttrView, high: AttrView) -> Result<bool, EvalErrorView> {
    match value_rank(a, low) {
        Err(e) => Err(e),
        Ok(r1) => match value_rank(a, high) {
            Err(e) => Err(e),
            Ok(r2) => Ok(r1 != Rank::Less && r2 != Rank::Greater),
        },
    }
}

/// What a condition says of an item. A condition on a path that names
/// nothing does not hold, but for `Ne` and `AttributeNotExists`. `And` and `Or`
/// stop at the first condition that decides.
pub open spec fn evaluated(c: ConditionView, item: ItemView) -> Result<bool, EvalErrorView>
    decreases c,
{
    match c {
        ConditionView::Compare { path, op, value } => match resolved(path, item) {
            Some(a) => compared(a, op, value),
            None => Ok(op == CompareOp::Ne),
        },
        ConditionView::Between { path, low, high } => match resolved(path, item) {
            Some(a) => lies_between(a, low, high),
            None => Ok(false),
        },
        ConditionView::AttributeExists(path) => Ok(resolved(path, item).is_some()),
        ConditionView::AttributeNotExists(path) => Ok(resolved(path, item).is_none()),
        ConditionView::BeginsWith { path, prefix } => Ok(begun(resolved(path, item), prefix)),
        ConditionView::Contains { path, operand } => Ok(contained(resolved(path, item), operand)),
        ConditionView::AttributeType { path, attribute_type } => Ok(
            match resolved(path, item) {
                Some(a) => has_type(a, attribute_type),
                None => false,
            },
        ),
        ConditionView::Size { path, op, value } => Ok(
            match resolved(path, item) {
                Some(a) => size_meets(size_of(a), op, value as nat),
                None => false,
            },
        ),
        ConditionView::And(a, b) => match evaluated(*a, item) {
            Err(e) => Err(e),
            Ok(false) => Ok(false),
            Ok(true) => evaluated(*b, item),
        },
        ConditionView::Or(a, b) => match evaluated(*a, item) {
            Err(e) => Err(e),
            Ok(true) => Ok(true),
            Ok(false) => evaluated(*b, item),
        },
        ConditionView::Not(a) => match evaluated(*a, item) {
            Err(e) => Err(e),
            Ok(v) => Ok(!v),
        },
    }
}

/// A comparison on a path that names nothing holds for `Ne` and for no other
/// operator.
pub proof fn lemma_compare_absent(path: PathView, op: CompareOp, value: AttrView, item: ItemView)
    requires
        resolved(path, item).is_none(),
    ensures
        evaluated(ConditionView::Compare { path, op, value }, item) == Ok::<bool, EvalErrorView>(
            op == CompareOp::Ne,
        ),
{
}

/// `Or` holds as soon as its first condition holds, whatever the second is.
pub proof fn lemma_or_short_circuit(a: ConditionView, b: ConditionView, item: ItemView)
    requires
        evaluated(a, item) == Ok::<bool, EvalErrorView>(true),
    ensures
        evaluated(ConditionView::Or(Box::new(a), Box::new(b)), item) == Ok::<bool, EvalErrorView>(
            true,
        ),
{
}

/// `And` fails as soon as its first condition fails, whatever the second is.
pub proof fn lemma_and_short_circuit(a: ConditionView, b: ConditionView, item: ItemView)
    requires
        evaluated(a, item) == Ok::<bool, EvalErrorView>(false),
    ensures
        evaluated(ConditionView::And(Box::new(a), Box::new(b)), item) == Ok::<bool, EvalErrorView>(
            false,
        ),
{
}

/// Whether the entries of `a` have equal values in `b`.
fn entries_match(a: &AttrMap, b: &AttrMap) -> (r: bool)
    ensures
        r == forall|i: int|
            0 <= i < a@.len() ==> entry_matches(#[trigger] values_view(a@)[i], values_view(b@)),
    decreases a, 1nat,
{
    let mut i: usize = 0;
    while i < a.entries.len()
        invariant
            i <= a.entries.len(),
            forall|j: int|
                0 <= j < i ==> entry_matches(#[trigger] values_view(a@)[j], values_view(b@)),
        decreases a.entries.len() - i,
    {
        proof {
            assert(decreases_to!(a.entries => a.entries[i as int]));
            lemma_values_view_lookup(b@, text_bytes(a.entries@[i as int].0@));
            assert(values_view(a@)[i as int] == (a.entries@[i as int].0@, a.entries@[i as int].1@));
        }
        let ok = match b.get(a.entries[i].0.as_str().as_bytes()) {
            Some(v) => values_equal(&a.entries[i].1, v),
            None => false,
        };
        if !ok {
            return false;
        }
        i += 1;
    }
    true
}

/// Whether two lists of one length have equal elements.
fn elements_equal(a: &Vec<AttributeValue>, b: &Vec<AttributeValue>) -> (r: bool)
    requires
        a.len() == b.len(),
    ensures
        r == forall|i: int|
            0 <= i < a@.len() ==> values_equal_spec(#[trigger] list_view(a@)[i], list_view(b@)[i]),
    decreases a, 1nat,
{
    let mut i: usize = 0;
    while i < a.len()
        invariant
            i <= a.len(),
            a.len() == b.len(),
            forall|j: int|
                0 <= j < i ==> values_equal_spec(#[trigger] list_view(a@)[j], list_view(b@)[j]),
        decreases a.len() - i,
    {
        proof {
            assert(decreases_to!(a => a[i as int]));
            assert(list_view(a@)[i as int] == a@[i as int]@);
            assert(list_view(b@)[i as int] == b@[i as int]@);
        }
        if !values_equal(&a[i], &b[i]) {
            return false;
        }
        i += 1;
    }
    true
}

/// Whether two values are equal for a condition.
pub fn values_equal(a: &AttributeValue, b: &AttributeValue) -> (r: bool)
    ensures
        r == values_equal_spec(a@, b@),
    decreases a, 0nat,
{
    match (a, b) {
        (AttributeValue::S(x), AttributeValue::S(y)) => text_equal(x.as_str(), y.as_str()),
        (AttributeValue::N(x), AttributeValue::N(y)) => number_text_rank_of(
            x.as_str(),
            y.as_str(),
        ).is_eq(),
        (AttributeValue::B(x), AttributeValue::B(y)) => crate::bytes::bytes_equal(
            x.as_slice(),
            y.as_slice(),
        ),
        (AttributeValue::Bool(x), AttributeValue::Bool(y)) => *x == *y,
        (AttributeValue::Null, AttributeValue::Null) => true,
        (AttributeValue::L(x), AttributeValue::L(y)) => {
            proof {
                assert(a->L_0 == *x);
            }
            x.len() == y.len() && elements_equal(x, y)
        },
        (AttributeValue::M(x), AttributeValue::M(y)) => {
            proof {
                assert(a->M_0 == *x);
                lemma_map_view(*x);
                lemma_map_view(*y);
            }
            x.len() == y.len() && entries_match(x, y)
        },
        (AttributeValue::Ss(x), AttributeValue::Ss(y)) => x.same(y),
        (AttributeValue::Ns(x), AttributeValue::Ns(y)) => x.same(y),
        (AttributeValue::Bs(x), AttributeValue::Bs(y)) => x.same(y),
        _ => false,
    }
}

/// Whether two values have the same type.
pub fn same_type_of(a: &AttributeValue, b: &AttributeValue) -> (r: bool)
    ensures
        r == same_type(a@, b@),
{
    match (a, b) {
        (AttributeValue::S(_), AttributeValue::S(_)) => true,
        (AttributeValue::N(_), AttributeValue::N(_)) => true,
        (AttributeValue::B(_), AttributeValue::B(_)) => true,
        (AttributeValue::Bool(_), AttributeValue::Bool(_)) => true,
        (AttributeValue::Null, AttributeValue::Null) => true,
        (AttributeValue::M(_), AttributeValue::M(_)) => true,
        (AttributeValue::L(_), AttributeValue::L(_)) => true,
        (AttributeValue::Ss(_), AttributeValue::Ss(_)) => true,
        (AttributeValue::Ns(_), AttributeValue::Ns(_)) => true,
        (AttributeValue::Bs(_), AttributeValue::Bs(_)) => true,
        _ => false,
    }
}

/// Compares a value with another under an operator.
pub fn eval_compare(attr: &AttributeValue, op: &CompareOp, value: &AttributeValue) -> (r: EvalResult)
    ensures
        match r {
            Ok(v) => compared(attr@, *op, value@) == Ok::<bool, EvalErrorView>(v),
            Err(e) => compared(attr@, *op, value@) == Err::<bool, _>(e@),
        },
{
    match op {
        CompareOp::Eq => if same_type_of(attr, value) {
            Ok(values_equal(attr, value))
        } else {
            Err(EvalError::TypeMismatch { left: attr.type_label(), right: value.type_label() })
        },
        CompareOp::Ne => if same_type_of(attr, value) {
            Ok(!values_equal(attr, value))
        } else {
            Err(EvalError::TypeMismatch { left: attr.type_label(), right: value.type_label() })
        },
        CompareOp::Lt => match value_rank_of(attr, value) {
            Ok(r) => Ok(r.is_lt()),
            Err(e) => Err(e),
        },
        CompareOp::Le => match value_rank_of(attr, value) {
            Ok(r) => Ok(r.is_le()),
            Err(e) => Err(e),
        },
        CompareOp::Gt => match value_rank_of(attr, value) {
            Ok(r) => Ok(r.is_gt()),
            Err(e) => Err(e),
        },
        CompareOp::Ge => match value_rank_of(attr, value) {
            Ok(r) => Ok(r.is_ge()),
            Err(e) => Err(e),
        },
    }
}

/// Whether a list holds an element equal to `operand`.
fn list_contains(l: &Vec<AttributeValue>, operand: &AttributeValue) -> (r: bool)
    ensures
        r == exists|i: int|
            0 <= i < l@.len() && values_equal_spec(#[trigger] list_view(l@)[i], operand@),
{
    let mut i: usize = 0;
    while i < l.len()
        invariant
            i <= l.len(),
            forall|j: int| 0 <= j < i ==> !values_equal_spec(#[trigger] list_view(l@)[j], operand@),
        decreases l.len() - i,
    {
        proof {
            assert(list_view(l@)[i as int] == l@[i as int]@);
        }
        if values_equal(&l[i], operand) {
            return true;
        }
        i += 1;
    }
    false
}

/// Whether a set of numbers holds one of the value of `n`.
fn number_set_contains(set: &crate::types::attributes::StringSet, n: &str) -> (r: bool)
    ensures
        r == exists|i: int|
            0 <= i < set@.len() && number_text_rank(#[trigger] set@[i], n@) == Rank::Equal,
{
    let mut i: usize = 0;
    while i < set.len()
        invariant
            i <= set@.len(),
            forall|j: int|
                0 <= j < i ==> number_text_rank(#[trigger] set@[j], n@) != Rank::Equal,
        decreases set@.len() - i,
    {
        if number_text_rank_of(set.item_at(i).as_str(), n).is_eq() {
            return true;
        }
        i += 1;
    }
    false
}

/// Whether a value contains an operand.
pub fn eval_contains(attr: Option<&AttributeValue>, operand: &AttributeValue) -> (r: EvalResult)
    ensures
        match r {
            Ok(v) => v == contained(
                match attr {
                    Some(a) => Some(a@),
                    None => None,
                },
                operand@,
            ),
            Err(_) => false,
        },
{
    let a = match attr {
        Some(a) => a,
        None => {
            return Ok(false);
        },
    };
    let found = match (a, operand) {
        (AttributeValue::S(s), AttributeValue::S(p)) => contains_text(s.as_str(), p.as_str()),
        (AttributeValue::B(b), AttributeValue::B(p)) => contains_bytes(b.as_slice(), p.as_slice()),
        (AttributeValue::L(l), _) => {
            let f = list_contains(l, operand);
            proof {
                let lv = list_view(l@);
                assert(f == exists|i: int|
                    0 <= i < lv.len() && values_equal_spec(#[trigger] lv[i], operand@));
            }
            f
        },
        (AttributeValue::Ss(set), AttributeValue::S(s)) => set.contains(s.as_str().as_bytes()),
        (AttributeValue::Ns(set), AttributeValue::N(n)) => number_set_contains(set, n.as_str()),
        (AttributeValue::Bs(set), AttributeValue::B(b)) => set.contains(b.as_slice()),
        _ => false,
    };
    Ok(found)
}

/// Whether a value has a type.
pub fn matches_type(attr: &AttributeValue, expected: AttrType) -> (r: bool)
    ensures
        r == has_type(attr@, expected),
{
    match (attr, expected) {
        (AttributeValue::S(_), AttrType::String) => true,
        (AttributeValue::N(_), AttrType::Number) => true,
        (AttributeValue::B(_), AttrType::Binary) => true,
        (AttributeValue::Bool(_), AttrType::Boolean) => true,
        (AttributeValue::Null, AttrType::Null) => true,
        (AttributeValue::M(_), AttrType::Mapping) => true,
        (AttributeValue::L(_), AttrType::List) => true,
        (AttributeValue::Ss(_), AttrType::StringSet) => true,
        (AttributeValue::Ns(_), AttrType::NumberSet) => true,
        (AttributeValue::Bs(_), AttrType::BinarySet) => true,
        _ => false,
    }
}

/// The size of a value.
pub fn get_size(attr: &AttributeValue) -> (r: usize)
    ensures
        r == size_of(attr@),
{
    match attr {
        AttributeValue::S(s) => s.as_str().as_bytes().len(),
        AttributeValue::N(n) => count_digits(n.as_str().as_bytes()),
        AttributeValue::B(b) => b.len(),
        AttributeValue::Bool(_) => 1,
        AttributeValue::Null => 0,
        AttributeValue::M(m) => {
            proof {
                lemma_map_view(*m);
            }
            m.len()
        },
        AttributeValue::L(l) => l.len(),
        AttributeValue::Ss(s) => s.len(),
        AttributeValue::Ns(s) => s.len(),
        AttributeValue::Bs(s) => s.len(),
    }
}

/// Whether a size meets an operator.
pub fn eval_size_compare(size: usize, op: &CompareOp, value: usize) -> (r: bool)
    ensures
        r == size_meets(size as nat, *op, value as nat),
{
    match op {
        CompareOp::Eq => size == value,
        CompareOp::Ne => size != value,
        CompareOp::Lt => size < value,
        CompareOp::Le => size <= value,
        CompareOp::Gt => size > value,
        CompareOp::Ge => size >= value,
    }
}

/// Evaluates a condition against an item. `And` and `Or` do not look at their
/// second condition where the first decides.
pub fn evaluate(condition: &Condition, item: &Item) -> (r: EvalResult)
    ensures
        match r {
            Ok(v) => evaluated(condition@, item@) == Ok::<bool, EvalErrorView>(v),
            Err(e) => evaluated(condition@, item@) == Err::<bool, _>(e@),
        },
    decreases condition,
{
    match condition {
        Condition::Compare { path, op, value } => {
            match path.resolve(item) {
                Some(a) => eval_compare(a, op, value),
                None => Ok(
                    match op {
                        CompareOp::Ne => true,
                        _ => false,
                    },
                ),
            }
        },
        Condition::Between { path, low, high } => match path.resolve(item) {
            Some(a) => {
                let r1 = match value_rank_of(a, low) {
                    Ok(r) => r,
                    Err(e) => {
                        return Err(e);
                    },
                };
                let r2 = match value_rank_of(a, high) {
                    Ok(r) => r,
                    Err(e) => {
                        return Err(e);
                    },
                };
                Ok(r1.is_ge() && r2.is_le())
            },
            None => Ok(false),
        },
        Condition::AttributeExists(path) => Ok(path.resolve(item).is_some()),
        Condition::AttributeNotExists(path) => Ok(path.resolve(item).is_none()),
        Condition::BeginsWith { path, prefix } => {
            match (path.resolve(item), prefix) {
                (Some(AttributeValue::S(s)), AttributeValue::S(p)) => Ok(
                    starts_with_text(s.as_str(), p.as_str()),
                ),
                (Some(AttributeValue::B(b)), AttributeValue::B(p)) => Ok(
                    bytes_start_with(b.as_slice(), p.as_slice()),
                ),
                _ => Ok(false),
            }
        },
        Condition::Contains { path, operand } => {
            let attr = path.resolve(item);
            eval_contains(attr, operand)
        },
        Condition::AttributeType { path, attribute_type } => {
            match path.resolve(item) {
                Some(a) => Ok(matches_type(a, *attribute_type)),
                None => Ok(false),
            }
        },
        Condition::Size { path, op, value } => {
            match path.resolve(item) {
                Some(a) => {
                    let size = get_size(a);
                    Ok(eval_size_compare(size, op, *value))
                },
                None => Ok(false),
            }
        },
        Condition::And(left, right) => {
            match evaluate(left, item) {
                Err(e) => Err(e),
                Ok(false) => Ok(false),
                Ok(true) => evaluate(right, item),
            }
        },
        Condition::Or(left, right) => {
            match evaluate(left, item) {
                Err(e) => Err(e),
                Ok(true) => Ok(true),
                Ok(false) => evaluate(right, item),
            }
        },
        Condition::Not(inner) => {
            match evaluate(inner, item) {
                Err(e) => Err(e),
                Ok(v) => Ok(!v),
            }
        },
    }
}

} // verus!
