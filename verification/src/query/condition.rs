//! Key conditions: which items of a partition a query selects.

use crate::bytes::{bytes_start_with, Rank};
use crate::compare::{key_rank, key_rank_of};
use crate::text::{starts_with_text, text_starts_with};
use crate::types::key::{IntoKey, KeyValue, KeyView};
use vstd::prelude::*;

verus! {

/// A condition on the sort key.
#[derive(Debug)]
pub enum SortKeyOp {
    Eq(KeyValue),
    Lt(KeyValue),
    Le(KeyValue),
    Gt(KeyValue),
    Ge(KeyValue),
    /// Between `low` and `high`, both included.
    Between { low: KeyValue, high: KeyValue },
    /// Starts with the given string or binary value.
    BeginsWith(KeyValue),
}

/// The content of a sort key condition.
pub ghost enum SortKeyOpView {
    Eq(KeyView),
    Lt(KeyView),
    Le(KeyView),
    Gt(KeyView),
    Ge(KeyView),
    Between { low: KeyView, high: KeyView },
    BeginsWith(KeyView),
}

/// Whether a key value begins with a prefix: a string with a string, binary
/// data with binary data, nothing else.
pub open spec fn key_begins_with_spec(value: KeyView, prefix: KeyView) -> bool {
    match (value, prefix) {
        (KeyView::S(v), KeyView::S(p)) => text_starts_with(v, p),
        (KeyView::B(v), KeyView::B(p)) => p.is_prefix_of(v),
        _ => false,
    }
}

/// Whether a sort key meets a condition.
pub open spec fn sort_key_matches(op: SortKeyOpView, value: KeyView) -> bool {
    match op {
        SortKeyOpView::Eq(t) => key_rank(value, t) == Rank::Equal,
        SortKeyOpView::Lt(t) => key_rank(value, t) == Rank::Less,
        SortKeyOpView::Le(t) => key_rank(value, t) != Rank::Greater,
        SortKeyOpView::Gt(t) => key_rank(value, t) == Rank::Greater,
        SortKeyOpView::Ge(t) => key_rank(value, t) != Rank::Less,
        SortKeyOpView::Between { low, high } => key_rank(value, low) != Rank::Less && key_rank(
            value,
            high,
        ) != Rank::Greater,
        SortKeyOpView::BeginsWith(p) => key_begins_with_spec(value, p),
    }
}

/// The key value that a condition compares with; the lower bound of a
/// `Between`.
pub open spec fn op_value(op: SortKeyOpView) -> KeyView {
    match op {
        SortKeyOpView::Eq(v) => v,
        SortKeyOpView::Lt(v) => v,
        SortKeyOpView::Le(v) => v,
        SortKeyOpView::Gt(v) => v,
        SortKeyOpView::Ge(v) => v,
        SortKeyOpView::BeginsWith(v) => v,
        SortKeyOpView::Between { low, .. } => low,
    }
}

impl View for SortKeyOp {
    type V = SortKeyOpView;

    open spec fn view(&self) -> SortKeyOpView {
        match self {
            SortKeyOp::Eq(v) => SortKeyOpView::Eq(v@),
            SortKeyOp::Lt(v) => SortKeyOpView::Lt(v@),
            SortKeyOp::Le(v) => SortKeyOpView::Le(v@),
            SortKeyOp::Gt(v) => SortKeyOpView::Gt(v@),
            SortKeyOp::Ge(v) => SortKeyOpView::Ge(v@),
            SortKeyOp::Between { low, high } => SortKeyOpView::Between { low: low@, high: high@ },
            SortKeyOp::BeginsWith(v) => SortKeyOpView::BeginsWith(v@),
        }
    }
}

/// Whether a key value begins with a prefix.
pub fn key_begins_with(value: &KeyValue, prefix: &KeyValue) -> (r: bool)
    ensures
        r == key_begins_with_spec(value@, prefix@),
{
    match (value, prefix) {
        (KeyValue::S(v), KeyValue::S(p)) => starts_with_text(v.as_str(), p.as_str()),
        (KeyValue::B(v), KeyValue::B(p)) => bytes_start_with(v.as_slice(), p.as_slice()),
        _ => false,
    }
}

impl SortKeyOp {
    /// The sort key equals `value`.
    pub fn eq<K: IntoKey>(value: K) -> (r: Self)
        ensures
            r@ == SortKeyOpView::Eq(value.key()),
    {
        SortKeyOp::Eq(value.into_key())
    }

    /// The sort key is below `value`.
    pub fn lt<K: IntoKey>(value: K) -> (r: Self)
        ensures
            r@ == SortKeyOpView::Lt(value.key()),
    {
        SortKeyOp::Lt(value.into_key())
    }

    /// The sort key is below or equal to `value`.
    pub fn le<K: IntoKey>(value: K) -> (r: Self)
        ensures
            r@ == SortKeyOpView::Le(value.key()),
    {
        SortKeyOp::Le(value.into_key())
    }

    /// The sort key is above `value`.
    pub fn gt<K: IntoKey>(value: K) -> (r: Self)
        ensures
            r@ == SortKeyOpView::Gt(value.key()),
    {
        SortKeyOp::Gt(value.into_key())
    }

    /// The sort key is above or equal to `value`.
    pub fn ge<K: IntoKey>(value: K) -> (r: Self)
        ensures
            r@ == SortKeyOpView::Ge(value.key()),
    {
        SortKeyOp::Ge(value.into_key())
    }

    /// The sort key lies between `low` and `high`, both included.
    pub fn between<L: IntoKey, H: IntoKey>(low: L, high: H) -> (r: Self)
        ensures
            r@ == (SortKeyOpView::Between { low: low.key(), high: high.key() }),
    {
        SortKeyOp::Between { low: low.into_key(), high: high.into_key() }
    }

    /// The sort key starts with `prefix`.
    pub fn begins_with<K: IntoKey>(prefix: K) -> (r: Self)
        ensures
            r@ == SortKeyOpView::BeginsWith(prefix.key()),
    {
        SortKeyOp::BeginsWith(prefix.into_key())
    }

    /// Whether the sort key `value` meets the condition.
    pub fn matches(&self, value: &KeyValue) -> (r: bool)
        ensures
            r == sort_key_matches(self@, value@),
    {
        match self {
            SortKeyOp::Eq(t) => key_rank_of(value, t).is_eq(),
            SortKeyOp::Lt(t) => key_rank_of(value, t).is_lt(),
            SortKeyOp::Le(t) => key_rank_of(value, t).is_le(),
            SortKeyOp::Gt(t) => key_rank_of(value, t).is_gt(),
            SortKeyOp::Ge(t) => key_rank_of(value, t).is_ge(),
            SortKeyOp::Between { low, high } => key_rank_of(value, low).is_ge() && key_rank_of(
                value,
                high,
            ).is_le(),
            SortKeyOp::BeginsWith(p) => key_begins_with(value, p),
        }
    }

    /// The key value that the condition compares with; the lower bound of a
    /// `Between`.
    pub fn value(&self) -> (r: &KeyValue)
        ensures
            r@ == op_value(self@),
    {
        match self {
            SortKeyOp::Eq(v) => v,
            SortKeyOp::Lt(v) => v,
            SortKeyOp::Le(v) => v,
            SortKeyOp::Gt(v) => v,
            SortKeyOp::Ge(v) => v,
            SortKeyOp::BeginsWith(v) => v,
            SortKeyOp::Between { low, .. } => low,
        }
    }

    /// A copy with the same content.
    pub fn duplicate(&self) -> (r: Self)
        ensures
            r@ == self@,
    {
        match self {
            SortKeyOp::Eq(v) => SortKeyOp::Eq(v.duplicate()),
            SortKeyOp::Lt(v) => SortKeyOp::Lt(v.duplicate()),
            SortKeyOp::Le(v) => SortKeyOp::Le(v.duplicate()),
            SortKeyOp::Gt(v) => SortKeyOp::Gt(v.duplicate()),
            SortKeyOp::Ge(v) => SortKeyOp::Ge(v.duplicate()),
            SortKeyOp::Between { low, high } => SortKeyOp::Between {
                low: low.duplicate(),
                high: high.duplicate(),
            },
            SortKeyOp::BeginsWith(v) => SortKeyOp::BeginsWith(v.duplicate()),
        }
    }

    /// Whether two conditions have the same content.
    pub fn same(&self, other: &Self) -> (r: bool)
        ensures
            r == (self@ == other@),
    {
        match (self, other) {
            (SortKeyOp::Eq(a), SortKeyOp::Eq(b)) => a.same(b),
            (SortKeyOp::Lt(a), SortKeyOp::Lt(b)) => a.same(b),
            (SortKeyOp::Le(a), SortKeyOp::Le(b)) => a.same(b),
            (SortKeyOp::Gt(a), SortKeyOp::Gt(b)) => a.same(b),
            (SortKeyOp::Ge(a), SortKeyOp::Ge(b)) => a.same(b),
            (
                SortKeyOp::Between { low: la, high: ha },
                SortKeyOp::Between { low: lb, high: hb },
            ) => la.same(lb) && ha.same(hb),
            (SortKeyOp::BeginsWith(a), SortKeyOp::BeginsWith(b)) => a.same(b),
            _ => false,
        }
    }
}

impl Clone for SortKeyOp {
    fn clone(&self) -> (r: Self)
        ensures
            r@ == self@,
    {
        self.duplicate()
    }
}

impl PartialEq for SortKeyOp {
    fn eq(&self, other: &Self) -> (r: bool) {
        self.same(other)
    }
}

impl vstd::std_specs::cmp::PartialEqSpecImpl for SortKeyOp {
    open spec fn obeys_eq_spec() -> bool {
        true
    }

    open spec fn eq_spec(&self, other: &Self) -> bool {
        self@ == other@
    }
}

/// The condition of a query: a partition key and, optionally, a condition on
/// the sort key.
#[derive(Debug)]
pub struct KeyCondition {
    /// The partition key that the items must have.
    pub partition_key: KeyValue,
    /// The condition that the sort key must meet.
    pub sort_key: Option<SortKeyOp>,
}

/// The content of a key condition.
pub ghost struct KeyConditionView {
    pub partition_key: KeyView,
    pub sort_key: Option<SortKeyOpView>,
}

impl View for KeyCondition {
    type V = KeyConditionView;

    open spec fn view(&self) -> KeyConditionView {
        KeyConditionView {
            partition_key: self.partition_key@,
            sort_key: match self.sort_key {
                Some(op) => Some(op@),
                None => None,
            },
        }
    }
}

impl KeyCondition {
    /// All items of the partition `pk`.
    pub fn pk<K: IntoKey>(pk: K) -> (r: Self)
        ensures
            r@ == (KeyConditionView { partition_key: pk.key(), sort_key: None }),
    {
        KeyCondition { partition_key: pk.into_key(), sort_key: None }
    }

    /// The items of the partition `pk` whose sort key meets `sk_op`.
    pub fn pk_sk<K: IntoKey>(pk: K, sk_op: SortKeyOp) -> (r: Self)
        ensures
            r@ == (KeyConditionView { partition_key: pk.key(), sort_key: Some(sk_op@) }),
    {
        KeyCondition { partition_key: pk.into_key(), sort_key: Some(sk_op) }
    }

    /// The condition with the sort key equal to `value`.
    pub fn sk_eq<K: IntoKey>(self, value: K) -> (r: Self)
        ensures
            r@ == (KeyConditionView {
                partition_key: self@.partition_key,
                sort_key: Some(SortKeyOpView::Eq(value.key())),
            }),
    {
        KeyCondition { partition_key: self.partition_key, sort_key: Some(SortKeyOp::eq(value)) }
    }

    /// The condition with the sort key below `value`.
    pub fn sk_lt<K: IntoKey>(self, value: K) -> (r: Self)
        ensures
            r@ == (KeyConditionView {
                partition_key: self@.partition_key,
                sort_key: Some(SortKeyOpView::Lt(value.key())),
            }),
    {
        KeyCondition { partition_key: self.partition_key, sort_key: Some(SortKeyOp::lt(value)) }
    }

    /// The condition with the sort key below or equal to `value`.
    pub fn sk_le<K: IntoKey>(self, value: K) -> (r: Self)
        ensures
            r@ == (KeyConditionView {
                partition_key: self@.partition_key,
                sort_key: Some(SortKeyOpView::Le(value.key())),
            }),
    {
        KeyCondition { partition_key: self.partition_key, sort_key: Some(SortKeyOp::le(value)) }
    }

    /// The condition with the sort key above `value`.
    pub fn sk_gt<K: IntoKey>(self, value: K) -> (r: Self)
        ensures
            r@ == (KeyConditionView {
                partition_key: self@.partition_key,
                sort_key: Some(SortKeyOpView::Gt(value.key())),
            }),
    {
        KeyCondition { partition_key: self.partition_key, sort_key: Some(SortKeyOp::gt(value)) }
    }

    /// The condition with the sort key above or equal to `value`.
    pub fn sk_ge<K: IntoKey>(self, value: K) -> (r: Self)
        ensures
            r@ == (KeyConditionView {
                partition_key: self@.partition_key,
                sort_key: Some(SortKeyOpView::Ge(value.key())),
            }),
    {
        KeyCondition { partition_key: self.partition_key, sort_key: Some(SortKeyOp::ge(value)) }
    }

    /// The condition with the sort key between `low` and `high`, both
    /// included.
    pub fn sk_between<L: IntoKey, H: IntoKey>(self, low: L, high: H) -> (r: Self)
        ensures
            r@ == (KeyConditionView {
                partition_key: self@.partition_key,
                sort_key: Some(SortKeyOpView::Between { low: low.key(), high: high.key() }),
            }),
    {
        KeyCondition {
            partition_key: self.partition_key,
            sort_key: Some(SortKeyOp::between(low, high)),
        }
    }

    /// The condition with the sort key starting with `prefix`.
    pub fn sk_begins_with<K: IntoKey>(self, prefix: K) -> (r: Self)
        ensures
            r@ == (KeyConditionView {
                partition_key: self@.partition_key,
                sort_key: Some(SortKeyOpView::BeginsWith(prefix.key())),
            }),
    {
        KeyCondition {
            partition_key: self.partition_key,
            sort_key: Some(SortKeyOp::begins_with(prefix)),
        }
    }

    /// A copy with the same content.
    pub fn duplicate(&self) -> (r: Self)
        ensures
            r@ == self@,
    {
        KeyCondition {
            partition_key: self.partition_key.duplicate(),
            sort_key: match &self.sort_key {
                Some(op) => Some(op.duplicate()),
                None => None,
            },
        }
    }
}

impl Clone for KeyCondition {
    fn clone(&self) -> (r: Self)
        ensures
            r@ == self@,
    {
        self.duplicate()
    }
}

} // verus!
