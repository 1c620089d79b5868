//! The condition language and its builders.

use crate::condition::path::{AttributePath, IntoPath, PathView};
use crate::types::attributes::{AttrView, AttributeValue, IntoAttribute};
use vstd::prelude::*;

verus! {

/// A comparison operator.
#[derive(Debug, Clone, Copy, PartialEq, Eq, Structural)]
pub enum CompareOp {
    Eq,
    Ne,
    Lt,
    Le,
    Gt,
    Ge,
}

/// The type of an attribute value, as a condition names it.
#[derive(Debug, Clone, Copy, PartialEq, Eq, Structural)]
pub enum AttrType {
    String,
    Number,
    Binary,
    Boolean,
    Null,
    Mapping,
    List,
    StringSet,
    NumberSet,
    BinarySet,
}

/// The short name of an attribute type.
pub open spec fn attr_type_label(t: AttrType) -> Seq<char> {
    match t {
        AttrType::String => "S"@,
        AttrType::Number => "N"@,
        AttrType::Binary => "B"@,
        AttrType::Boolean => "BOOL"@,
        AttrType::Null => "NULL"@,
        AttrType::Mapping => "M"@,
        AttrType::List => "L"@,
        AttrType::StringSet => "SS"@,
        AttrType::NumberSet => "NS"@,
        AttrType::BinarySet => "BS"@,
    }
}

impl AttrType {
    /// The short name of the type.
    pub fn as_str(&self) -> (r: &'static str)
        ensures
            r@ == attr_type_label(*self),
    {
        match self {
            AttrType::String => "S",
            AttrType::Number => "N",
            AttrType::Binary => "B",
            AttrType::Boolean => "BOOL",
            AttrType::Null => "NULL",
            AttrType::Mapping => "M",
            AttrType::List => "L",
            AttrType::StringSet => "SS",
            AttrType::NumberSet => "NS",
            AttrType::BinarySet => "BS",
        }
    }
}

/// A condition on an item.
#[derive(Debug)]
#[allow(inconsistent_fields)]
pub enum Condition {
    /// The value at the path compares with `value` as `op` says.
    Compare { path: AttributePath, op: CompareOp, value: AttributeValue },
    /// The value at the path lies between `low` and `high`, both included.
    Between { path: AttributePath, low: AttributeValue, high: AttributeValue },
    /// The path names a value.
    AttributeExists(AttributePath),
    /// The path names nothing.
    AttributeNotExists(AttributePath),
    /// The string or binary value at the path starts with `prefix`.
    BeginsWith { path: AttributePath, prefix: AttributeValue },
    /// The value at the path contains `operand`.
    Contains { path: AttributePath, operand: AttributeValue },
    /// The value at the path has the given type.
    AttributeType { path: AttributePath, attribute_type: AttrType },
    /// The size of the value at the path compares with `value` as `op` says.
    Size { path: AttributePath, op: CompareOp, value: usize },
    /// Both conditions hold.
    And(Box<Condition>, Box<Condition>),
    /// One of the conditions holds.
    Or(Box<Condition>, Box<Condition>),
    /// The condition does not hold.
    Not(Box<Condition>),
}

/// The content of a condition.
#[allow(inconsistent_fields)]
pub ghost enum ConditionView {
    Compare { path: PathView, op: CompareOp, value: AttrView },
    Between { path: PathView, low: AttrView, high: AttrView },
    AttributeExists(PathView),
    AttributeNotExists(PathView),
    BeginsWith { path: PathView, prefix: AttrView },
    Contains { path: PathView, operand: AttrView },
    AttributeType { path: PathView, attribute_type: AttrType },
    Size { path: PathView, op: CompareOp, value: usize },
    And(Box<ConditionView>, Box<ConditionView>),
    Or(Box<ConditionView>, Box<ConditionView>),
    Not(Box<ConditionView>),
}

impl View for Condition {
    type V = ConditionView;

    open spec fn view(&self) -> ConditionView
        decreases self,
    {
        match self {
            Condition::Compare { path, op, value } => ConditionView::Compare {
                path: path@,
                op: *op,
                value: value@,
            },
            Condition::Between { path, low, high } => ConditionView::Between {
                path: path@,
                low: low@,
                high: high@,
            },
            Condition::AttributeExists(path) => ConditionView::AttributeExists(path@),
            Condition::AttributeNotExists(path) => ConditionView::AttributeNotExists(path@),
            Condition::BeginsWith { path, prefix } => ConditionView::BeginsWith {
                path: path@,
                prefix: prefix@,
            },
            Condition::Contains { path, operand } => ConditionView::Contains {
                path: path@,
                operand: operand@,
            },
            Condition::AttributeType { path, attribute_type } => ConditionView::AttributeType {
                path: path@,
                attribute_type: *attribute_type,
            },
            Condition::Size { path, op, value } => ConditionView::Size {
                path: path@,
                op: *op,
                value: *value,
            },
            Condition::And(a, b) => ConditionView::And(Box::new((**a).view()), Box::new((**b).view())),
            Condition::Or(a, b) => ConditionView::Or(Box::new((**a).view()), Box::new((**b).view())),
            Condition::Not(a) => ConditionView::Not(Box::new((**a).view())),
        }
    }
}

impl Condition {
    /// The value at `path` equals `value`.
    pub fn eq<P: IntoPath, V: IntoAttribute>(path: P, value: V) -> (r: Self)
        ensures
            r@ == (ConditionView::Compare {
                path: path.path(),
                op: CompareOp::Eq,
                value: value.attribute(),
            }),
    {
        Condition::Compare { path: path.into_path(), op: CompareOp::Eq, value: value.into_attribute() }
    }

    /// The value at `path` differs from `value`, or `path` names nothing.
    pub fn ne<P: IntoPath, V: IntoAttribute>(path: P, value: V) -> (r: Self)
        ensures
            r@ == (ConditionView::Compare {
                path: path.path(),
                op: CompareOp::Ne,
                value: value.attribute(),
            }),
    {
        Condition::Compare { path: path.into_path(), op: CompareOp::Ne, value: value.into_attribute() }
    }

    /// The value at `path` is below `value`.
    pub fn lt<P: IntoPath, V: IntoAttribute>(path: P, value: V) -> (r: Self)
        ensures
            r@ == (ConditionView::Compare {
                path: path.path(),
                op: CompareOp::Lt,
                value: value.attribute(),
            }),
    {
        Condition::Compare { path: path.into_path(), op: CompareOp::Lt, value: value.into_attribute() }
    }

    /// The value at `path` is below or equal to `value`.
    pub fn le<P: IntoPath, V: IntoAttribute>(path: P, value: V) -> (r: Self)
        ensures
            r@ == (ConditionView::Compare {
                path: path.path(),
                op: CompareOp::Le,
                value: value.attribute(),
            }),
    {
        Condition::Compare { path: path.into_path(), op: CompareOp::Le, value: value.into_attribute() }
    }

    /// The value at `path` is above `value`.
    pub fn gt<P: IntoPath, V: IntoAttribute>(path: P, value: V) -> (r: Self)
        ensures
            r@ == (ConditionView::Compare {
                path: path.path(),
                op: CompareOp::Gt,
                value: value.attribute(),
            }),
    {
        Condition::Compare { path: path.into_path(), op: CompareOp::Gt, value: value.into_attribute() }
    }

    /// The value at `path` is above or equal to `value`.
    pub fn ge<P: IntoPath, V: IntoAttribute>(path: P, value: V) -> (r: Self)
        ensures
            r@ == (ConditionView::Compare {
                path: path.path(),
                op: CompareOp::Ge,
                value: value.attribute(),
            }),
    {
        Condition::Compare { path: path.into_path(), op: CompareOp::Ge, value: value.into_attribute() }
    }

    /// The value at `path` lies between `low` and `high`, both included.
    pub fn between<P: IntoPath, L: IntoAttribute, H: IntoAttribute>(path: P, low: L, high: H) -> (r:
        Self)
        ensures
            r@ == (ConditionView::Between {
                path: path.path(),
                low: low.attribute(),
                high: high.attribute(),
            }),
    {
        Condition::Between {
            path: path.into_path(),
            low: low.into_attribute(),
            high: high.into_attribute(),
        }
    }

    /// `path` names a value.
    pub fn attr_exists<P: IntoPath>(path: P) -> (r: Self)
        ensures
            r@ == ConditionView::AttributeExists(path.path()),
    {
        Condition::AttributeExists(path.into_path())
    }

    /// `path` names nothing.
    pub fn attr_not_exists<P: IntoPath>(path: P) -> (r: Self)
        ensures
            r@ == ConditionView::AttributeNotExists(path.path()),
    {
        Condition::AttributeNotExists(path.into_path())
    }

    /// The value at `path` has the type `attr_type`.
    pub fn attr_type<P: IntoPath>(path: P, attr_type: AttrType) -> (r: Self)
        ensures
            r@ == (ConditionView::AttributeType { path: path.path(), attribute_type: attr_type }),
    {
        Condition::AttributeType { path: path.into_path(), attribute_type: attr_type }
    }

    /// The string or binary value at `path` starts with `prefix`.
    pub fn begins_with<P: IntoPath, V: IntoAttribute>(path: P, prefix: V) -> (r: Self)
        ensures
            r@ == (ConditionView::BeginsWith { path: path.path(), prefix: prefix.attribute() }),
    {
        Condition::BeginsWith { path: path.into_path(), prefix: prefix.into_attribute() }
    }

    /// The value at `path` contains `op`.
    pub fn contains<P: IntoPath, V: IntoAttribute>(path: P, op: V) -> (r: Self)
        ensures
            r@ == (ConditionView::Contains { path: path.path(), operand: op.attribute() }),
    {
        Condition::Contains { path: path.into_path(), operand: op.into_attribute() }
    }

    /// The size of the value at `path` is `size`.
    pub fn size_eq<P: IntoPath>(path: P, size: usize) -> (r: Self)
        ensures
            r@ == (ConditionView::Size { path: path.path(), op: CompareOp::Eq, value: size }),
    {
        Condition::Size { path: path.into_path(), op: CompareOp::Eq, value: size }
    }

    /// The size of the value at `path` is above `size`.
    pub fn size_gt<P: IntoPath>(path: P, size: usize) -> (r: Self)
        ensures
            r@ == (ConditionView::Size { path: path.path(), op: CompareOp::Gt, value: size }),
    {
        Condition::Size { path: path.into_path(), op: CompareOp::Gt, value: size }
    }

    /// The size of the value at `path` is below `size`.
    pub fn size_lt<P: IntoPath>(path: P, size: usize) -> (r: Self)
        ensures
            r@ == (ConditionView::Size { path: path.path(), op: CompareOp::Lt, value: size }),
    {
        Condition::Size { path: path.into_path(), op: CompareOp::Lt, value: size }
    }

    /// The condition turned round.
    pub fn not(self) -> (r: Self)
        ensures
            r@ == ConditionView::Not(Box::new(self@)),
    {
        Condition::Not(Box::new(self))
    }

    /// This condition and `other`.
    pub fn and(self, other: Condition) -> (r: Self)
        ensures
            r@ == ConditionView::And(Box::new(self@), Box::new(other@)),
    {
        Condition::And(Box::new(self), Box::new(other))
    }

    /// This condition or `other`.
    pub fn or(self, other: Condition) -> (r: Self)
        ensures
            r@ == ConditionView::Or(Box::new(self@), Box::new(other@)),
    {
        Condition::Or(Box::new(self), Box::new(other))
    }

    /// A copy with the same content.
    pub fn duplicate(&self) -> (r: Self)
        ensures
            r@ == self@,
        decreases self,
    {
        match self {
            Condition::Compare { path, op, value } => Condition::Compare {
                path: path.duplicate(),
                op: *op,
                value: value.duplicate(),
            },
            Condition::Between { path, low, high } => Condition::Between {
                path: path.duplicate(),
                low: low.duplicate(),
                high: high.duplicate(),
            },
            Condition::AttributeExists(path) => Condition::AttributeExists(path.duplicate()),
            Condition::AttributeNotExists(path) => Condition::AttributeNotExists(path.duplicate()),
            Condition::BeginsWith { path, prefix } => Condition::BeginsWith {
                path: path.duplicate(),
                prefix: prefix.duplicate(),
            },
            Condition::Contains { path, operand } => Condition::Contains {
                path: path.duplicate(),
                operand: operand.duplicate(),
            },
            Condition::AttributeType { path, attribute_type } => Condition::AttributeType {
                path: path.duplicate(),
                attribute_type: *attribute_type,
            },
            Condition::Size { path, op, value } => Condition::Size {
                path: path.duplicate(),
                op: *op,
                value: *value,
            },
            Condition::And(a, b) => Condition::And(Box::new(a.duplicate()), Box::new(b.duplicate())),
            Condition::Or(a, b) => Condition::Or(Box::new(a.duplicate()), Box::new(b.duplicate())),
            Condition::Not(a) => Condition::Not(Box::new(a.duplicate())),
        }
    }
}

impl Clone for Condition {
    fn clone(&self) -> (r: Self)
        ensures
            r@ == self@,
    {
        self.duplicate()
    }
}

/// Builds conditions on one path.
pub struct ConditionBuilder {
    /// The path that the conditions are about.
    pub path: AttributePath,
}

impl ConditionBuilder {
    /// A builder for conditions on `path`.
    pub fn new<P: IntoPath>(path: P) -> (r: Self)
        ensures
            r.path@ == path.path(),
    {
        ConditionBuilder { path: path.into_path() }
    }

    /// The path names a value.
    pub fn is_present(self) -> (r: Condition)
        ensures
            r@ == ConditionView::AttributeExists(self.path@),
    {
        Condition::attr_exists(self.path)
    }

    /// The path names nothing.
    pub fn not_exists(self) -> (r: Condition)
        ensures
            r@ == ConditionView::AttributeNotExists(self.path@),
    {
        Condition::attr_not_exists(self.path)
    }

    /// The value at the path equals `value`.
    pub fn eq<V: IntoAttribute>(self, value: V) -> (r: Condition)
        ensures
            r@ == (ConditionView::Compare {
                path: self.path@,
                op: CompareOp::Eq,
                value: value.attribute(),
            }),
    {
        Condition::eq(self.path, value)
    }

    /// The value at the path differs from `value`, or the path names nothing.
    pub fn ne<V: IntoAttribute>(self, value: V) -> (r: Condition)
        ensures
            r@ == (ConditionView::Compare {
                path: self.path@,
                op: CompareOp::Ne,
                value: value.attribute(),
            }),
    {
        Condition::ne(self.path, value)
    }

    /// The value at the path is below `value`.
    pub fn lt<V: IntoAttribute>(self, value: V) -> (r: Condition)
        ensures
            r@ == (ConditionView::Compare {
                path: self.path@,
                op: CompareOp::Lt,
                value: value.attribute(),
            }),
    {
        Condition::lt(self.path, value)
    }

    /// The value at the path is below or equal to `value`.
    pub fn le<V: IntoAttribute>(self, value: V) -> (r: Condition)
        ensures
            r@ == (ConditionView::Compare {
                path: self.path@,
                op: CompareOp::Le,
                value: value.attribute(),
            }),
    {
        Condition::le(self.path, value)
    }

    /// The value at the path is above `value`.
    pub fn gt<V: IntoAttribute>(self, value: V) -> (r: Condition)
        ensures
            r@ == (ConditionView::Compare {
                path: self.path@,
                op: CompareOp::Gt,
                value: value.attribute(),
            }),
    {
        Condition::gt(self.path, value)
    }

    /// The value at the path is above or equal to `value`.
    pub fn ge<V: IntoAttribute>(self, value: V) -> (r: Condition)
        ensures
            r@ == (ConditionView::Compare {
                path: self.path@,
                op: CompareOp::Ge,
                value: value.attribute(),
            }),
    {
        Condition::ge(self.path, value)
    }

    /// The value at the path lies between `low` and `high`, both included.
    pub fn between<L: IntoAttribute, H: IntoAttribute>(self, low: L, high: H) -> (r: Condition)
        ensures
            r@ == (ConditionView::Between {
                path: self.path@,
                low: low.attribute(),
                high: high.attribute(),
            }),
    {
        Condition::between(self.path, low, high)
    }

    /// The string or binary value at the path starts with `prefix`.
    pub fn begins_with<V: IntoAttribute>(self, prefix: V) -> (r: Condition)
        ensures
            r@ == (ConditionView::BeginsWith { path: self.path@, prefix: prefix.attribute() }),
    {
        Condition::begins_with(self.path, prefix)
    }

    /// The value at the path contains `operand`.
    pub fn contains<V: IntoAttribute>(self, operand: V) -> (r: Condition)
        ensures
            r@ == (ConditionView::Contains { path: self.path@, operand: operand.attribute() }),
    {
        Condition::contains(self.path, operand)
    }

    /// The value at the path has the type `attr_type`.
    pub fn is_type(self, attr_type: AttrType) -> (r: Condition)
        ensures
            r@ == (ConditionView::AttributeType { path: self.path@, attribute_type: attr_type }),
    {
        Condition::attr_type(self.path, attr_type)
    }

    /// The size of the value at the path is `size`.
    pub fn size_eq(self, size: usize) -> (r: Condition)
        ensures
            r@ == (ConditionView::Size { path: self.path@, op: CompareOp::Eq, value: size }),
    {
        Condition::size_eq(self.path, size)
    }

    /// The size of the value at the path is above `size`.
    pub fn size_gt(self, size: usize) -> (r: Condition)
        ensures
            r@ == (ConditionView::Size { path: self.path@, op: CompareOp::Gt, value: size }),
    {
        Condition::size_gt(self.path, size)
    }

    /// The size of the value at the path is below `size`.
    pub fn size_lt(self, size: usize) -> (r: Condition)
        ensures
            r@ == (ConditionView::Size { path: self.path@, op: CompareOp::Lt, value: size }),
    {
        Condition::size_lt(self.path, size)
    }
}

/// A builder for conditions on `path`.
pub fn attr<P: IntoPath>(path: P) -> (r: ConditionBuilder)
    ensures
        r.path@ == path.path(),
{
    ConditionBuilder::new(path)
}

} // verus!
