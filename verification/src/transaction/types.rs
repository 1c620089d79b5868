//! The operations and results of transactions.

use crate::condition::expression::{Condition, ConditionView};
use crate::table::request::condition_view;
use crate::types::item::{Item, ItemView};
use crate::types::key::{PrimaryKey, PrimaryKeyView};
use crate::update::expression::{ActionView, UpdateExpression};
use vstd::prelude::*;

verus! {

/// One operation of a write transaction.
#[derive(Debug)]
#[allow(inconsistent_fields)]
pub enum TransactWriteItem {
    /// Puts an item, provided the item as it is meets the condition.
    Put { item: Item, condition: Option<Condition> },
    /// Updates the item of a key, which must exist and meet the condition.
    Update { key: PrimaryKey, expression: UpdateExpression, condition: Option<Condition> },
    /// Deletes the item of a key, provided the item as it is meets the
    /// condition.
    Delete { key: PrimaryKey, condition: Option<Condition> },
    /// Writes nothing; the item of the key as it is must meet the condition.
    ConditionCheck { key: PrimaryKey, condition: Condition },
}

/// The content of an operation of a write transaction.
#[allow(inconsistent_fields)]
pub ghost enum TransactItemView {
    Put { item: ItemView, condition: Option<ConditionView> },
    Update { key: PrimaryKeyView, expression: Seq<ActionView>, condition: Option<ConditionView> },
    Delete { key: PrimaryKeyView, condition: Option<ConditionView> },
    ConditionCheck { key: PrimaryKeyView, condition: ConditionView },
}

impl View for TransactWriteItem {
    type V = TransactItemView;

    open spec fn view(&self) -> TransactItemView {
        match self {
            TransactWriteItem::Put { item, condition } => TransactItemView::Put {
                item: item@,
                condition: condition_view(*condition),
            },
            TransactWriteItem::Update { key, expression, condition } => TransactItemView::Update {
                key: key@,
                expression: expression@,
                condition: condition_view(*condition),
            },
            TransactWriteItem::Delete { key, condition } => TransactItemView::Delete {
                key: key@,
                condition: condition_view(*condition),
            },
            TransactWriteItem::ConditionCheck { key, condition } => TransactItemView::ConditionCheck {
                key: key@,
                condition: condition@,
            },
        }
    }
}

impl TransactWriteItem {
    /// Puts `item`, without condition.
    pub fn put(item: Item) -> (r: Self)
        ensures
            r@ == (TransactItemView::Put { item: item@, condition: None }),
    {
        TransactWriteItem::Put { item, condition: None }
    }

    /// Puts `item`, provided the item as it is meets `condition`.
    pub fn put_with_condition(item: Item, condition: Condition) -> (r: Self)
        ensures
            r@ == (TransactItemView::Put { item: item@, condition: Some(condition@) }),
    {
        TransactWriteItem::Put { item, condition: Some(condition) }
    }

    /// Updates the item of `key`, without condition.
    pub fn update(key: PrimaryKey, expression: UpdateExpression) -> (r: Self)
        ensures
            r@ == (TransactItemView::Update {
                key: key@,
                expression: expression@,
                condition: None,
            }),
    {
        TransactWriteItem::Update { key, expression, condition: None }
    }

    /// Updates the item of `key`, provided it meets `condition`.
    pub fn update_with_condition(key: PrimaryKey, expression: UpdateExpression, condition: Condition) -> (r:
        Self)
        ensures
            r@ == (TransactItemView::Update {
                key: key@,
                expression: expression@,
                condition: Some(condition@),
            }),
    {
        TransactWriteItem::Update { key, expression, condition: Some(condition) }
    }

    /// Deletes the item of `key`, without condition.
    pub fn delete(key: PrimaryKey) -> (r: Self)
        ensures
            r@ == (TransactItemView::Delete { key: key@, condition: None }),
    {
        TransactWriteItem::Delete { key, condition: None }
    }

    /// Deletes the item of `key`, provided the item as it is meets
    /// `condition`.
    pub fn delete_with_condition(key: PrimaryKey, condition: Condition) -> (r: Self)
        ensures
            r@ == (TransactItemView::Delete { key: key@, condition: Some(condition@) }),
    {
        TransactWriteItem::Delete { key, condition: Some(condition) }
    }

    /// Checks that the item of `key` as it is meets `condition`.
    pub fn condition_check(key: PrimaryKey, condition: Condition) -> (r: Self)
        ensures
            r@ == (TransactItemView::ConditionCheck { key: key@, condition: condition@ }),
    {
        TransactWriteItem::ConditionCheck { key, condition }
    }

    /// A copy with the same content.
    pub fn duplicate(&self) -> (r: Self)
        ensures
            r@ == self@,
    {
        match self {
            TransactWriteItem::Put { item, condition } => TransactWriteItem::Put {
                item: item.duplicate(),
                condition: match condition {
                    Some(c) => Some(c.duplicate()),
                    None => None,
                },
            },
            TransactWriteItem::Update { key, expression, condition } => TransactWriteItem::Update {
                key: key.duplicate(),
                expression: expression.duplicate(),
                condition: match condition {
                    Some(c) => Some(c.duplicate()),
                    None => None,
                },
            },
            TransactWriteItem::Delete { key, condition } => TransactWriteItem::Delete {
                key: key.duplicate(),
                condition: match condition {
                    Some(c) => Some(c.duplicate()),
                    None => None,
                },
            },
            TransactWriteItem::ConditionCheck { key, condition } => TransactWriteItem::ConditionCheck {
                key: key.duplicate(),
                condition: condition.duplicate(),
            },
        }
    }
}

impl Clone for TransactWriteItem {
    fn clone(&self) -> (r: Self)
        ensures
            r@ == self@,
    {
        self.duplicate()
    }
}

/// One operation of a read transaction.
#[derive(Debug)]
pub enum TransactGetItem {
    /// Reads the item of a key.
    Get { key: PrimaryKey },
}

/// The key that an operation of a read transaction reads.
pub open spec fn read_key(item: TransactGetItem) -> PrimaryKeyView {
    match item {
        TransactGetItem::Get { key } => key@,
    }
}

impl TransactGetItem {
    /// Reads the item of `key`.
    pub fn get(key: PrimaryKey) -> (r: Self)
        ensures
            read_key(r) == key@,
    {
        TransactGetItem::Get { key }
    }

    /// A copy with the same content.
    pub fn duplicate(&self) -> (r: Self)
        ensures
            read_key(r) == read_key(*self),
    {
        match self {
            TransactGetItem::Get { key } => TransactGetItem::Get { key: key.duplicate() },
        }
    }
}

impl Clone for TransactGetItem {
    fn clone(&self) -> (r: Self)
        ensures
            read_key(r) == read_key(*self),
    {
        self.duplicate()
    }
}

/// The content of a list of optional items.
pub open spec fn optional_items_view(v: Seq<Option<Item>>) -> Seq<Option<ItemView>> {
    Seq::new(
        v.len(),
        |i: int|
            match v[i] {
                Some(item) => Some(item@),
                None => None,
            },
    )
}

/// The number of items among the first `n` entries.
pub open spec fn found_among(v: Seq<Option<ItemView>>, n: nat) -> nat
    decreases n,
{
    if n == 0 || n > v.len() {
        0
    } else {
        found_among(v, (n - 1) as nat) + if v[n - 1].is_some() {
            1nat
        } else {
            0nat
        }
    }
}

/// No more items are found than there are entries.
pub proof fn lemma_found_among_bound(v: Seq<Option<ItemView>>, n: nat)
    requires
        n <= v.len(),
    ensures
        found_among(v, n) <= n,
    decreases n,
{
    if n > 0 {
        lemma_found_among_bound(v, (n - 1) as nat);
    }
}

/// The outcome of a read transaction: for every key, in order, the item or
/// nothing.
#[derive(Debug)]
pub struct TransactGetResult {
    /// The item of every key, or `None`.
    pub items: Vec<Option<Item>>,
}

impl View for TransactGetResult {
    type V = Seq<Option<ItemView>>;

    open spec fn view(&self) -> Seq<Option<ItemView>> {
        optional_items_view(self.items@)
    }
}

impl TransactGetResult {
    /// A result with the given entries.
    pub fn new(items: Vec<Option<Item>>) -> (r: Self)
        ensures
            r@ == optional_items_view(items@),
    {
        TransactGetResult { items }
    }

    /// The number of entries.
    pub fn len(&self) -> (r: usize)
        ensures
            r == self@.len(),
    {
        self.items.len()
    }

    /// Whether there is no entry.
    pub fn is_empty(&self) -> (r: bool)
        ensures
            r == (self@.len() == 0),
    {
        self.items.len() == 0
    }

    /// The number of items found.
    pub fn found_count(&self) -> (r: usize)
        ensures
            r == found_among(self@, self@.len()),
    {
        let mut count: usize = 0;
        let mut i: usize = 0;
        while i < self.items.len()
            invariant
                i <= self.items.len(),
                count == found_among(self@, i as nat),
                count <= i,
            decreases self.items.len() - i,
        {
            proof {
                assert(self@[i as int].is_some() == self.items@[i as int].is_some());
            }
            if self.items[i].is_some() {
                count += 1;
            }
            i += 1;
        }
        count
    }

    /// The item at `index`; `None` where there is none or no such entry.
    pub fn get(&self, index: usize) -> (r: Option<&Item>)
        ensures
            match r {
                Some(item) => index < self@.len() && self@[index as int] == Some(item@),
                None => index >= self@.len() || self@[index as int].is_none(),
            },
    {
        if index >= self.items.len() {
            return None;
        }
        match &self.items[index] {
            Some(item) => Some(item),
            None => None,
        }
    }
}

} // verus!
