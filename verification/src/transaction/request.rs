//! The requests of transactions.

use crate::condition::expression::Condition;
use crate::transaction::types::{
    read_key, TransactGetItem, TransactItemView, TransactWriteItem,
};
use crate::types::item::Item;
use crate::types::key::{PrimaryKey, PrimaryKeyView};
use crate::update::expression::UpdateExpression;
use vstd::prelude::*;

verus! {

/// The content of a list of write operations.
pub open spec fn operations_view(v: Seq<TransactWriteItem>) -> Seq<TransactItemView> {
    Seq::new(v.len(), |i: int| v[i]@)
}

/// The keys that a list of read operations reads.
pub open spec fn read_keys(v: Seq<TransactGetItem>) -> Seq<PrimaryKeyView> {
    Seq::new(v.len(), |i: int| read_key(v[i]))
}

/// A write transaction: operations that are carried out all or not at all.
#[derive(Debug)]
pub struct TransactWriteRequest {
    /// The operations, in their order.
    pub items: Vec<TransactWriteItem>,
}

impl View for TransactWriteRequest {
    type V = Seq<TransactItemView>;

    open spec fn view(&self) -> Seq<TransactItemView> {
        operations_view(self.items@)
    }
}

impl TransactWriteRequest {
    /// A transaction without operations.
    pub fn new() -> (r: Self)
        ensures
            r@ == Seq::<TransactItemView>::empty(),
    {
        let r = TransactWriteRequest { items: Vec::new() };
        proof {
            assert(r@ =~= Seq::<TransactItemView>::empty());
        }
        r
    }

    /// The transaction with one more operation.
    pub fn with_item(self, item: TransactWriteItem) -> (r: Self)
        ensures
            r@ == self@.push(item@),
    {
        let mut items = self.items;
        items.push(item);
        let r = TransactWriteRequest { items };
        proof {
            assert(r@ =~= self@.push(item@));
        }
        r
    }

    /// The transaction with a put added.
    pub fn put(self, item: Item) -> (r: Self)
        ensures
            r@ == self@.push(TransactItemView::Put { item: item@, condition: None }),
    {
        self.with_item(TransactWriteItem::put(item))
    }

    /// The transaction with a conditional put added.
    pub fn put_with_condition(self, item: Item, condition: Condition) -> (r: Self)
        ensures
            r@ == self@.push(TransactItemView::Put { item: item@, condition: Some(condition@) }),
    {
        self.with_item(TransactWriteItem::put_with_condition(item, condition))
    }

    /// The transaction with an update added.
    pub fn update(self, key: PrimaryKey, expression: UpdateExpression) -> (r: Self)
        ensures
            r@ == self@.push(
                TransactItemView::Update { key: key@, expression: expression@, condition: None },
            ),
    {
        self.with_item(TransactWriteItem::update(key, expression))
    }

    /// The transaction with a conditional update added.
    pub fn update_with_condition(
        self,
        key: PrimaryKey,
        expression: UpdateExpression,
        condition: Condition,
    ) -> (r: Self)
        ensures
            r@ == self@.push(
                TransactItemView::Update {
                    key: key@,
                    expression: expression@,
                    condition: Some(condition@),
                },
            ),
    {
        self.with_item(TransactWriteItem::update_with_condition(key, expression, condition))
    }

    /// The transaction with a delete added.
    pub fn delete(self, key: PrimaryKey) -> (r: Self)
        ensures
            r@ == self@.push(TransactItemView::Delete { key: key@, condition: None }),
    {
        self.with_item(TransactWriteItem::delete(key))
    }

    /// The transaction with a conditional delete added.
    pub fn delete_with_condition(self, key: PrimaryKey, condition: Condition) -> (r: Self)
        ensures
            r@ == self@.push(TransactItemView::Delete { key: key@, condition: Some(condition@) }),
    {
        self.with_item(TransactWriteItem::delete_with_condition(key, condition))
    }

    /// The transaction with a condition check added.
    pub fn condition_check(self, key: PrimaryKey, condition: Condition) -> (r: Self)
        ensures
            r@ == self@.push(
                TransactItemView::ConditionCheck { key: key@, condition: condition@ },
            ),
    {
        self.with_item(TransactWriteItem::condition_check(key, condition))
    }

    /// The number of operations.
    pub fn len(&self) -> (r: usize)
        ensures
            r == self@.len(),
    {
        self.items.len()
    }

    /// Whether the transaction has no operation.
    pub fn is_empty(&self) -> (r: bool)
        ensures
            r == (self@.len() == 0),
    {
        self.items.len() == 0
    }

    /// A copy with the same content.
    pub fn duplicate(&self) -> (r: Self)
        ensures
            r@ == self@,
    {
        let mut out: Vec<TransactWriteItem> = Vec::new();
        let mut i: usize = 0;
        while i < self.items.len()
            invariant
                i <= self.items.len(),
                out@.len() == i,
                forall|j: int| 0 <= j < i ==> (#[trigger] out@[j])@ == self.items@[j]@,
            decreases self.items.len() - i,
        {
            out.push(self.items[i].duplicate());
            i += 1;
        }
        let r = TransactWriteRequest { items: out };
        proof {
            assert(r@ =~= self@);
        }
        r
    }
}

impl Clone for TransactWriteRequest {
    fn clone(&self) -> (r: Self)
        ensures
            r@ == self@,
    {
        self.duplicate()
    }
}

impl Default for TransactWriteRequest {
    fn default() -> (r: Self)
        ensures
            r@ == Seq::<TransactItemView>::empty(),
    {
        TransactWriteRequest::new()
    }
}

/// A read transaction.
#[derive(Debug)]
pub struct TransactGetRequest {
    /// The operations, in their order.
    pub items: Vec<TransactGetItem>,
}

impl View for TransactGetRequest {
    type V = Seq<PrimaryKeyView>;

    open spec fn view(&self) -> Seq<PrimaryKeyView> {
        read_keys(self.items@)
    }
}

impl TransactGetRequest {
    /// A transaction without operations.
    pub fn new() -> (r: Self)
        ensures
            r@ == Seq::<PrimaryKeyView>::empty(),
    {
        let r = TransactGetRequest { items: Vec::new() };
        proof {
            assert(r@ =~= Seq::<PrimaryKeyView>::empty());
        }
        r
    }

    /// The transaction with one more operation.
    pub fn with_item(self, item: TransactGetItem) -> (r: Self)
        ensures
            r@ == self@.push(read_key(item)),
    {
        let mut items = self.items;
        items.push(item);
        let r = TransactGetRequest { items };
        proof {
            assert(r@ =~= self@.push(read_key(item)));
        }
        r
    }

    /// The transaction with a read of `key` added.
    pub fn get(self, key: PrimaryKey) -> (r: Self)
        ensures
            r@ == self@.push(key@),
    {
        self.with_item(TransactGetItem::get(key))
    }

    /// The number of operations.
    pub fn len(&self) -> (r: usize)
        ensures
            r == self@.len(),
    {
        self.items.len()
    }

    /// Whether the transaction has no operation.
    pub fn is_empty(&self) -> (r: bool)
        ensures
            r == (self@.len() == 0),
    {
        self.items.len() == 0
    }
}

impl Default for TransactGetRequest {
    fn default() -> (r: Self)
        ensures
            r@ == Seq::<PrimaryKeyView>::empty(),
    {
        TransactGetRequest::new()
    }
}

/// What can be turned into a write transaction: a request, or a list of
/// operations.
pub trait IntoTransactWrite: Sized {
    /// The operations of the transaction.
    spec fn operations(&self) -> Seq<TransactItemView>;

    fn into_transact_write(self) -> (r: TransactWriteRequest)
        ensures
            r@ == self.operations(),
    ;
}

impl IntoTransactWrite for TransactWriteRequest {
    open spec fn operations(&self) -> Seq<TransactItemView> {
        self@
    }

    fn into_transact_write(self) -> (r: TransactWriteRequest) {
        self
    }
}

impl IntoTransactWrite for Vec<TransactWriteItem> {
    open spec fn operations(&self) -> Seq<TransactItemView> {
        operations_view(self@)
    }

    fn into_transact_write(self) -> (r: TransactWriteRequest) {
        TransactWriteRequest { items: self }
    }
}

/// What can be turned into a read transaction: a request, or a list of
/// operations.
pub trait IntoTransactGet: Sized {
    /// The keys that the transaction reads.
    spec fn reads(&self) -> Seq<PrimaryKeyView>;

    fn into_transact_get(self) -> (r: TransactGetRequest)
        ensures
            r@ == self.reads(),
    ;
}

impl IntoTransactGet for TransactGetRequest {
    open spec fn reads(&self) -> Seq<PrimaryKeyView> {
        self@
    }

    fn into_transact_get(self) -> (r: TransactGetRequest) {
        self
    }
}

impl IntoTransactGet for Vec<TransactGetItem> {
    open spec fn reads(&self) -> Seq<PrimaryKeyView> {
        read_keys(self@)
    }

    fn into_transact_get(self) -> (r: TransactGetRequest) {
        TransactGetRequest { items: self }
    }
}

} // verus!
