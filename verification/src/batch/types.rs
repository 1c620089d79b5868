//! The items and results of batches.

use crate::types::item::{Item, ItemView};
use crate::types::key::{PrimaryKey, PrimaryKeyView};
use vstd::prelude::*;

verus! {

/// The largest number of writes that a batch should hold.
pub const MAX_BATCH_WRITE_ITEMS: usize = 25;

/// The largest number of keys that a batch should ask for.
pub const MAX_BATCH_GET_ITEMS: usize = 100;

/// One write of a batch.
#[derive(Debug)]
pub enum BatchWriteItem {
    /// Puts an item.
    Put { item: Item },
    /// Deletes the item of a key.
    Delete { key: PrimaryKey },
}

/// The content of a batch write.
pub ghost enum BatchItemView {
    Put { item: ItemView },
    Delete { key: PrimaryKeyView },
}

impl View for BatchWriteItem {
    type V = BatchItemView;

    open spec fn view(&self) -> BatchItemView {
        match self {
            BatchWriteItem::Put { item } => BatchItemView::Put { item: item@ },
            BatchWriteItem::Delete { key } => BatchItemView::Delete { key: key@ },
        }
    }
}

impl BatchWriteItem {
    /// A write that puts `item`.
    pub fn put(item: Item) -> (r: Self)
        ensures
            r@ == (BatchItemView::Put { item: item@ }),
    {
        BatchWriteItem::Put { item }
    }

    /// A write that deletes the item of `key`.
    pub fn delete(key: PrimaryKey) -> (r: Self)
        ensures
            r@ == (BatchItemView::Delete { key: key@ }),
    {
        BatchWriteItem::Delete { key }
    }

    /// Whether the write puts an item.
    pub fn is_put(&self) -> (r: bool)
        ensures
            r == (self@ is Put),
    {
        match self {
            BatchWriteItem::Put { .. } => true,
            BatchWriteItem::Delete { .. } => false,
        }
    }

    /// Whether the write deletes an item.
    pub fn is_delete(&self) -> (r: bool)
        ensures
            r == (self@ is Delete),
    {
        match self {
            BatchWriteItem::Put { .. } => false,
            BatchWriteItem::Delete { .. } => true,
        }
    }

    /// A copy with the same content.
    pub fn duplicate(&self) -> (r: Self)
        ensures
            r@ == self@,
    {
        match self {
            BatchWriteItem::Put { item } => BatchWriteItem::Put { item: item.duplicate() },
            BatchWriteItem::Delete { key } => BatchWriteItem::Delete { key: key.duplicate() },
        }
    }

    /// Whether two writes have the same content.
    pub fn same(&self, other: &Self) -> (r: bool)
        ensures
            r == (self@ == other@),
    {
        match (self, other) {
            (BatchWriteItem::Put { item: a }, BatchWriteItem::Put { item: b }) => a.same(b),
            (BatchWriteItem::Delete { key: a }, BatchWriteItem::Delete { key: b }) => a.same(b),
            _ => false,
        }
    }
}

impl Clone for BatchWriteItem {
    fn clone(&self) -> (r: Self)
        ensures
            r@ == self@,
    {
        self.duplicate()
    }
}

impl PartialEq for BatchWriteItem {
    fn eq(&self, other: &Self) -> (r: bool) {
        self.same(other)
    }
}

impl vstd::std_specs::cmp::PartialEqSpecImpl for BatchWriteItem {
    open spec fn obeys_eq_spec() -> bool {
        true
    }

    open spec fn eq_spec(&self, other: &Self) -> bool {
        self@ == other@
    }
}

/// The content of a list of batch writes.
pub open spec fn writes_view(v: Seq<BatchWriteItem>) -> Seq<BatchItemView> {
    Seq::new(v.len(), |i: int| v[i]@)
}

/// The content of a list of keys.
pub open spec fn keys_view(v: Seq<PrimaryKey>) -> Seq<PrimaryKeyView> {
    Seq::new(v.len(), |i: int| v[i]@)
}

/// The content of a list with one more write is the content with one more.
pub proof fn lemma_writes_view_push(v: Seq<BatchWriteItem>, x: BatchWriteItem)
    ensures
        writes_view(v.push(x)) == writes_view(v).push(x@),
{
    assert(writes_view(v.push(x)) =~= writes_view(v).push(x@));
}

/// The content of a list with one more key is the content with one more.
pub proof fn lemma_keys_view_push(v: Seq<PrimaryKey>, x: PrimaryKey)
    ensures
        keys_view(v.push(x)) == keys_view(v).push(x@),
{
    assert(keys_view(v.push(x)) =~= keys_view(v).push(x@));
}

/// A copy of a list of batch writes.
pub fn duplicate_writes(v: &Vec<BatchWriteItem>) -> (r: Vec<BatchWriteItem>)
    ensures
        writes_view(r@) == writes_view(v@),
{
    let mut out: Vec<BatchWriteItem> = Vec::new();
    let mut i: usize = 0;
    while i < v.len()
        invariant
            i <= v.len(),
            out@.len() == i,
            forall|j: int| 0 <= j < i ==> (#[trigger] out@[j])@ == v@[j]@,
        decreases v.len() - i,
    {
        out.push(v[i].duplicate());
        i += 1;
    }
    proof {
        assert(writes_view(out@) =~= writes_view(v@));
    }
    out
}

/// A copy of a list of keys.
pub fn duplicate_keys(v: &Vec<PrimaryKey>) -> (r: Vec<PrimaryKey>)
    ensures
        keys_view(r@) == keys_view(v@),
{
    let mut out: Vec<PrimaryKey> = Vec::new();
    let mut i: usize = 0;
    while i < v.len()
        invariant
            i <= v.len(),
            out@.len() == i,
            forall|j: int| 0 <= j < i ==> (#[trigger] out@[j])@ == v@[j]@,
        decreases v.len() - i,
    {
        out.push(v[i].duplicate());
        i += 1;
    }
    proof {
        assert(keys_view(out@) =~= keys_view(v@));
    }
    out
}

/// The outcome of a batch of writes.
#[derive(Debug)]
pub struct BatchWriteResult {
    /// The number of writes that were carried out.
    pub processed_count: usize,
    /// The writes that failed.
    pub unprocessed_items: Vec<BatchWriteItem>,
}

impl BatchWriteResult {
    /// The outcome of an empty batch.
    pub fn new() -> (r: Self)
        ensures
            r.processed_count == 0,
            r.unprocessed_items@.len() == 0,
    {
        BatchWriteResult { processed_count: 0, unprocessed_items: Vec::new() }
    }

    /// Whether every write was carried out.
    pub fn is_complete(&self) -> (r: bool)
        ensures
            r == (self.unprocessed_items@.len() == 0),
    {
        self.unprocessed_items.len() == 0
    }

    /// Whether a write failed.
    pub fn has_unprocessed(&self) -> (r: bool)
        ensures
            r == (self.unprocessed_items@.len() > 0),
    {
        self.unprocessed_items.len() > 0
    }

    /// The number of writes that failed.
    pub fn unprocessed_count(&self) -> (r: usize)
        ensures
            r == self.unprocessed_items@.len(),
    {
        self.unprocessed_items.len()
    }

    /// A copy with the same content.
    pub fn duplicate(&self) -> (r: Self)
        ensures
            r.processed_count == self.processed_count,
            writes_view(r.unprocessed_items@) == writes_view(self.unprocessed_items@),
    {
        BatchWriteResult {
            processed_count: self.processed_count,
            unprocessed_items: duplicate_writes(&self.unprocessed_items),
        }
    }
}

impl Clone for BatchWriteResult {
    fn clone(&self) -> (r: Self)
        ensures
            r.processed_count == self.processed_count,
            writes_view(r.unprocessed_items@) == writes_view(self.unprocessed_items@),
    {
        self.duplicate()
    }
}

impl Default for BatchWriteResult {
    fn default() -> (r: Self)
        ensures
            r.processed_count == 0,
            r.unprocessed_items@.len() == 0,
    {
        BatchWriteResult::new()
    }
}

/// The outcome of a batch of reads.
#[derive(Debug)]
pub struct BatchGetResult {
    /// The items found.
    pub items: Vec<Item>,
    /// The keys under which there is no item.
    pub not_found_keys: Vec<PrimaryKey>,
    /// The keys whose read failed.
    pub unprocessed_keys: Vec<PrimaryKey>,
}

impl BatchGetResult {
    /// The outcome of an empty batch.
    pub fn new() -> (r: Self)
        ensures
            r.items@.len() == 0,
            r.not_found_keys@.len() == 0,
            r.unprocessed_keys@.len() == 0,
    {
        BatchGetResult {
            items: Vec::new(),
            not_found_keys: Vec::new(),
            unprocessed_keys: Vec::new(),
        }
    }

    /// Whether every read was carried out.
    pub fn is_complete(&self) -> (r: bool)
        ensures
            r == (self.unprocessed_keys@.len() == 0),
    {
        self.unprocessed_keys.len() == 0
    }

    /// Whether a read failed.
    pub fn has_unprocessed(&self) -> (r: bool)
        ensures
            r == (self.unprocessed_keys@.len() > 0),
    {
        self.unprocessed_keys.len() > 0
    }

    /// The number of items found.
    pub fn found_count(&self) -> (r: usize)
        ensures
            r == self.items@.len(),
    {
        self.items.len()
    }
}

impl Default for BatchGetResult {
    fn default() -> (r: Self)
        ensures
            r.items@.len() == 0,
            r.not_found_keys@.len() == 0,
            r.unprocessed_keys@.len() == 0,
    {
        BatchGetResult::new()
    }
}

} // verus!
