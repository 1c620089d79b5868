//! The requests of batches.

use crate::batch::types::{
    duplicate_keys, duplicate_writes, keys_view, lemma_keys_view_push, lemma_writes_view_push,
    writes_view, BatchItemView, BatchWriteItem, MAX_BATCH_GET_ITEMS, MAX_BATCH_WRITE_ITEMS,
};
use crate::query::executor::items_view;
use crate::types::item::{Item, ItemView};
use crate::types::key::{PrimaryKey, PrimaryKeyView};
use vstd::prelude::*;

verus! {

/// The writes that put the given items, in their order.
pub open spec fn puts_of(items: Seq<ItemView>) -> Seq<BatchItemView> {
    Seq::new(items.len(), |i: int| BatchItemView::Put { item: items[i] })
}

/// The writes that delete the items of the given keys, in their order.
pub open spec fn deletes_of(keys: Seq<PrimaryKeyView>) -> Seq<BatchItemView> {
    Seq::new(keys.len(), |i: int| BatchItemView::Delete { key: keys[i] })
}

/// The number of chunks of `size` that `n` entries make.
pub open spec fn chunk_count(n: nat, size: nat) -> nat {
    if size == 0 {
        0
    } else {
        (n + size - 1) as nat / size
    }
}

/// The chunk of index `i`: `size` entries, fewer in the last chunk.
pub open spec fn chunk_of<T>(s: Seq<T>, size: nat, i: int) -> Seq<T> {
    s.subrange(
        i * size,
        if (i + 1) * size <= s.len() {
            (i + 1) * size
        } else {
            s.len() as int
        },
    )
}

/// A batch of writes.
#[derive(Debug)]
pub struct BatchWriteRequest {
    /// The writes.
    pub items: Vec<BatchWriteItem>,
}

impl View for BatchWriteRequest {
    type V = Seq<BatchItemView>;

    open spec fn view(&self) -> Seq<BatchItemView> {
        writes_view(self.items@)
    }
}

impl BatchWriteRequest {
    /// An empty batch.
    pub fn new() -> (r: Self)
        ensures
            r@ == Seq::<BatchItemView>::empty(),
    {
        let r = BatchWriteRequest { items: Vec::new() };
        proof {
            assert(r@ =~= Seq::<BatchItemView>::empty());
        }
        r
    }

    /// The batch with one more write.
    pub fn with_item(self, item: BatchWriteItem) -> (r: Self)
        ensures
            r@ == self@.push(item@),
    {
        let mut items = self.items;
        items.push(item);
        let r = BatchWriteRequest { items };
        proof {
            assert(r@ =~= self@.push(item@));
        }
        r
    }

    /// The batch with a put added.
    pub fn put(self, item: Item) -> (r: Self)
        ensures
            r@ == self@.push(BatchItemView::Put { item: item@ }),
    {
        self.with_item(BatchWriteItem::put(item))
    }

    /// The batch with a put added for every item.
    pub fn put_many(self, items: Vec<Item>) -> (r: Self)
        ensures
            r@ == self@ + puts_of(items_view(items@)),
    {
        let mut out = self.items;
        let mut i: usize = 0;
        proof {
            assert(self@ + puts_of(items_view(items@)).take(0) =~= self@);
        }
        while i < items.len()
            invariant
                i <= items.len(),
                writes_view(out@) == self@ + puts_of(items_view(items@)).take(i as int),
            decreases items.len() - i,
        {
            let w = BatchWriteItem::put(items[i].duplicate());
            proof {
                lemma_writes_view_push(out@, w);
                let all = puts_of(items_view(items@));
                assert(all[i as int] == w@);
                assert((self@ + all.take(i as int)).push(w@) =~= self@ + all.take(i + 1));
            }
            out.push(w);
            i += 1;
        }
        proof {
            assert(puts_of(items_view(items@)).take(i as int) =~= puts_of(items_view(items@)));
        }
        BatchWriteRequest { items: out }
    }

    /// The batch with a delete added.
    pub fn delete(self, key: PrimaryKey) -> (r: Self)
        ensures
            r@ == self@.push(BatchItemView::Delete { key: key@ }),
    {
        self.with_item(BatchWriteItem::delete(key))
    }

    /// The batch with a delete added for every key.
    pub fn delete_many(self, keys: Vec<PrimaryKey>) -> (r: Self)
        ensures
            r@ == self@ + deletes_of(keys_view(keys@)),
    {
        let mut out = self.items;
        let mut i: usize = 0;
        proof {
            assert(self@ + deletes_of(keys_view(keys@)).take(0) =~= self@);
        }
        while i < keys.len()
            invariant
                i <= keys.len(),
                writes_view(out@) == self@ + deletes_of(keys_view(keys@)).take(i as int),
            decreases keys.len() - i,
        {
            let w = BatchWriteItem::delete(keys[i].duplicate());
            proof {
                lemma_writes_view_push(out@, w);
                let all = deletes_of(keys_view(keys@));
                assert(all[i as int] == w@);
                assert((self@ + all.take(i as int)).push(w@) =~= self@ + all.take(i + 1));
            }
            out.push(w);
            i += 1;
        }
        proof {
            assert(deletes_of(keys_view(keys@)).take(i as int) =~= deletes_of(keys_view(keys@)));
        }
        BatchWriteRequest { items: out }
    }

    /// Whether the batch holds more writes than a batch should.
    pub fn exceeds_limit(&self) -> (r: bool)
        ensures
            r == (self@.len() > MAX_BATCH_WRITE_ITEMS),
    {
        self.items.len() > MAX_BATCH_WRITE_ITEMS
    }

    /// The batch cut into batches of the largest size, in order; the last one
    /// may be smaller.
    pub fn into_chunks(self) -> (r: Vec<BatchWriteRequest>)
        ensures
            r@.len() == chunk_count(self@.len(), MAX_BATCH_WRITE_ITEMS as nat),
            forall|i: int|
                0 <= i < r@.len() ==> (#[trigger] r@[i])@ == chunk_of(
                    self@,
                    MAX_BATCH_WRITE_ITEMS as nat,
                    i,
                ),
    {
        let mut out: Vec<BatchWriteRequest> = Vec::new();
        let mut start: usize = 0;
        let n = self.items.len();
        while start < n
            invariant
                n == self.items@.len(),
                start <= n,
                start < n ==> start == out@.len() * 25,
                start == n ==> out@.len() == chunk_count(n as nat, 25),
                forall|i: int| 0 <= i < out@.len() ==> (#[trigger] out@[i])@ == chunk_of(self@, 25, i),
            decreases n - start,
        {
            let end: usize = if n - start > MAX_BATCH_WRITE_ITEMS {
                start + MAX_BATCH_WRITE_ITEMS
            } else {
                n
            };
            let mut chunk: Vec<BatchWriteItem> = Vec::new();
            let mut j: usize = start;
            proof {
                assert(writes_view(chunk@) =~= self@.subrange(start as int, j as int));
            }
            while j < end
                invariant
                    start <= j <= end <= n,
                    n == self.items@.len(),
                    writes_view(chunk@) == self@.subrange(start as int, j as int),
                decreases end - j,
            {
                let w = self.items[j].duplicate();
                proof {
                    lemma_writes_view_push(chunk@, w);
                    assert(self@[j as int] == w@);
                    assert(self@.subrange(start as int, j as int).push(w@) =~= self@.subrange(
                        start as int,
                        j + 1,
                    ));
                }
                chunk.push(w);
                j += 1;
            }
            let ghost k = out@.len() as int;
            proof {
                assert(start == k * 25);
                assert(writes_view(chunk@) == chunk_of(self@, 25, k));
                if end == n {
                    assert(k * 25 < n <= k * 25 + 25);
                    assert((n + 24) / 25 == k + 1);
                }
            }
            out.push(BatchWriteRequest { items: chunk });
            start = end;
        }
        out
    }

    /// The number of writes.
    pub fn len(&self) -> (r: usize)
        ensures
            r == self@.len(),
    {
        self.items.len()
    }

    /// Whether the batch holds no write.
    pub fn is_empty(&self) -> (r: bool)
        ensures
            r == (self@.len() == 0),
    {
        self.items.len() == 0
    }

    /// A copy with the same content.
    pub fn duplicate(&self) -> (r: Self)
        ensures
            r@ == self@,
    {
        BatchWriteRequest { items: duplicate_writes(&self.items) }
    }
}

impl Clone for BatchWriteRequest {
    fn clone(&self) -> (r: Self)
        ensures
            r@ == self@,
    {
        self.duplicate()
    }
}

impl Default for BatchWriteRequest {
    fn default() -> (r: Self)
        ensures
            r@ == Seq::<BatchItemView>::empty(),
    {
        BatchWriteRequest::new()
    }
}

/// A batch of reads.
#[derive(Debug)]
pub struct BatchGetRequest {
    /// The keys to read.
    pub keys: Vec<PrimaryKey>,
}

impl View for BatchGetRequest {
    type V = Seq<PrimaryKeyView>;

    open spec fn view(&self) -> Seq<PrimaryKeyView> {
        keys_view(self.keys@)
    }
}

impl BatchGetRequest {
    /// An empty batch.
    pub fn new() -> (r: Self)
        ensures
            r@ == Seq::<PrimaryKeyView>::empty(),
    {
        let r = BatchGetRequest { keys: Vec::new() };
        proof {
            assert(r@ =~= Seq::<PrimaryKeyView>::empty());
        }
        r
    }

    /// The batch with one more key.
    pub fn get(self, key: PrimaryKey) -> (r: Self)
        ensures
            r@ == self@.push(key@),
    {
        let mut keys = self.keys;
        keys.push(key);
        let r = BatchGetRequest { keys };
        proof {
            assert(r@ =~= self@.push(key@));
        }
        r
    }

    /// The batch with more keys.
    pub fn get_many(self, keys: Vec<PrimaryKey>) -> (r: Self)
        ensures
            r@ == self@ + keys_view(keys@),
    {
        let mut out = self.keys;
        let mut i: usize = 0;
        proof {
            assert(self@ + keys_view(keys@).take(0) =~= self@);
        }
        while i < keys.len()
            invariant
                i <= keys.len(),
                keys_view(out@) == self@ + keys_view(keys@).take(i as int),
            decreases keys.len() - i,
        {
            let k = keys[i].duplicate();
            proof {
                lemma_keys_view_push(out@, k);
                let all = keys_view(keys@);
                assert(all[i as int] == k@);
                assert((self@ + all.take(i as int)).push(k@) =~= self@ + all.take(i + 1));
            }
            out.push(k);
            i += 1;
        }
        proof {
            assert(keys_view(keys@).take(i as int) =~= keys_view(keys@));
        }
        BatchGetRequest { keys: out }
    }

    /// Whether the batch holds more keys than a batch should.
    pub fn exceeds_limit(&self) -> (r: bool)
        ensures
            r == (self@.len() > MAX_BATCH_GET_ITEMS),
    {
        self.keys.len() > MAX_BATCH_GET_ITEMS
    }

    /// The batch cut into batches of the largest size, in order; the last one
    /// may be smaller.
    pub fn into_chunks(self) -> (r: Vec<BatchGetRequest>)
        ensures
            r@.len() == chunk_count(self@.len(), MAX_BATCH_GET_ITEMS as nat),
            forall|i: int|
                0 <= i < r@.len() ==> (#[trigger] r@[i])@ == chunk_of(
                    self@,
                    MAX_BATCH_GET_ITEMS as nat,
                    i,
                ),
    {
        let mut out: Vec<BatchGetRequest> = Vec::new();
        let mut start: usize = 0;
        let n = self.keys.len();
        while start < n
            invariant
                n == self.keys@.len(),
                start <= n,
                start < n ==> start == out@.len() * 100,
                start == n ==> out@.len() == chunk_count(n as nat, 100),
                forall|i: int| 0 <= i < out@.len() ==> (#[trigger] out@[i])@ == chunk_of(self@, 100, i),
            decreases n - start,
        {
            let end: usize = if n - start > MAX_BATCH_GET_ITEMS {
                start + MAX_BATCH_GET_ITEMS
            } else {
                n
            };
            let mut chunk: Vec<PrimaryKey> = Vec::new();
            let mut j: usize = start;
            proof {
                assert(keys_view(chunk@) =~= self@.subrange(start as int, j as int));
            }
            while j < end
                invariant
                    start <= j <= end <= n,
                    n == self.keys@.len(),
                    keys_view(chunk@) == self@.subrange(start as int, j as int),
                decreases end - j,
            {
                let key = self.keys[j].duplicate();
                proof {
                    lemma_keys_view_push(chunk@, key);
                    assert(self@[j as int] == key@);
                    assert(self@.subrange(start as int, j as int).push(key@) =~= self@.subrange(
                        start as int,
                        j + 1,
                    ));
                }
                chunk.push(key);
                j += 1;
            }
            let ghost k = out@.len() as int;
            proof {
                assert(start == k * 100);
                assert(keys_view(chunk@) == chunk_of(self@, 100, k));
                if end == n {
                    assert(k * 100 < n <= k * 100 + 100);
                    assert((n + 99) / 100 == k + 1);
                }
            }
            out.push(BatchGetRequest { keys: chunk });
            start = end;
        }
        out
    }

    /// The number of keys.
    pub fn len(&self) -> (r: usize)
        ensures
            r == self@.len(),
    {
        self.keys.len()
    }

    /// Whether the batch holds no key.
    pub fn is_empty(&self) -> (r: bool)
        ensures
            r == (self@.len() == 0),
    {
        self.keys.len() == 0
    }

    /// A copy with the same content.
    pub fn duplicate(&self) -> (r: Self)
        ensures
            r@ == self@,
    {
        BatchGetRequest { keys: duplicate_keys(&self.keys) }
    }
}

impl Clone for BatchGetRequest {
    fn clone(&self) -> (r: Self)
        ensures
            r@ == self@,
    {
        self.duplicate()
    }
}

impl Default for BatchGetRequest {
    fn default() -> (r: Self)
        ensures
            r@ == Seq::<PrimaryKeyView>::empty(),
    {
        BatchGetRequest::new()
    }
}

/// What can be turned into a batch of writes: a batch, a list of writes, or a
/// list of items to put.
pub trait IntoBatchWrite: Sized {
    /// The writes of the batch.
    spec fn writes(&self) -> Seq<BatchItemView>;

    fn into_batch_write(self) -> (r: BatchWriteRequest)
        ensures
            r@ == self.writes(),
    ;
}

impl IntoBatchWrite for BatchWriteRequest {
    open spec fn writes(&self) -> Seq<BatchItemView> {
        self@
    }

    fn into_batch_write(self) -> (r: BatchWriteRequest) {
        self
    }
}

impl IntoBatchWrite for Vec<BatchWriteItem> {
    open spec fn writes(&self) -> Seq<BatchItemView> {
        writes_view(self@)
    }

    fn into_batch_write(self) -> (r: BatchWriteRequest) {
        BatchWriteRequest { items: self }
    }
}

impl IntoBatchWrite for Vec<Item> {
    open spec fn writes(&self) -> Seq<BatchItemView> {
        puts_of(items_view(self@))
    }

    fn into_batch_write(self) -> (r: BatchWriteRequest) {
        let r = BatchWriteRequest::new().put_many(self);
        proof {
            assert(Seq::<BatchItemView>::empty() + puts_of(items_view(self@)) =~= puts_of(
                items_view(self@),
            ));
        }
        r
    }
}

/// What can be turned into a batch of reads: a batch, or a list of keys.
pub trait IntoBatchGet: Sized {
    /// The keys of the batch.
    spec fn reads(&self) -> Seq<PrimaryKeyView>;

    fn into_batch_get(self) -> (r: BatchGetRequest)
        ensures
            r@ == self.reads(),
    ;
}

impl IntoBatchGet for BatchGetRequest {
    open spec fn reads(&self) -> Seq<PrimaryKeyView> {
        self@
    }

    fn into_batch_get(self) -> (r: BatchGetRequest) {
        self
    }
}

impl IntoBatchGet for Vec<PrimaryKey> {
    open spec fn reads(&self) -> Seq<PrimaryKeyView> {
        keys_view(self@)
    }

    fn into_batch_get(self) -> (r: BatchGetRequest) {
        BatchGetRequest { keys: self }
    }
}

} // verus!
