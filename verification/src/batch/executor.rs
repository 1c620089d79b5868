//! Carrying out batches: every write or read on its own, failures set aside.

use crate::batch::request::{deletes_of, puts_of, BatchWriteRequest, IntoBatchGet, IntoBatchWrite};
use crate::batch::types::{
    keys_view, lemma_keys_view_push, lemma_writes_view_push, writes_view, BatchGetResult,
    BatchItemView, BatchWriteItem, BatchWriteResult,
};
use crate::error::TableResult;
use crate::query::executor::items_view;
use crate::table::engine::{
    after_delete, after_put, delete_plan, item_at, put_plan, Table, TableView,
};
use crate::types::item::{validated, Item, ItemView};
use crate::types::key::{storage_key_text, KeySchema, KeySchemaView, PrimaryKey, PrimaryKeyView};
use vstd::prelude::*;

verus! {

/// The outcome of a batch of writes.
pub ghost struct BatchWriteView {
    /// The table after the batch.
    pub table: TableView,
    /// The number of writes that were carried out.
    pub processed: nat,
    /// The writes that failed, in their order.
    pub unprocessed: Seq<BatchItemView>,
}

/// The outcome of putting the first `n` items, one after the other: an item
/// whose key attributes do not fit the schema, or whose put fails, is set
/// aside and the table stays as it is.
pub open spec fn batch_put(tv: TableView, schema: KeySchemaView, items: Seq<ItemView>, n: nat) -> BatchWriteView
    decreases n,
{
    if n == 0 || n > items.len() {
        BatchWriteView { table: tv, processed: 0, unprocessed: Seq::empty() }
    } else {
        let b = batch_put(tv, schema, items, (n - 1) as nat);
        let item = items[n - 1];
        let failed = BatchWriteView {
            table: b.table,
            processed: b.processed,
            unprocessed: b.unprocessed.push(BatchItemView::Put { item }),
        };
        if validated(item, schema) is Err {
            failed
        } else {
            match put_plan(b.table, item, None, false) {
                Ok(plan) => BatchWriteView {
                    table: after_put(b.table, plan.key, plan.bytes, item),
                    processed: b.processed + 1,
                    unprocessed: b.unprocessed,
                },
                Err(_) => failed,
            }
        }
    }
}

/// The outcome of deleting the items of the first `n` keys, one after the
/// other: a key whose delete fails is set aside.
pub open spec fn batch_delete(tv: TableView, keys: Seq<PrimaryKeyView>, n: nat) -> BatchWriteView
    decreases n,
{
    if n == 0 || n > keys.len() {
        BatchWriteView { table: tv, processed: 0, unprocessed: Seq::empty() }
    } else {
        let b = batch_delete(tv, keys, (n - 1) as nat);
        let key = keys[n - 1];
        match delete_plan(b.table, key, None) {
            Ok(prev) => BatchWriteView {
                table: after_delete(b.table, key, prev.is_some()),
                processed: b.processed + 1,
                unprocessed: b.unprocessed,
            },
            Err(_) => BatchWriteView {
                table: b.table,
                processed: b.processed,
                unprocessed: b.unprocessed.push(BatchItemView::Delete { key }),
            },
        }
    }
}

/// The outcome of a batch of reads.
pub ghost struct BatchGetView {
    /// The items found, in the order of their keys.
    pub items: Seq<ItemView>,
    /// The keys under which there is no item.
    pub not_found: Seq<PrimaryKeyView>,
    /// The keys whose read failed.
    pub unprocessed: Seq<PrimaryKeyView>,
}

/// The outcome of reading the first `n` keys.
pub open spec fn batch_get(tv: TableView, keys: Seq<PrimaryKeyView>, n: nat) -> BatchGetView
    decreases n,
{
    if n == 0 || n > keys.len() {
        BatchGetView { items: Seq::empty(), not_found: Seq::empty(), unprocessed: Seq::empty() }
    } else {
        let b = batch_get(tv, keys, (n - 1) as nat);
        let key = keys[n - 1];
        match item_at(tv.stored, storage_key_text(key)) {
            Ok(Some(item)) => BatchGetView {
                items: b.items.push(item),
                not_found: b.not_found,
                unprocessed: b.unprocessed,
            },
            Ok(None) => BatchGetView {
                items: b.items,
                not_found: b.not_found.push(key),
                unprocessed: b.unprocessed,
            },
            Err(_) => BatchGetView {
                items: b.items,
                not_found: b.not_found,
                unprocessed: b.unprocessed.push(key),
            },
        }
    }
}

/// Every item of a batch of puts is either put or handed back: the items
/// processed and the items left unprocessed are as many as the items given.
pub proof fn lemma_batch_put_bound(tv: TableView, schema: KeySchemaView, items: Seq<ItemView>, n: nat)
    requires
        n <= items.len(),
    ensures
        batch_put(tv, schema, items, n).processed + batch_put(tv, schema, items, n).unprocessed.len()
            == n,
        batch_put(tv, schema, items, n).processed <= n,
    decreases n,
{
    if n > 0 {
        lemma_batch_put_bound(tv, schema, items, (n - 1) as nat);
    }
}

/// Every key of a batch of deletes is either processed or handed back.
pub proof fn lemma_batch_delete_bound(tv: TableView, keys: Seq<PrimaryKeyView>, n: nat)
    requires
        n <= keys.len(),
    ensures
        batch_delete(tv, keys, n).processed + batch_delete(tv, keys, n).unprocessed.len() == n,
        batch_delete(tv, keys, n).processed <= n,
    decreases n,
{
    if n > 0 {
        lemma_batch_delete_bound(tv, keys, (n - 1) as nat);
    }
}

/// Every key of a batch of reads is found, not found or handed back.
pub proof fn lemma_batch_get_count(tv: TableView, keys: Seq<PrimaryKeyView>, n: nat)
    requires
        n <= keys.len(),
    ensures
        batch_get(tv, keys, n).items.len() + batch_get(tv, keys, n).not_found.len() + batch_get(
            tv,
            keys,
            n,
        ).unprocessed.len() == n,
    decreases n,
{
    if n > 0 {
        lemma_batch_get_count(tv, keys, (n - 1) as nat);
    }
}

/// Carries out batches on a table.
pub struct BatchExecutor;

impl BatchExecutor {
    /// An executor.
    pub fn new() -> (r: Self) {
        BatchExecutor
    }

    /// Puts the items into the table, one after the other. An item whose key
    /// attributes do not fit `schema`, or whose put fails, is handed back as
    /// unprocessed.
    pub fn execute_put(&self, items: Vec<Item>, schema: &KeySchema, table: &mut Table) -> (r:
        TableResult<BatchWriteResult>)
        ensures
            final(table).name == old(table).name,
            r matches Ok(res) && ({
                let b = batch_put(old(table)@, schema@, items_view(items@), items@.len());
                &&& final(table)@ == b.table
                &&& res.processed_count == b.processed
                &&& writes_view(res.unprocessed_items@) == b.unprocessed
                &&& res.processed_count + res.unprocessed_items@.len() == items@.len()
            }),
    {
        proof {
            lemma_batch_put_bound(table@, schema@, items_view(items@), items@.len() as nat);
        }
        let mut result = BatchWriteResult::new();
        let ghost all = items_view(items@);
        let ghost tv0 = table@;
        let mut i: usize = 0;
        proof {
            assert(writes_view(result.unprocessed_items@) =~= Seq::<BatchItemView>::empty());
        }
        while i < items.len()
            invariant
                i <= items.len(),
                all == items_view(items@),
                tv0 == old(table)@,
                table.name == old(table).name,
                table@ == batch_put(tv0, schema@, all, i as nat).table,
                result.processed_count == batch_put(tv0, schema@, all, i as nat).processed,
                result.processed_count <= i,
                writes_view(result.unprocessed_items@) == batch_put(
                    tv0,
                    schema@,
                    all,
                    i as nat,
                ).unprocessed,
            decreases items.len() - i,
        {
            proof {
                assert(all[i as int] == items@[i as int]@);
            }
            let ok = if items[i].validate_key(schema).is_err() {
                false
            } else {
                table.put_item(items[i].duplicate()).is_ok()
            };
            if ok {
                result.processed_count += 1;
            } else {
                let w = BatchWriteItem::put(items[i].duplicate());
                proof {
                    lemma_writes_view_push(result.unprocessed_items@, w);
                }
                result.unprocessed_items.push(w);
            }
            i += 1;
        }
        Ok(result)
    }

    /// Deletes the items of the keys, one after the other. A key whose delete
    /// fails is handed back as unprocessed.
    pub fn execute_delete(&self, keys: Vec<PrimaryKey>, table: &mut Table) -> (r: TableResult<
        BatchWriteResult,
    >)
        ensures
            final(table).name == old(table).name,
            r matches Ok(res) && ({
                let b = batch_delete(old(table)@, keys_view(keys@), keys@.len());
                &&& final(table)@ == b.table
                &&& res.processed_count == b.processed
                &&& writes_view(res.unprocessed_items@) == b.unprocessed
                &&& res.processed_count + res.unprocessed_items@.len() == keys@.len()
            }),
    {
        proof {
            lemma_batch_delete_bound(table@, keys_view(keys@), keys@.len() as nat);
        }
        let mut result = BatchWriteResult::new();
        let ghost all = keys_view(keys@);
        let ghost tv0 = table@;
        let mut i: usize = 0;
        proof {
            assert(writes_view(result.unprocessed_items@) =~= Seq::<BatchItemView>::empty());
        }
        while i < keys.len()
            invariant
                i <= keys.len(),
                all == keys_view(keys@),
                tv0 == old(table)@,
                table.name == old(table).name,
                table@ == batch_delete(tv0, all, i as nat).table,
                result.processed_count == batch_delete(tv0, all, i as nat).processed,
                result.processed_count <= i,
                writes_view(result.unprocessed_items@) == batch_delete(tv0, all, i as nat).unprocessed,
            decreases keys.len() - i,
        {
            proof {
                assert(all[i as int] == keys@[i as int]@);
            }
            if table.delete_item(&keys[i]).is_ok() {
                result.processed_count += 1;
            } else {
                let w = BatchWriteItem::delete(keys[i].duplicate());
                proof {
                    lemma_writes_view_push(result.unprocessed_items@, w);
                }
                result.unprocessed_items.push(w);
            }
            i += 1;
        }
        Ok(result)
    }

    /// Reads the items of the keys. A key without item is handed back as not
    /// found, a key whose read fails as unprocessed.
    pub fn execute_get(&self, keys: Vec<PrimaryKey>, table: &Table) -> (r: TableResult<
        BatchGetResult,
    >)
        ensures
            r matches Ok(res) && ({
                let b = batch_get(table@, keys_view(keys@), keys@.len());
                &&& items_view(res.items@) == b.items
                &&& keys_view(res.not_found_keys@) == b.not_found
                &&& keys_view(res.unprocessed_keys@) == b.unprocessed
                &&& res.items@.len() + res.not_found_keys@.len() + res.unprocessed_keys@.len() == keys@.len()
            }),
    {
        proof {
            lemma_batch_get_count(table@, keys_view(keys@), keys@.len() as nat);
        }
        let mut result = BatchGetResult::new();
        let ghost all = keys_view(keys@);
        let mut i: usize = 0;
        proof {
            assert(items_view(result.items@) =~= Seq::<ItemView>::empty());
            assert(keys_view(result.not_found_keys@) =~= Seq::<PrimaryKeyView>::empty());
            assert(keys_view(result.unprocessed_keys@) =~= Seq::<PrimaryKeyView>::empty());
        }
        while i < keys.len()
            invariant
                i <= keys.len(),
                all == keys_view(keys@),
                items_view(result.items@) == batch_get(table@, all, i as nat).items,
                keys_view(result.not_found_keys@) == batch_get(table@, all, i as nat).not_found,
                keys_view(result.unprocessed_keys@) == batch_get(table@, all, i as nat).unprocessed,
            decreases keys.len() - i,
        {
            proof {
                assert(all[i as int] == keys@[i as int]@);
            }
            match table.get_item(&keys[i]) {
                Ok(Some(item)) => {
                    proof {
                        assert(items_view(result.items@.push(item)) =~= items_view(
                            result.items@,
                        ).push(item@));
                    }
                    result.items.push(item);
                },
                Ok(None) => {
                    let k = keys[i].duplicate();
                    proof {
                        lemma_keys_view_push(result.not_found_keys@, k);
                    }
                    result.not_found_keys.push(k);
                },
                Err(_) => {
                    let k = keys[i].duplicate();
                    proof {
                        lemma_keys_view_push(result.unprocessed_keys@, k);
                    }
                    result.unprocessed_keys.push(k);
                },
            }
            i += 1;
        }
        Ok(result)
    }
}

impl Default for BatchExecutor {
    fn default() -> (r: Self) {
        BatchExecutor::new()
    }
}

/// The items of the puts among the first `n` writes, in their order.
pub open spec fn put_items_of(writes: Seq<BatchItemView>, n: nat) -> Seq<ItemView>
    decreases n,
{
    if n == 0 || n > writes.len() {
        Seq::empty()
    } else {
        let before = put_items_of(writes, (n - 1) as nat);
        match writes[n - 1] {
            BatchItemView::Put { item } => before.push(item),
            BatchItemView::Delete { .. } => before,
        }
    }
}

/// The keys of the deletes among the first `n` writes, in their order.
pub open spec fn delete_keys_of(writes: Seq<BatchItemView>, n: nat) -> Seq<PrimaryKeyView>
    decreases n,
{
    if n == 0 || n > writes.len() {
        Seq::empty()
    } else {
        let before = delete_keys_of(writes, (n - 1) as nat);
        match writes[n - 1] {
            BatchItemView::Put { .. } => before,
            BatchItemView::Delete { key } => before.push(key),
        }
    }
}

/// The outcome of a batch of writes: the puts are carried out first, then the
/// deletes.
pub open spec fn batch_write(tv: TableView, writes: Seq<BatchItemView>) -> BatchWriteView {
    let puts = put_items_of(writes, writes.len());
    let deletes = delete_keys_of(writes, writes.len());
    let b1 = batch_put(tv, tv.schema, puts, puts.len());
    let b2 = batch_delete(b1.table, deletes, deletes.len());
    BatchWriteView {
        table: b2.table,
        processed: b1.processed + b2.processed,
        unprocessed: b1.unprocessed + b2.unprocessed,
    }
}

/// The puts and the deletes among the first `n` writes are `n` writes.
pub proof fn lemma_writes_split(writes: Seq<BatchItemView>, n: nat)
    requires
        n <= writes.len(),
    ensures
        put_items_of(writes, n).len() + delete_keys_of(writes, n).len() == n,
    decreases n,
{
    if n > 0 {
        lemma_writes_split(writes, (n - 1) as nat);
    }
}

/// Every write of a batch is either processed or handed back.
pub proof fn lemma_batch_write_count(tv: TableView, writes: Seq<BatchItemView>)
    ensures
        batch_write(tv, writes).processed + batch_write(tv, writes).unprocessed.len()
            == writes.len(),
{
    let puts = put_items_of(writes, writes.len());
    let deletes = delete_keys_of(writes, writes.len());
    lemma_writes_split(writes, writes.len());
    lemma_batch_put_bound(tv, tv.schema, puts, puts.len());
    let b1 = batch_put(tv, tv.schema, puts, puts.len());
    lemma_batch_delete_bound(b1.table, deletes, deletes.len());
}

impl Table {
    /// Carries out a batch of writes: the puts first, then the deletes, each on
    /// its own. A write that fails is handed back as unprocessed.
    pub fn batch_write<R: IntoBatchWrite>(&mut self, request: R) -> (r: TableResult<BatchWriteResult>)
        ensures
            final(self).name == old(self).name,
            r matches Ok(res) && ({
                let b = batch_write(old(self)@, request.writes());
                &&& final(self)@ == b.table
                &&& res.processed_count == b.processed
                &&& writes_view(res.unprocessed_items@) == b.unprocessed
                &&& res.processed_count + res.unprocessed_items@.len() == request.writes().len()
            }),
    {
        proof {
            lemma_batch_write_count(self@, request.writes());
        }
        let request = request.into_batch_write();
        let mut puts: Vec<Item> = Vec::new();
        let mut deletes: Vec<PrimaryKey> = Vec::new();
        let ghost writes = request@;
        let mut i: usize = 0;
        proof {
            assert(items_view(puts@) =~= Seq::<ItemView>::empty());
            assert(keys_view(deletes@) =~= Seq::<PrimaryKeyView>::empty());
        }
        while i < request.items.len()
            invariant
                i <= request.items.len(),
                writes == request@,
                items_view(puts@) == put_items_of(writes, i as nat),
                keys_view(deletes@) == delete_keys_of(writes, i as nat),
                puts@.len() + deletes@.len() == i,
            decreases request.items.len() - i,
        {
            proof {
                assert(writes[i as int] == request.items@[i as int]@);
            }
            match &request.items[i] {
                BatchWriteItem::Put { item } => {
                    let copy = item.duplicate();
                    proof {
                        assert(items_view(puts@.push(copy)) =~= items_view(puts@).push(copy@));
                    }
                    puts.push(copy);
                },
                BatchWriteItem::Delete { key } => {
                    let copy = key.duplicate();
                    proof {
                        lemma_keys_view_push(deletes@, copy);
                    }
                    deletes.push(copy);
                },
            }
            i += 1;
        }
        let schema = self.schema.duplicate();
        let executor = BatchExecutor::new();
        proof {
            lemma_batch_put_bound(self@, schema@, items_view(puts@), puts@.len() as nat);
        }
        let mut result = match executor.execute_put(puts, &schema, self) {
            Ok(r) => r,
            Err(e) => {
                return Err(e);
            },
        };
        proof {
            lemma_batch_delete_bound(self@, keys_view(deletes@), deletes@.len() as nat);
        }
        let second = match executor.execute_delete(deletes, self) {
            Ok(r) => r,
            Err(e) => {
                return Err(e);
            },
        };
        result.processed_count += second.processed_count;
        let mut rest = second.unprocessed_items;
        let ghost first = result.unprocessed_items@;
        let ghost more = rest@;
        result.unprocessed_items.append(&mut rest);
        proof {
            assert(writes_view(result.unprocessed_items@) =~= writes_view(first) + writes_view(
                more,
            ));
        }
        Ok(result)
    }

    /// Carries out a batch of reads, each on its own.
    pub fn batch_get<R: IntoBatchGet>(&self, request: R) -> (r: TableResult<BatchGetResult>)
        ensures
            r matches Ok(res) && ({
                let b = batch_get(self@, request.reads(), request.reads().len());
                &&& items_view(res.items@) == b.items
                &&& keys_view(res.not_found_keys@) == b.not_found
                &&& keys_view(res.unprocessed_keys@) == b.unprocessed
                &&& res.items@.len() + res.not_found_keys@.len() + res.unprocessed_keys@.len()
                    == request.reads().len()
            }),
    {
        proof {
            lemma_batch_get_count(self@, request.reads(), request.reads().len());
        }
        let request = request.into_batch_get();
        let executor = BatchExecutor::new();
        executor.execute_get(request.keys, self)
    }

    /// Puts the items, each on its own.
    pub fn put_items(&mut self, items: Vec<Item>) -> (r: TableResult<BatchWriteResult>)
        ensures
            final(self).name == old(self).name,
            r matches Ok(res) && ({
                let b = batch_write(old(self)@, puts_of(items_view(items@)));
                &&& final(self)@ == b.table
                &&& res.processed_count == b.processed
                &&& writes_view(res.unprocessed_items@) == b.unprocessed
                &&& res.processed_count + res.unprocessed_items@.len() == items@.len()
            }),
    {
        proof {
            lemma_batch_write_count(self@, puts_of(items_view(items@)));
        }
        self.batch_write(items)
    }

    /// Deletes the items of the keys, each on its own.
    pub fn delete_items(&mut self, keys: Vec<PrimaryKey>) -> (r: TableResult<BatchWriteResult>)
        ensures
            final(self).name == old(self).name,
            r matches Ok(res) && ({
                let b = batch_write(old(self)@, deletes_of(keys_view(keys@)));
                &&& final(self)@ == b.table
                &&& res.processed_count == b.processed
                &&& writes_view(res.unprocessed_items@) == b.unprocessed
                &&& res.processed_count + res.unprocessed_items@.len() == keys@.len()
            }),
    {
        proof {
            lemma_batch_write_count(self@, deletes_of(keys_view(keys@)));
        }
        let request = BatchWriteRequest::new().delete_many(keys);
        proof {
            assert(Seq::<BatchItemView>::empty() + deletes_of(keys_view(keys@)) =~= deletes_of(
                keys_view(keys@),
            ));
        }
        self.batch_write(request)
    }

    /// Reads the items of the keys, each on its own.
    pub fn get_items(&self, keys: Vec<PrimaryKey>) -> (r: TableResult<BatchGetResult>)
        ensures
            r matches Ok(res) && ({
                let b = batch_get(self@, keys_view(keys@), keys@.len());
                &&& items_view(res.items@) == b.items
                &&& keys_view(res.not_found_keys@) == b.not_found
                &&& keys_view(res.unprocessed_keys@) == b.unprocessed
                &&& res.items@.len() + res.not_found_keys@.len() + res.unprocessed_keys@.len() == keys@.len()
            }),
    {
        proof {
            lemma_batch_get_count(self@, keys_view(keys@), keys@.len() as nat);
        }
        self.batch_get(keys)
    }
}

} // verus!
