//! What a batch of writes keeps: a sound table stays sound, whichever of the
//! writes succeed.

use crate::batch::executor::{batch_delete, batch_put, batch_write, delete_keys_of, put_items_of};
use crate::batch::types::BatchItemView;
use crate::table::engine::{delete_plan, put_plan, TableView};
use crate::table::sound::{
    fits, lemma_delete_keeps_sound, lemma_fits_same_shape, lemma_put_keeps_sound, same_shape,
    sound,
};
use crate::types::item::ItemView;
use crate::types::key::PrimaryKeyView;
use vstd::prelude::*;

verus! {

/// The index keys of every item are clean.
pub open spec fn all_fit(tv: TableView, items: Seq<ItemView>) -> bool {
    forall|i: int| 0 <= i < items.len() ==> fits(tv, #[trigger] items[i])
}

/// A batch of puts keeps a sound table sound, where the index keys of the
/// items are clean.
pub proof fn lemma_batch_put_keeps_sound(tv: TableView, items: Seq<ItemView>, n: nat)
    requires
        sound(tv),
        all_fit(tv, items),
        n <= items.len(),
    ensures
        sound(batch_put(tv, tv.schema, items, n).table),
        same_shape(tv, batch_put(tv, tv.schema, items, n).table),
    decreases n,
{
    if n > 0 {
        lemma_batch_put_keeps_sound(tv, items, (n - 1) as nat);
        let b = batch_put(tv, tv.schema, items, (n - 1) as nat);
        let item = items[n - 1];
        if put_plan(b.table, item, None, false) is Ok {
            lemma_fits_same_shape(tv, b.table, item);
            lemma_put_keeps_sound(b.table, item, None, false);
        }
    }
}

/// A batch of deletes keeps a sound table sound.
pub proof fn lemma_batch_delete_keeps_sound(tv: TableView, keys: Seq<PrimaryKeyView>, n: nat)
    requires
        sound(tv),
        n <= keys.len(),
    ensures
        sound(batch_delete(tv, keys, n).table),
        same_shape(tv, batch_delete(tv, keys, n).table),
    decreases n,
{
    if n > 0 {
        lemma_batch_delete_keeps_sound(tv, keys, (n - 1) as nat);
        let b = batch_delete(tv, keys, (n - 1) as nat);
        if delete_plan(b.table, keys[n - 1], None) is Ok {
            lemma_delete_keeps_sound(b.table, keys[n - 1], None);
        }
    }
}

/// The items that a batch of writes puts are among its writes.
pub proof fn lemma_put_items_of(writes: Seq<BatchItemView>, n: nat, k: int)
    requires
        n <= writes.len(),
        0 <= k < put_items_of(writes, n).len(),
    ensures
        exists|i: int|
            0 <= i < n && #[trigger] writes[i] == (BatchItemView::Put {
                item: put_items_of(writes, n)[k],
            }),
    decreases n,
{
    if n > 0 {
        let before = put_items_of(writes, (n - 1) as nat);
        if k < before.len() {
            lemma_put_items_of(writes, (n - 1) as nat, k);
        } else {
            assert(writes[n - 1] == (BatchItemView::Put { item: put_items_of(writes, n)[k] }));
        }
    }
}

/// A batch of writes keeps a sound table sound, where the index keys of the
/// items that it puts are clean.
pub proof fn lemma_batch_write_keeps_sound(tv: TableView, writes: Seq<BatchItemView>)
    requires
        sound(tv),
        forall|i: int|
            0 <= i < writes.len() ==> match #[trigger] writes[i] {
                BatchItemView::Put { item } => fits(tv, item),
                BatchItemView::Delete { .. } => true,
            },
    ensures
        sound(batch_write(tv, writes).table),
{
    let puts = put_items_of(writes, writes.len());
    let deletes = delete_keys_of(writes, writes.len());
    assert forall|k: int| 0 <= k < puts.len() implies fits(tv, #[trigger] puts[k]) by {
        lemma_put_items_of(writes, writes.len(), k);
    }
    lemma_batch_put_keeps_sound(tv, puts, puts.len());
    let b1 = batch_put(tv, tv.schema, puts, puts.len());
    lemma_batch_delete_keeps_sound(b1.table, deletes, deletes.len());
}

} // verus!
