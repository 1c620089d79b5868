//! What a write transaction keeps: a sound table stays sound, and only the
//! items of the keys that the transaction names are touched.

use crate::error::TableErrorView;
use crate::sorted::{
    lemma_lookup_inserted_other, lemma_lookup_removed, lemma_set_inserted, lookup, present,
    set_entries, set_has, set_sorted,
};
use crate::table::engine::{after_delete, after_put, decoded, item_at, TableView};
use crate::table::laws::lemma_encoded_decodes;
use crate::table::sound::{
    fits, lemma_fits_same_shape, lemma_remove_keeps_sound, lemma_store_keeps_sound, same_shape,
    sound,
};
use crate::text::text_bytes;
use crate::transaction::executor::{
    after_plan, after_plans, checked_operation, planned, target_key, PlannedView,
};
use crate::transaction::types::TransactItemView;
use crate::types::item::extracted_key;
use crate::types::key::storage_key_text;
use vstd::prelude::*;

verus! {

/// Every item that the plans store holds clean index keys.
pub open spec fn plans_fit(tv: TableView, plans: Seq<PlannedView>) -> bool {
    forall|i: int|
        0 <= i < plans.len() ==> match #[trigger] plans[i] {
            PlannedView::Store { item, .. } => fits(tv, item),
            _ => true,
        }
}

/// What is stored under every storage key outside `seen` is what was stored
/// before.
pub open spec fn untouched(before: TableView, after: TableView, seen: Seq<Seq<char>>) -> bool {
    forall|t: Seq<u8>|
        !(#[trigger] set_has::<String>(seen, t)) ==> lookup::<String, Seq<u8>>(after.stored, t)
            == lookup::<String, Seq<u8>>(before.stored, t)
}

/// The table after some planned writes depends on those writes only.
pub proof fn lemma_after_plans_prefix(tv: TableView, a: Seq<PlannedView>, b: Seq<PlannedView>, k: nat)
    requires
        k <= a.len(),
        k <= b.len(),
        forall|i: int| 0 <= i < k ==> a[i] == b[i],
    ensures
        after_plans(tv, a, k) == after_plans(tv, b, k),
    decreases k,
{
    if k > 0 {
        lemma_after_plans_prefix(tv, a, b, (k - 1) as nat);
    }
}

/// The writes of a transaction whose checks have passed keep a sound table
/// sound, one after the other, and touch only the keys that the transaction
/// names.
pub proof fn lemma_plans_keep_sound(tv: TableView, items: Seq<TransactItemView>, n: nat)
    requires
        sound(tv),
        n <= items.len(),
        planned(tv.stored, tv.schema, items, n) is Ok,
        plans_fit(tv, planned(tv.stored, tv.schema, items, n)->Ok_0.plans),
    ensures
        ({
            let p = planned(tv.stored, tv.schema, items, n)->Ok_0;
            let after = after_plans(tv, p.plans, n);
            &&& p.plans.len() == n
            &&& set_sorted::<String>(p.seen)
            &&& sound(after)
            &&& untouched(tv, after, p.seen)
            &&& same_shape(tv, after)
        }),
    decreases n,
{
    let p = planned(tv.stored, tv.schema, items, n)->Ok_0;
    if n == 0 {
        assert(set_entries::<String>(p.seen) =~= Seq::<(Seq<char>, ())>::empty());
    } else {
        let m = (n - 1) as nat;
        let q = planned(tv.stored, tv.schema, items, m)->Ok_0;
        let index = m as usize;
        let key = target_key(items[n - 1], tv.schema, index)->Ok_0;
        let text = storage_key_text(key);
        let plan = checked_operation(tv.stored, tv.schema, items[n - 1], key, index)->Ok_0;
        assert(p.plans == q.plans.push(plan));
        assert forall|i: int| 0 <= i < q.plans.len() implies match #[trigger] q.plans[i] {
            PlannedView::Store { item, .. } => fits(tv, item),
            _ => true,
        } by {
            assert(q.plans[i] == p.plans[i]);
        }
        lemma_plans_keep_sound(tv, items, m);
        let before = after_plans(tv, q.plans, m);
        lemma_after_plans_prefix(tv, p.plans, q.plans, m);
        let after = after_plans(tv, p.plans, n);
        assert(p.plans[n - 1] == plan);
        assert(after == after_plan(before, plan));
        // the transaction has not touched the key so far
        assert(!set_has::<String>(q.seen, text_bytes(text)));
        assert(lookup::<String, Seq<u8>>(before.stored, text_bytes(text)) == lookup::<
            String,
            Seq<u8>,
        >(tv.stored, text_bytes(text)));
        assert(item_at(tv.stored, text) is Ok);
        let current = item_at(tv.stored, text)->Ok_0;
        match plan {
            PlannedView::Store { key: k, bytes, item } => {
                assert(k == key);
                assert(plans_fit(tv, p.plans));
                assert(fits(tv, item));
                lemma_fits_same_shape(tv, before, item);
                lemma_encoded_decodes(item);
                assert(decoded(bytes) == Ok::<_, TableErrorView>(item));
                assert(extracted_key(item, tv.schema) == Some(key));
                lemma_store_keeps_sound(before, key, bytes, item);
                assert(after == after_put(before, key, bytes, item));
                assert forall|t: Seq<u8>| !(#[trigger] set_has::<String>(p.seen, t)) implies lookup::<
                    String,
                    Seq<u8>,
                >(after.stored, t) == lookup::<String, Seq<u8>>(tv.stored, t) by {
                    lemma_set_inserted::<String>(q.seen, text, t);
                    lemma_lookup_inserted_other::<String, Seq<u8>>(before.stored, text, bytes, t);
                }
            },
            PlannedView::Remove { key: k, existed } => {
                assert(k == key);
                assert(existed == current.is_some());
                assert(existed == present::<String, Seq<u8>>(before.stored, text_bytes(text)));
                lemma_remove_keeps_sound(before, key);
                assert(after == after_delete(before, key, existed));
                assert forall|t: Seq<u8>| !(#[trigger] set_has::<String>(p.seen, t)) implies lookup::<
                    String,
                    Seq<u8>,
                >(after.stored, t) == lookup::<String, Seq<u8>>(tv.stored, t) by {
                    lemma_set_inserted::<String>(q.seen, text, t);
                    lemma_lookup_removed::<String, Seq<u8>>(before.stored, text_bytes(text), t);
                }
            },
            PlannedView::Nothing => {
                assert forall|t: Seq<u8>| !(#[trigger] set_has::<String>(p.seen, t)) implies lookup::<
                    String,
                    Seq<u8>,
                >(after.stored, t) == lookup::<String, Seq<u8>>(tv.stored, t) by {
                    lemma_set_inserted::<String>(q.seen, text, t);
                }
            },
        }
        lemma_set_inserted::<String>(q.seen, text, text_bytes(text));
    }
}

/// A write transaction keeps a sound table sound: where its checks pass, the
/// table after its writes is sound and holds under every key that the
/// transaction does not name what it held before; where they do not, nothing
/// is written.
pub proof fn lemma_transaction_keeps_sound(tv: TableView, items: Seq<TransactItemView>)
    requires
        sound(tv),
        planned(tv.stored, tv.schema, items, items.len()) is Ok,
        plans_fit(tv, planned(tv.stored, tv.schema, items, items.len())->Ok_0.plans),
    ensures
        ({
            let p = planned(tv.stored, tv.schema, items, items.len())->Ok_0;
            let after = after_plans(tv, p.plans, p.plans.len());
            sound(after) && untouched(tv, after, p.seen)
        }),
{
    lemma_plans_keep_sound(tv, items, items.len());
}

} // verus!
