//! The invariant of a table and the operations that keep it: what is stored
//! decodes to items under their own keys, and every index holds exactly the
//! items that hold its key.

use crate::condition::expression::ConditionView;
use crate::error::TableErrorView;
use crate::index::laws::{
    all_clean, all_reflect, index_key_clean, index_keys_clean, indexes_reflect,
    lemma_delete_keeps_keys_clean, lemma_put_keeps_clean_index,
    lemma_table_delete_keeps_indexes, lemma_table_put_keeps_clean_indexes,
};
use crate::sorted::{
    inserted, lemma_inserted_at_end, lemma_position_bounds, position, present, removed,
};
use crate::index::laws::reflects;
use crate::table::engine::{
    after_delete, after_put, decoded, delete_plan, fill_items, filled, put_plan, scan_from,
    update_plan, IndexState, IndexStates, TableView,
};
use crate::bytes::lex_lt;
use crate::index::unique::clean_key;
use crate::table::engine::{states_cleared, states_delete, states_put};
use crate::table::laws::{entry_coherent, lemma_store_keeps_coherent};
use crate::table::laws::{coherent, lemma_delete_keeps_coherent, lemma_encoded_decodes};
use crate::text::text_bytes;
use crate::types::item::{extracted_key, ItemView};
use crate::types::key::{storage_key_text, KeySchemaView, PrimaryKeyView};
use crate::update::expression::ActionView;
use vstd::prelude::*;

verus! {

/// In every index of the sequence, the items of the table hold clean index
/// keys.
pub open spec fn stored_clean(states: IndexStates, stored: Seq<(Seq<char>, Seq<u8>)>) -> bool {
    forall|i: int| 0 <= i < states.len() ==> index_keys_clean((#[trigger] states[i]).1, stored)
}

/// The index keys that the item holds are clean: no number among them is
/// written with a colon or a backslash.
pub open spec fn fits(tv: TableView, item: ItemView) -> bool {
    &&& forall|i: int| 0 <= i < tv.gsis.len() ==> index_key_clean((#[trigger] tv.gsis[i]).1, item)
    &&& forall|i: int| 0 <= i < tv.lsis.len() ==> index_key_clean((#[trigger] tv.lsis[i]).1, item)
}

/// Two sequences of indexes have the same indexes over the same keys.
pub open spec fn same_indexes(a: IndexStates, b: IndexStates) -> bool {
    a.len() == b.len() && forall|i: int|
        0 <= i < a.len() ==> (#[trigger] a[i]).1.schema == b[i].1.schema
}

/// Two tables have the same key schema and the same indexes over the same
/// keys.
pub open spec fn same_shape(a: TableView, b: TableView) -> bool {
    a.schema == b.schema && same_indexes(a.gsis, b.gsis) && same_indexes(a.lsis, b.lsis)
}

/// An item whose index keys fit a table fits every table of the same shape.
pub proof fn lemma_fits_same_shape(a: TableView, b: TableView, item: ItemView)
    requires
        same_shape(a, b),
        fits(a, item),
    ensures
        fits(b, item),
{
    assert forall|i: int| 0 <= i < b.gsis.len() implies index_key_clean(
        (#[trigger] b.gsis[i]).1,
        item,
    ) by {
        assert(a.gsis[i].1.schema == b.gsis[i].1.schema);
        assert(index_key_clean(a.gsis[i].1, item));
    }
    assert forall|i: int| 0 <= i < b.lsis.len() implies index_key_clean(
        (#[trigger] b.lsis[i]).1,
        item,
    ) by {
        assert(a.lsis[i].1.schema == b.lsis[i].1.schema);
        assert(index_key_clean(a.lsis[i].1, item));
    }
}

/// The table is sound: every entry decodes to an item that holds the key it
/// is stored under, every index holds exactly the items that hold its key,
/// and the index keys are clean.
pub open spec fn sound(tv: TableView) -> bool {
    &&& coherent(tv.stored, tv.schema)
    &&& indexes_reflect(tv)
    &&& stored_clean(tv.gsis, tv.stored)
    &&& stored_clean(tv.lsis, tv.stored)
}

/// The indexes of a sequence keep clean keys through a put of an item with
/// clean index keys.
proof fn lemma_put_keeps_stored_clean(
    states: IndexStates,
    tv: TableView,
    pk: PrimaryKeyView,
    bytes: Seq<u8>,
    item: ItemView,
)
    requires
        coherent(tv.stored, tv.schema),
        all_reflect(states, tv.schema, tv.stored),
        all_clean(states, tv.stored, item),
        decoded(bytes) == Ok::<_, TableErrorView>(item),
        extracted_key(item, tv.schema) == Some(pk),
    ensures
        stored_clean(
            states_put(states, pk, item),
            inserted::<String, Seq<u8>>(tv.stored, storage_key_text(pk), bytes),
        ),
{
    let after = states_put(states, pk, item);
    let stored2 = inserted::<String, Seq<u8>>(tv.stored, storage_key_text(pk), bytes);
    assert forall|i: int| 0 <= i < after.len() implies index_keys_clean(
        (#[trigger] after[i]).1,
        stored2,
    ) by {
        assert(index_keys_clean(states[i].1, tv.stored));
        lemma_put_keeps_clean_index(states[i].1, tv.stored, pk, bytes, item);
    }
}

/// The indexes of a sequence keep clean keys through a delete.
proof fn lemma_delete_keeps_stored_clean(
    states: IndexStates,
    tv: TableView,
    pk: PrimaryKeyView,
    existed: bool,
)
    requires
        coherent(tv.stored, tv.schema),
        stored_clean(states, tv.stored),
    ensures
        stored_clean(
            if existed {
                states_delete(states, pk)
            } else {
                states
            },
            removed::<String, Seq<u8>>(tv.stored, text_bytes(storage_key_text(pk))),
        ),
{
    let after = if existed {
        states_delete(states, pk)
    } else {
        states
    };
    let stored2 = removed::<String, Seq<u8>>(tv.stored, text_bytes(storage_key_text(pk)));
    assert forall|i: int| 0 <= i < after.len() implies index_keys_clean(
        (#[trigger] after[i]).1,
        stored2,
    ) by {
        assert(index_keys_clean(states[i].1, tv.stored));
        lemma_delete_keeps_keys_clean(states[i].1, tv.stored, pk);
    }
}

/// Storing an item under the key that it holds keeps a table sound, where
/// the index keys of the item are clean.
pub proof fn lemma_store_keeps_sound(
    tv: TableView,
    pk: PrimaryKeyView,
    bytes: Seq<u8>,
    item: ItemView,
)
    requires
        sound(tv),
        fits(tv, item),
        decoded(bytes) == Ok::<_, TableErrorView>(item),
        extracted_key(item, tv.schema) == Some(pk),
    ensures
        sound(after_put(tv, pk, bytes, item)),
{
    lemma_store_keeps_coherent(tv.stored, tv.schema, pk, bytes, item);
    lemma_table_put_keeps_clean_indexes(tv, pk, bytes, item);
    lemma_put_keeps_stored_clean(tv.gsis, tv, pk, bytes, item);
    lemma_put_keeps_stored_clean(tv.lsis, tv, pk, bytes, item);
}

/// Removing the item of a key, the indexes following where there was one,
/// keeps a table sound.
pub proof fn lemma_remove_keeps_sound(tv: TableView, pk: PrimaryKeyView)
    requires
        sound(tv),
    ensures
        sound(
            after_delete(
                tv,
                pk,
                present::<String, Seq<u8>>(tv.stored, text_bytes(storage_key_text(pk))),
            ),
        ),
{
    let existed = present::<String, Seq<u8>>(tv.stored, text_bytes(storage_key_text(pk)));
    lemma_delete_keeps_coherent(tv, pk, existed);
    lemma_table_delete_keeps_indexes(tv, pk);
    lemma_delete_keeps_stored_clean(tv.gsis, tv, pk, existed);
    lemma_delete_keeps_stored_clean(tv.lsis, tv, pk, existed);
}

/// A table without items and with empty indexes is sound.
pub proof fn lemma_empty_table_sound(tv: TableView)
    requires
        tv.stored.len() == 0,
        forall|i: int|
            0 <= i < tv.gsis.len() ==> (#[trigger] tv.gsis[i]).1.table_schema == tv.schema
                && tv.gsis[i].1.index.data.len() == 0 && tv.gsis[i].1.index.reverse.len() == 0,
        forall|i: int|
            0 <= i < tv.lsis.len() ==> (#[trigger] tv.lsis[i]).1.table_schema == tv.schema
                && tv.lsis[i].1.index.data.len() == 0 && tv.lsis[i].1.index.reverse.len() == 0,
    ensures
        sound(tv),
{
}

/// A put that succeeds keeps a table sound, where the index keys of the item
/// are clean.
pub proof fn lemma_put_keeps_sound(
    tv: TableView,
    item: ItemView,
    cond: Option<ConditionView>,
    if_not_exists: bool,
)
    requires
        sound(tv),
        fits(tv, item),
        put_plan(tv, item, cond, if_not_exists) is Ok,
    ensures
        sound(
            after_put(
                tv,
                put_plan(tv, item, cond, if_not_exists)->Ok_0.key,
                put_plan(tv, item, cond, if_not_exists)->Ok_0.bytes,
                item,
            ),
        ),
{
    let plan = put_plan(tv, item, cond, if_not_exists)->Ok_0;
    lemma_encoded_decodes(item);
    lemma_store_keeps_sound(tv, plan.key, plan.bytes, item);
}

/// An update that succeeds keeps a table sound, where the index keys of the
/// new item are clean.
pub proof fn lemma_update_keeps_sound(
    tv: TableView,
    key: PrimaryKeyView,
    actions: Seq<ActionView>,
    cond: Option<ConditionView>,
)
    requires
        sound(tv),
        update_plan(tv, key, actions, cond) is Ok,
        fits(tv, update_plan(tv, key, actions, cond)->Ok_0.new),
    ensures
        sound(
            after_put(
                tv,
                key,
                update_plan(tv, key, actions, cond)->Ok_0.bytes,
                update_plan(tv, key, actions, cond)->Ok_0.new,
            ),
        ),
{
    let plan = update_plan(tv, key, actions, cond)->Ok_0;
    lemma_encoded_decodes(plan.new);
    lemma_store_keeps_sound(tv, key, plan.bytes, plan.new);
}

/// A delete that succeeds keeps a table sound.
pub proof fn lemma_delete_keeps_sound(tv: TableView, key: PrimaryKeyView, cond: Option<ConditionView>)
    requires
        sound(tv),
        delete_plan(tv, key, cond) is Ok,
    ensures
        sound(after_delete(tv, key, delete_plan(tv, key, cond)->Ok_0.is_some())),
{
    assert(delete_plan(tv, key, cond)->Ok_0.is_some() == present::<String, Seq<u8>>(
        tv.stored,
        text_bytes(storage_key_text(key)),
    ));
    lemma_remove_keeps_sound(tv, key);
}

/// The items of the entries of a table, in the order of the entries.
pub open spec fn items_of(stored: Seq<(Seq<char>, Seq<u8>)>) -> Seq<ItemView> {
    Seq::new(stored.len(), |i: int| decoded(stored[i].1)->Ok_0)
}

/// A scan without filter and limit of a coherent table hands out the items
/// of the entries from `i` on.
pub proof fn lemma_scan_from(
    stored: Seq<(Seq<char>, Seq<u8>)>,
    schema: KeySchemaView,
    i: nat,
    acc: Seq<ItemView>,
)
    requires
        coherent(stored, schema),
        i <= stored.len(),
    ensures
        scan_from(stored, None, None, i, acc) == Ok::<_, TableErrorView>(
            acc + items_of(stored).skip(i as int),
        ),
    decreases stored.len() - i,
{
    let all = items_of(stored);
    if i >= stored.len() {
        assert(acc + all.skip(i as int) =~= acc);
    } else {
        assert(entry_coherent(stored[i as int], schema));
        let item = decoded(stored[i as int].1)->Ok_0;
        lemma_scan_from(stored, schema, i + 1, acc.push(item));
        assert(all[i as int] == item);
        assert(acc.push(item) + all.skip(i as int + 1) =~= acc + all.skip(i as int));
    }
}

/// A new index is filled with every item of a coherent table.
pub proof fn lemma_fill_items(stored: Seq<(Seq<char>, Seq<u8>)>, schema: KeySchemaView)
    requires
        coherent(stored, schema),
    ensures
        fill_items(stored) == items_of(stored),
{
    lemma_scan_from(stored, schema, 0, Seq::empty());
    assert(Seq::<ItemView>::empty() + items_of(stored).skip(0) =~= items_of(stored));
}

/// The first entries of a coherent table are a coherent table, and the entry
/// behind them has a greater storage key than each of them.
pub proof fn lemma_part_coherent(stored: Seq<(Seq<char>, Seq<u8>)>, schema: KeySchemaView, m: nat)
    requires
        coherent(stored, schema),
        m <= stored.len(),
    ensures
        coherent(stored.take(m as int), schema),
        m < stored.len() ==> forall|i: int|
            0 <= i < m ==> lex_lt(
                text_bytes((#[trigger] stored.take(m as int)[i]).0),
                text_bytes(stored[m as int].0),
            ),
{
    let part = stored.take(m as int);
    assert forall|i: int| 0 <= i < part.len() implies entry_coherent(#[trigger] part[i], schema) by {
        assert(part[i] == stored[i]);
    }
    assert forall|i: int, j: int| 0 <= i < j < part.len() implies lex_lt(
        text_bytes(#[trigger] part[i].0),
        text_bytes(#[trigger] part[j].0),
    ) by {
        assert(part[i] == stored[i] && part[j] == stored[j]);
    }
    if m < stored.len() {
        assert forall|i: int| 0 <= i < m implies lex_lt(
            text_bytes((#[trigger] part[i]).0),
            text_bytes(stored[m as int].0),
        ) by {
            assert(part[i] == stored[i]);
        }
    }
}

/// Where the items of a table hold clean keys for an index, so do the first
/// of them, for any index over the same keys.
pub proof fn lemma_part_clean(
    st: IndexState,
    other: IndexState,
    stored: Seq<(Seq<char>, Seq<u8>)>,
    m: nat,
)
    requires
        index_keys_clean(st, stored),
        other.schema == st.schema,
        m <= stored.len(),
    ensures
        index_keys_clean(other, stored.take(m as int)),
{
    let part = stored.take(m as int);
    assert forall|i: int| 0 <= i < part.len() implies match decoded((#[trigger] part[i]).1) {
        Ok(it) => match extracted_key(it, other.schema) {
            Some(ik) => clean_key(ik),
            None => true,
        },
        Err(_) => true,
    } by {
        assert(part[i] == stored[i]);
    }
}

/// An empty index that was filled with the first `n` items of a coherent
/// table holds exactly those of them that hold its key, where the index keys
/// of the items are clean.
pub proof fn lemma_filled_reflects(st: IndexState, stored: Seq<(Seq<char>, Seq<u8>)>, n: nat)
    requires
        coherent(stored, st.table_schema),
        index_keys_clean(st, stored),
        st.index.data.len() == 0,
        st.index.reverse.len() == 0,
        n <= stored.len(),
    ensures
        reflects(filled(st, items_of(stored), st.table_schema, n), stored.take(n as int)),
        filled(st, items_of(stored), st.table_schema, n).schema == st.schema,
        filled(st, items_of(stored), st.table_schema, n).table_schema == st.table_schema,
    decreases n,
{
    let items = items_of(stored);
    if n > 0 {
        let m = (n - 1) as nat;
        lemma_filled_reflects(st, stored, m);
        let before = filled(st, items, st.table_schema, m);
        let part = stored.take(m as int);
        let e = stored[n - 1];
        assert(entry_coherent(e, st.table_schema));
        let item = items[n - 1];
        assert(item == decoded(e.1)->Ok_0);
        let pk = extracted_key(item, st.table_schema)->0;
        lemma_part_coherent(stored, st.table_schema, m);
        lemma_part_clean(st, before, stored, m);
        assert(index_key_clean(before, item)) by {
            assert(stored[n - 1] == e);
        }
        lemma_put_keeps_clean_index(before, part, pk, e.1, item);
        lemma_inserted_at_end::<String, Seq<u8>>(part, storage_key_text(pk), e.1);
        assert(part.push((storage_key_text(pk), e.1)) =~= stored.take(n as int));
    }
}

/// A new index over a coherent table holds, once filled, exactly the items of
/// the table that hold its key, where the index keys of the items are clean.
pub proof fn lemma_new_index_reflects(st: IndexState, stored: Seq<(Seq<char>, Seq<u8>)>)
    requires
        coherent(stored, st.table_schema),
        index_keys_clean(st, stored),
        st.index.data.len() == 0,
        st.index.reverse.len() == 0,
    ensures
        reflects(
            filled(st, fill_items(stored), st.table_schema, fill_items(stored).len()),
            stored,
        ),
{
    lemma_fill_items(stored, st.table_schema);
    lemma_filled_reflects(st, stored, stored.len());
    assert(stored.take(stored.len() as int) =~= stored);
}

/// The indexes of a table with one more index, or with one index in place of
/// an index of the same name.
pub open spec fn with_index(states: IndexStates, name: Seq<char>, st: IndexState) -> IndexStates {
    inserted::<String, IndexState>(states, name, st)
}

/// A new index as it stands after it was filled from the table.
pub open spec fn filled_from(st: IndexState, stored: Seq<(Seq<char>, Seq<u8>)>) -> IndexState {
    filled(st, fill_items(stored), st.table_schema, fill_items(stored).len())
}

/// Indexes that hold what they should keep doing so when an index that holds
/// what it should joins them.
proof fn lemma_index_joins(
    states: IndexStates,
    name: Seq<char>,
    new: IndexState,
    schema: KeySchemaView,
    stored: Seq<(Seq<char>, Seq<u8>)>,
)
    requires
        all_reflect(states, schema, stored),
        stored_clean(states, stored),
        new.table_schema == schema,
        reflects(new, stored),
        index_keys_clean(new, stored),
    ensures
        all_reflect(with_index(states, name, new), schema, stored),
        stored_clean(with_index(states, name, new), stored),
{
    let after = with_index(states, name, new);
    let p = position::<String, IndexState>(states, text_bytes(name));
    lemma_position_bounds::<String, IndexState>(states, text_bytes(name));
    assert forall|i: int| 0 <= i < after.len() implies (#[trigger] after[i]).1.table_schema
        == schema && reflects(after[i].1, stored) && index_keys_clean(after[i].1, stored) by {
        if present::<String, IndexState>(states, text_bytes(name)) {
            if i != p {
                assert(after[i] == states[i]);
            } else {
                assert(after[i].1 == new);
            }
        } else {
            if i < p {
                assert(after[i] == states[i]);
            } else if i > p {
                assert(after[i] == states[i - 1]);
            } else {
                assert(after[i].1 == new);
            }
        }
    }
}

/// Indexes that hold what they should keep doing so when a new index, filled
/// from the table, joins them.
proof fn lemma_with_index_reflects(
    states: IndexStates,
    name: Seq<char>,
    st: IndexState,
    stored: Seq<(Seq<char>, Seq<u8>)>,
)
    requires
        coherent(stored, st.table_schema),
        all_reflect(states, st.table_schema, stored),
        stored_clean(states, stored),
        index_keys_clean(st, stored),
        st.index.data.len() == 0,
        st.index.reverse.len() == 0,
    ensures
        all_reflect(with_index(states, name, filled_from(st, stored)), st.table_schema, stored),
        stored_clean(with_index(states, name, filled_from(st, stored)), stored),
{
    let new = filled_from(st, stored);
    lemma_new_index_reflects(st, stored);
    lemma_fill_items(stored, st.table_schema);
    lemma_filled_reflects(st, stored, stored.len());
    lemma_part_clean(st, new, stored, stored.len());
    assert(stored.take(stored.len() as int) =~= stored);
    lemma_index_joins(states, name, new, st.table_schema, stored);
}

/// Adding a global index keeps a table sound, where the items of the table
/// hold clean keys for the new index.
pub proof fn lemma_add_gsi_keeps_sound(tv: TableView, name: Seq<char>, st: IndexState)
    requires
        sound(tv),
        st.table_schema == tv.schema,
        st.index.data.len() == 0,
        st.index.reverse.len() == 0,
        index_keys_clean(st, tv.stored),
    ensures
        sound(
            TableView {
                schema: tv.schema,
                stored: tv.stored,
                gsis: with_index(tv.gsis, name, filled_from(st, tv.stored)),
                lsis: tv.lsis,
            },
        ),
{
    lemma_with_index_reflects(tv.gsis, name, st, tv.stored);
}

/// Adding a local index keeps a table sound, where the items of the table
/// hold clean keys for the new index.
pub proof fn lemma_add_lsi_keeps_sound(tv: TableView, name: Seq<char>, st: IndexState)
    requires
        sound(tv),
        st.table_schema == tv.schema,
        st.index.data.len() == 0,
        st.index.reverse.len() == 0,
        index_keys_clean(st, tv.stored),
    ensures
        sound(
            TableView {
                schema: tv.schema,
                stored: tv.stored,
                gsis: tv.gsis,
                lsis: with_index(tv.lsis, name, filled_from(st, tv.stored)),
            },
        ),
{
    lemma_with_index_reflects(tv.lsis, name, st, tv.stored);
}

/// A table that was cleared is sound.
pub proof fn lemma_clear_keeps_sound(tv: TableView)
    requires
        sound(tv),
    ensures
        sound(
            TableView {
                schema: tv.schema,
                stored: Seq::empty(),
                gsis: states_cleared(tv.gsis),
                lsis: states_cleared(tv.lsis),
            },
        ),
{
    let after = TableView {
        schema: tv.schema,
        stored: Seq::empty(),
        gsis: states_cleared(tv.gsis),
        lsis: states_cleared(tv.lsis),
    };
    assert forall|i: int| 0 <= i < after.gsis.len() implies (#[trigger] after.gsis[i]).1.table_schema
        == after.schema && after.gsis[i].1.index.data.len() == 0
        && after.gsis[i].1.index.reverse.len() == 0 by {
        assert(tv.gsis[i].1.table_schema == tv.schema);
    }
    assert forall|i: int| 0 <= i < after.lsis.len() implies (#[trigger] after.lsis[i]).1.table_schema
        == after.schema && after.lsis[i].1.index.data.len() == 0
        && after.lsis[i].1.index.reverse.len() == 0 by {
        assert(tv.lsis[i].1.table_schema == tv.schema);
    }
    lemma_empty_table_sound(after);
}

} // verus!
