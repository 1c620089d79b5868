//! What holds of an index that follows a table: it holds exactly the items of
//! the table that hold the index key, each under its index storage key.

use crate::error::TableErrorView;
use crate::index::projection::projected;
use crate::index::secondary::{index_storage_key, IndexEntry};
use crate::index::storage::data_without;
use crate::index::unique::{clean_key, lemma_index_storage_key_unique};
use crate::sorted::{
    inserted, lemma_entry_of_inserted, lemma_entry_of_removed, lemma_inserted_sorted,
    lemma_lookup_entry, lemma_lookup_inserted, lemma_lookup_inserted_other, lemma_lookup_removed,
    lemma_removed_sorted, lemma_sorted_position, lookup, position, present, removed, sorted,
};
use crate::storage::memory::Stored;
use crate::table::engine::{
    after_delete, after_put, decoded, state_delete, state_put, IndexState, IndexStates, TableView,
};
use crate::table::laws::{coherent, entry_coherent};
use crate::text::{lemma_text_bytes_injective, text_bytes};
use crate::types::item::{extracted_key, ItemView};
use crate::types::key::{storage_key_text, KeySchemaView, KeyType, PrimaryKeyView};
use vstd::prelude::*;

verus! {

/// The entry that an index holds for an item under its table key: none where
/// the item does not hold the index key.
pub open spec fn expected_entry(st: IndexState, pk: PrimaryKeyView, item: ItemView) -> Option<
    (Seq<char>, IndexEntry),
> {
    match extracted_key(item, st.schema) {
        Some(ik) => Some(
            (
                index_storage_key(ik, pk),
                (pk, projected(item, st.projection, st.table_schema, st.schema)),
            ),
        ),
        None => None,
    }
}

/// The item of a table entry is in the index as it should be: under its index
/// storage key where it holds the index key, and not at all where it does
/// not.
pub open spec fn entry_indexed(st: IndexState, e: (Seq<char>, Seq<u8>)) -> bool {
    match decoded(e.1) {
        Ok(item) => match extracted_key(item, st.table_schema) {
            Some(pk) => match expected_entry(st, pk, item) {
                Some(x) => lookup::<String, Seq<char>>(st.index.reverse, text_bytes(e.0)) == Some(
                    x.0,
                ) && lookup::<String, IndexEntry>(st.index.data, text_bytes(x.0)) == Some(x.1),
                None => lookup::<String, Seq<char>>(st.index.reverse, text_bytes(e.0)).is_none(),
            },
            None => false,
        },
        Err(_) => false,
    }
}

/// The index holds exactly what it should of a table: every item of the table
/// is in it as it should be, it knows table keys of the table only, and every
/// entry of it is the entry of its own table key.
pub open spec fn reflects(st: IndexState, stored: Stored) -> bool {
    &&& sorted::<String, IndexEntry>(st.index.data)
    &&& sorted::<String, Seq<char>>(st.index.reverse)
    &&& forall|i: int| 0 <= i < stored.len() ==> entry_indexed(st, #[trigger] stored[i])
    &&& forall|j: int|
        0 <= j < st.index.reverse.len() ==> present::<String, Seq<u8>>(
            stored,
            text_bytes((#[trigger] st.index.reverse[j]).0),
        )
    &&& forall|j: int|
        0 <= j < st.index.data.len() ==> lookup::<String, Seq<char>>(
            st.index.reverse,
            text_bytes(storage_key_text((#[trigger] st.index.data[j]).1.0)),
        ) == Some(st.index.data[j].0)
}

/// No other table key has an entry under the index storage key that the item
/// will be stored under.
pub open spec fn no_collision(st: IndexState, pk: PrimaryKeyView, item: ItemView) -> bool {
    match expected_entry(st, pk, item) {
        Some(x) => forall|j: int|
            0 <= j < st.index.reverse.len() && (#[trigger] st.index.reverse[j]).1 == x.0
                ==> st.index.reverse[j].0 == storage_key_text(pk),
        None => true,
    }
}

/// Under one index key, table keys with different storage keys have different
/// index storage keys: the table key breaks the tie.
pub proof fn lemma_table_key_breaks_tie(ik: PrimaryKeyView, a: PrimaryKeyView, b: PrimaryKeyView)
    requires
        index_storage_key(ik, a) == index_storage_key(ik, b),
    ensures
        storage_key_text(a) == storage_key_text(b),
{
    let front = storage_key_text(ik) + seq!['|'];
    assert(index_storage_key(ik, a).skip(front.len() as int) =~= storage_key_text(a));
    assert(index_storage_key(ik, b).skip(front.len() as int) =~= storage_key_text(b));
}

/// An empty index holds what it should of an empty table.
pub proof fn lemma_empty_index_reflects(st: IndexState)
    requires
        st.index.data.len() == 0,
        st.index.reverse.len() == 0,
    ensures
        reflects(st, Seq::empty()),
{
}

/// Two table entries whose table keys have the same index storage key are one
/// entry.
pub proof fn lemma_one_owner(st: IndexState, stored: Stored, a: int, b: int, x: Seq<char>)
    requires
        coherent(stored, st.table_schema),
        reflects(st, stored),
        0 <= a < stored.len(),
        0 <= b < stored.len(),
        lookup::<String, Seq<char>>(st.index.reverse, text_bytes(stored[a].0)) == Some(x),
        lookup::<String, Seq<char>>(st.index.reverse, text_bytes(stored[b].0)) == Some(x),
    ensures
        a == b,
{
    assert(entry_indexed(st, stored[a]));
    assert(entry_indexed(st, stored[b]));
    assert(entry_coherent(stored[a], st.table_schema));
    assert(entry_coherent(stored[b], st.table_schema));
    let ia = decoded(stored[a].1)->Ok_0;
    let ib = decoded(stored[b].1)->Ok_0;
    let pa = extracted_key(ia, st.table_schema)->0;
    let pb = extracted_key(ib, st.table_schema)->0;
    let xa = expected_entry(st, pa, ia)->0;
    let xb = expected_entry(st, pb, ib)->0;
    assert(xa.0 == x && xb.0 == x);
    assert(xa.1 == xb.1);
    assert(pa == pb);
    assert(stored[a].0 == stored[b].0);
    if a != b {
        let lo = if a < b {
            a
        } else {
            b
        };
        let hi = if a < b {
            b
        } else {
            a
        };
        assert(crate::bytes::lex_lt(text_bytes(stored[lo].0), text_bytes(stored[hi].0)));
        crate::bytes::lemma_lex_irreflexive(text_bytes(stored[lo].0));
    }
}

/// The reverse map after a put: a table key other than the one put points
/// where it pointed.
pub proof fn lemma_reverse_other(st: IndexState, pk: PrimaryKeyView, item: ItemView, other: Seq<char>)
    requires
        sorted::<String, Seq<char>>(st.index.reverse),
        text_bytes(other) != text_bytes(storage_key_text(pk)),
    ensures
        lookup::<String, Seq<char>>(state_put(st, pk, item).index.reverse, text_bytes(other))
            == lookup::<String, Seq<char>>(st.index.reverse, text_bytes(other)),
        lookup::<String, Seq<char>>(state_delete(st, pk).index.reverse, text_bytes(other))
            == lookup::<String, Seq<char>>(st.index.reverse, text_bytes(other)),
{
    let tk = storage_key_text(pk);
    let r1 = removed::<String, Seq<char>>(st.index.reverse, text_bytes(tk));
    lemma_lookup_removed::<String, Seq<char>>(st.index.reverse, text_bytes(tk), text_bytes(other));
    lemma_removed_sorted::<String, Seq<char>>(st.index.reverse, text_bytes(tk));
    match expected_entry(st, pk, item) {
        Some(x) => {
            lemma_lookup_inserted_other::<String, Seq<char>>(r1, tk, x.0, text_bytes(other));
        },
        None => {},
    }
}

/// The data after a put: an index storage key other than the old and the new
/// one of the table key holds what it held.
pub proof fn lemma_data_other(st: IndexState, pk: PrimaryKeyView, item: ItemView, other: Seq<char>)
    requires
        sorted::<String, IndexEntry>(st.index.data),
        match lookup::<String, Seq<char>>(
            st.index.reverse,
            text_bytes(storage_key_text(pk)),
        ) {
            Some(old_key) => text_bytes(other) != text_bytes(old_key),
            None => true,
        },
        match expected_entry(st, pk, item) {
            Some(x) => text_bytes(other) != text_bytes(x.0),
            None => true,
        },
    ensures
        lookup::<String, IndexEntry>(state_put(st, pk, item).index.data, text_bytes(other))
            == lookup::<String, IndexEntry>(st.index.data, text_bytes(other)),
{
    let tk = storage_key_text(pk);
    let d1 = data_without(st.index.data, st.index.reverse, tk);
    match lookup::<String, Seq<char>>(st.index.reverse, text_bytes(tk)) {
        Some(old_key) => {
            lemma_lookup_removed::<String, IndexEntry>(
                st.index.data,
                text_bytes(old_key),
                text_bytes(other),
            );
            lemma_removed_sorted::<String, IndexEntry>(st.index.data, text_bytes(old_key));
        },
        None => {},
    }
    match expected_entry(st, pk, item) {
        Some(x) => {
            lemma_lookup_inserted_other::<String, IndexEntry>(d1, x.0, x.1, text_bytes(other));
        },
        None => {},
    }
}

/// The data after a delete: an index storage key other than the one of the
/// table key holds what it held.
pub proof fn lemma_data_other_deleted(st: IndexState, pk: PrimaryKeyView, other: Seq<char>)
    requires
        sorted::<String, IndexEntry>(st.index.data),
        match lookup::<String, Seq<char>>(
            st.index.reverse,
            text_bytes(storage_key_text(pk)),
        ) {
            Some(old_key) => text_bytes(other) != text_bytes(old_key),
            None => true,
        },
    ensures
        lookup::<String, IndexEntry>(state_delete(st, pk).index.data, text_bytes(other))
            == lookup::<String, IndexEntry>(st.index.data, text_bytes(other)),
{
    let tk = storage_key_text(pk);
    match lookup::<String, Seq<char>>(st.index.reverse, text_bytes(tk)) {
        Some(old_key) => {
            lemma_lookup_removed::<String, IndexEntry>(
                st.index.data,
                text_bytes(old_key),
                text_bytes(other),
            );
        },
        None => {},
    }
}

/// Both maps of an index stay sorted through a put and through a delete.
pub proof fn lemma_index_stays_sorted(st: IndexState, pk: PrimaryKeyView, item: ItemView)
    requires
        sorted::<String, IndexEntry>(st.index.data),
        sorted::<String, Seq<char>>(st.index.reverse),
    ensures
        sorted::<String, IndexEntry>(state_put(st, pk, item).index.data),
        sorted::<String, Seq<char>>(state_put(st, pk, item).index.reverse),
        sorted::<String, IndexEntry>(state_delete(st, pk).index.data),
        sorted::<String, Seq<char>>(state_delete(st, pk).index.reverse),
{
    let tk = storage_key_text(pk);
    let r1 = removed::<String, Seq<char>>(st.index.reverse, text_bytes(tk));
    let d1 = data_without(st.index.data, st.index.reverse, tk);
    lemma_removed_sorted::<String, Seq<char>>(st.index.reverse, text_bytes(tk));
    match lookup::<String, Seq<char>>(st.index.reverse, text_bytes(tk)) {
        Some(old_key) => {
            lemma_removed_sorted::<String, IndexEntry>(st.index.data, text_bytes(old_key));
        },
        None => {},
    }
    match expected_entry(st, pk, item) {
        Some(x) => {
            lemma_inserted_sorted::<String, Seq<char>>(r1, tk, x.0);
            lemma_inserted_sorted::<String, IndexEntry>(d1, x.0, x.1);
        },
        None => {},
    }
}

/// An item of another table key stays in the index as it should be when an
/// item is put.
pub proof fn lemma_other_entry_stays_indexed(
    st: IndexState,
    stored: Stored,
    pk: PrimaryKeyView,
    item: ItemView,
    i: int,
)
    requires
        coherent(stored, st.table_schema),
        reflects(st, stored),
        no_collision(st, pk, item),
        0 <= i < stored.len(),
        text_bytes(stored[i].0) != text_bytes(storage_key_text(pk)),
    ensures
        entry_indexed(state_put(st, pk, item), stored[i]),
{
    let tk = storage_key_text(pk);
    let e = stored[i];
    assert(entry_indexed(st, e));
    assert(entry_coherent(e, st.table_schema));
    let it = decoded(e.1)->Ok_0;
    let k = extracted_key(it, st.table_schema)->0;
    lemma_reverse_other(st, pk, item, e.0);
    match expected_entry(st, k, it) {
        Some(x) => {
            // the entry's index storage key is not the one that the table key had
            match lookup::<String, Seq<char>>(st.index.reverse, text_bytes(tk)) {
                Some(old_key) => {
                    if text_bytes(x.0) == text_bytes(old_key) {
                        lemma_text_bytes_injective(x.0, old_key);
                        lemma_lookup_entry::<String, Seq<char>>(st.index.reverse, text_bytes(tk));
                        let p = position::<String, Seq<char>>(st.index.reverse, text_bytes(tk));
                        assert(present::<String, Seq<u8>>(
                            stored,
                            text_bytes(st.index.reverse[p].0),
                        ));
                        let a = position::<String, Seq<u8>>(stored, text_bytes(tk));
                        lemma_text_bytes_injective(stored[a].0, tk);
                        lemma_one_owner(st, stored, a, i, x.0);
                    }
                },
                None => {},
            }
            // nor is it the one that the table key gets
            match expected_entry(st, pk, item) {
                Some(y) => {
                    if text_bytes(x.0) == text_bytes(y.0) {
                        lemma_text_bytes_injective(x.0, y.0);
                        lemma_lookup_entry::<String, Seq<char>>(st.index.reverse, text_bytes(e.0));
                        let p = position::<String, Seq<char>>(st.index.reverse, text_bytes(e.0));
                        assert(st.index.reverse[p].1 == y.0);
                        assert(st.index.reverse[p].0 == tk);
                    }
                },
                None => {},
            }
            lemma_data_other(st, pk, item, x.0);
        },
        None => {},
    }
}

/// The index keeps holding exactly what it should when an item is put into
/// the table and into the index, provided no other table key has an entry
/// under the index storage key of the item.
pub proof fn lemma_put_keeps_index(
    st: IndexState,
    stored: Stored,
    pk: PrimaryKeyView,
    bytes: Seq<u8>,
    item: ItemView,
)
    requires
        coherent(stored, st.table_schema),
        reflects(st, stored),
        decoded(bytes) == Ok::<_, TableErrorView>(item),
        extracted_key(item, st.table_schema) == Some(pk),
        no_collision(st, pk, item),
    ensures
        reflects(
            state_put(st, pk, item),
            inserted::<String, Seq<u8>>(stored, storage_key_text(pk), bytes),
        ),
{
    let tk = storage_key_text(pk);
    let after = state_put(st, pk, item);
    let stored2 = inserted::<String, Seq<u8>>(stored, tk, bytes);
    let r1 = removed::<String, Seq<char>>(st.index.reverse, text_bytes(tk));
    let d1 = data_without(st.index.data, st.index.reverse, tk);
    lemma_index_stays_sorted(st, pk, item);
    lemma_removed_sorted::<String, Seq<char>>(st.index.reverse, text_bytes(tk));
    match lookup::<String, Seq<char>>(st.index.reverse, text_bytes(tk)) {
        Some(old_key) => {
            lemma_removed_sorted::<String, IndexEntry>(st.index.data, text_bytes(old_key));
        },
        None => {},
    }
    // every item of the table is in the index as it should be
    assert forall|i: int| 0 <= i < stored2.len() implies entry_indexed(
        after,
        #[trigger] stored2[i],
    ) by {
        lemma_entry_of_inserted::<String, Seq<u8>>(stored, tk, bytes, i);
        if stored2[i] == (tk, bytes) {
            match expected_entry(st, pk, item) {
                Some(x) => {
                    lemma_lookup_inserted::<String, Seq<char>>(r1, tk, x.0);
                    lemma_lookup_inserted::<String, IndexEntry>(d1, x.0, x.1);
                },
                None => {
                    lemma_lookup_removed::<String, Seq<char>>(
                        st.index.reverse,
                        text_bytes(tk),
                        text_bytes(tk),
                    );
                },
            }
        } else {
            let i0 = choose|j0: int|
                0 <= j0 < stored.len() && #[trigger] stored[j0] == stored2[i] && text_bytes(
                    stored[j0].0,
                ) != text_bytes(tk);
            lemma_other_entry_stays_indexed(st, stored, pk, item, i0);
        }
    }
    // the index knows table keys of the table only
    assert forall|j: int| 0 <= j < after.index.reverse.len() implies present::<String, Seq<u8>>(
        stored2,
        text_bytes((#[trigger] after.index.reverse[j]).0),
    ) by {
        lemma_lookup_inserted::<String, Seq<u8>>(stored, tk, bytes);
        let e = after.index.reverse[j];
        if text_bytes(e.0) != text_bytes(tk) {
            lemma_lookup_inserted_other::<String, Seq<u8>>(stored, tk, bytes, text_bytes(e.0));
            // the entry was in the reverse map before
            match expected_entry(st, pk, item) {
                Some(x) => {
                    lemma_entry_of_inserted::<String, Seq<char>>(r1, tk, x.0, j);
                    let j1 = choose|j0: int|
                        0 <= j0 < r1.len() && #[trigger] r1[j0] == e && text_bytes(r1[j0].0)
                            != text_bytes(tk);
                    lemma_entry_of_removed::<String, Seq<char>>(
                        st.index.reverse,
                        text_bytes(tk),
                        j1,
                    );
                },
                None => {
                    lemma_entry_of_removed::<String, Seq<char>>(
                        st.index.reverse,
                        text_bytes(tk),
                        j,
                    );
                },
            }
        }
    }
    // every entry of the index is the entry of its own table key
    assert forall|j: int| 0 <= j < after.index.data.len() implies lookup::<String, Seq<char>>(
        after.index.reverse,
        text_bytes(storage_key_text((#[trigger] after.index.data[j]).1.0)),
    ) == Some(after.index.data[j].0) by {
        lemma_kept_entry_points_back(st, pk, item, j);
    }
}

/// An entry of the index after a put is the entry of its own table key.
pub proof fn lemma_kept_entry_points_back(st: IndexState, pk: PrimaryKeyView, item: ItemView, j: int)
    requires
        sorted::<String, IndexEntry>(st.index.data),
        sorted::<String, Seq<char>>(st.index.reverse),
        forall|j: int|
            0 <= j < st.index.data.len() ==> lookup::<String, Seq<char>>(
                st.index.reverse,
                text_bytes(storage_key_text((#[trigger] st.index.data[j]).1.0)),
            ) == Some(st.index.data[j].0),
        0 <= j < state_put(st, pk, item).index.data.len(),
    ensures
        lookup::<String, Seq<char>>(
            state_put(st, pk, item).index.reverse,
            text_bytes(storage_key_text(state_put(st, pk, item).index.data[j].1.0)),
        ) == Some(state_put(st, pk, item).index.data[j].0),
{
    let tk = storage_key_text(pk);
    let after = state_put(st, pk, item);
    let r1 = removed::<String, Seq<char>>(st.index.reverse, text_bytes(tk));
    let d1 = data_without(st.index.data, st.index.reverse, tk);
    let e = after.index.data[j];
    lemma_removed_sorted::<String, Seq<char>>(st.index.reverse, text_bytes(tk));
    let old = lookup::<String, Seq<char>>(st.index.reverse, text_bytes(tk));
    if old is Some {
        lemma_removed_sorted::<String, IndexEntry>(st.index.data, text_bytes(old->0));
    }
    // the entry is the new one, or it was in the data before under another key
    let is_new = match expected_entry(st, pk, item) {
        Some(x) => e == (x.0, x.1),
        None => false,
    };
    if is_new {
        let x = expected_entry(st, pk, item)->0;
        lemma_lookup_inserted::<String, Seq<char>>(r1, tk, x.0);
    } else {
        // find the entry in the data as it was
        let in_d1: int = match expected_entry(st, pk, item) {
            Some(x) => {
                lemma_entry_of_inserted::<String, IndexEntry>(d1, x.0, x.1, j);
                choose|j0: int|
                    0 <= j0 < d1.len() && #[trigger] d1[j0] == e && text_bytes(d1[j0].0)
                        != text_bytes(x.0)
            },
            None => j,
        };
        assert(d1[in_d1] == e);
        let in_d: int = if old is Some {
            lemma_entry_of_removed::<String, IndexEntry>(
                st.index.data,
                text_bytes(old->0),
                in_d1,
            );
            choose|j0: int|
                0 <= j0 < st.index.data.len() && #[trigger] st.index.data[j0] == e && text_bytes(
                    st.index.data[j0].0,
                ) != text_bytes(old->0)
        } else {
            in_d1
        };
        assert(st.index.data[in_d] == e);
        let owner = storage_key_text(e.1.0);
        assert(lookup::<String, Seq<char>>(st.index.reverse, text_bytes(owner)) == Some(e.0));
        if text_bytes(owner) == text_bytes(tk) {
            // then the entry would have been removed
            assert(old == Some(e.0));
            assert(false);
        }
        lemma_reverse_other(st, pk, item, owner);
    }
}

/// The index keeps holding exactly what it should when the item of a key is
/// deleted from the table and from the index.
pub proof fn lemma_delete_keeps_index(st: IndexState, stored: Stored, pk: PrimaryKeyView)
    requires
        coherent(stored, st.table_schema),
        reflects(st, stored),
    ensures
        reflects(
            state_delete(st, pk),
            removed::<String, Seq<u8>>(stored, text_bytes(storage_key_text(pk))),
        ),
{
    let tk = storage_key_text(pk);
    let after = state_delete(st, pk);
    let stored2 = removed::<String, Seq<u8>>(stored, text_bytes(tk));
    let old = lookup::<String, Seq<char>>(st.index.reverse, text_bytes(tk));
    lemma_index_stays_sorted(st, pk, Seq::empty());
    assert forall|i: int| 0 <= i < stored2.len() implies entry_indexed(
        after,
        #[trigger] stored2[i],
    ) by {
        lemma_entry_of_removed::<String, Seq<u8>>(stored, text_bytes(tk), i);
        let i0 = choose|j0: int|
            0 <= j0 < stored.len() && #[trigger] stored[j0] == stored2[i] && text_bytes(
                stored[j0].0,
            ) != text_bytes(tk);
        let e = stored[i0];
        assert(entry_indexed(st, e));
        assert(entry_coherent(e, st.table_schema));
        let it = decoded(e.1)->Ok_0;
        let k = extracted_key(it, st.table_schema)->0;
        lemma_reverse_other(st, pk, Seq::empty(), e.0);
        match expected_entry(st, k, it) {
            Some(x) => {
                if old is Some && text_bytes(x.0) == text_bytes(old->0) {
                    lemma_text_bytes_injective(x.0, old->0);
                    lemma_lookup_entry::<String, Seq<char>>(st.index.reverse, text_bytes(tk));
                    let p = position::<String, Seq<char>>(st.index.reverse, text_bytes(tk));
                    assert(present::<String, Seq<u8>>(stored, text_bytes(st.index.reverse[p].0)));
                    let a = position::<String, Seq<u8>>(stored, text_bytes(tk));
                    lemma_text_bytes_injective(stored[a].0, tk);
                    lemma_one_owner(st, stored, a, i0, x.0);
                }
                lemma_data_other_deleted(st, pk, x.0);
            },
            None => {},
        }
    }
    assert forall|j: int| 0 <= j < after.index.reverse.len() implies present::<String, Seq<u8>>(
        stored2,
        text_bytes((#[trigger] after.index.reverse[j]).0),
    ) by {
        lemma_entry_of_removed::<String, Seq<char>>(st.index.reverse, text_bytes(tk), j);
        let e = after.index.reverse[j];
        lemma_lookup_removed::<String, Seq<u8>>(stored, text_bytes(tk), text_bytes(e.0));
    }
    assert forall|j: int| 0 <= j < after.index.data.len() implies lookup::<String, Seq<char>>(
        after.index.reverse,
        text_bytes(storage_key_text((#[trigger] after.index.data[j]).1.0)),
    ) == Some(after.index.data[j].0) by {
        let e = after.index.data[j];
        let in_d: int = if old is Some {
            lemma_entry_of_removed::<String, IndexEntry>(st.index.data, text_bytes(old->0), j);
            choose|j0: int|
                0 <= j0 < st.index.data.len() && #[trigger] st.index.data[j0] == e && text_bytes(
                    st.index.data[j0].0,
                ) != text_bytes(old->0)
        } else {
            j
        };
        assert(st.index.data[in_d] == e);
        let owner = storage_key_text(e.1.0);
        assert(lookup::<String, Seq<char>>(st.index.reverse, text_bytes(owner)) == Some(e.0));
        if text_bytes(owner) == text_bytes(tk) {
            assert(old == Some(e.0));
            assert(false);
        }
        lemma_reverse_other(st, pk, Seq::empty(), owner);
    }
}

/// Every item of the table that holds the index key holds a clean one: no
/// number in it is written with a colon or a backslash.
pub open spec fn index_keys_clean(st: IndexState, stored: Stored) -> bool {
    forall|i: int|
        0 <= i < stored.len() ==> match decoded((#[trigger] stored[i]).1) {
            Ok(item) => match extracted_key(item, st.schema) {
                Some(ik) => clean_key(ik),
                None => true,
            },
            Err(_) => true,
        }
}

/// The index key of the item, where it holds one, is clean.
pub open spec fn index_key_clean(st: IndexState, item: ItemView) -> bool {
    match extracted_key(item, st.schema) {
        Some(ik) => clean_key(ik),
        None => true,
    }
}

/// A schema without number keys gives clean keys only.
pub proof fn lemma_keys_without_numbers_clean(item: ItemView, schema: KeySchemaView)
    requires
        schema.partition_key.key_type != KeyType::N,
        match schema.sort_key {
            Some(def) => def.key_type != KeyType::N,
            None => true,
        },
    ensures
        match extracted_key(item, schema) {
            Some(k) => clean_key(k),
            None => true,
        },
{
}

/// Where the index keys are clean, no other table key has an entry under the
/// index storage key of an item: clean keys do not collide.
pub proof fn lemma_clean_keys_do_not_collide(
    st: IndexState,
    stored: Stored,
    pk: PrimaryKeyView,
    item: ItemView,
)
    requires
        coherent(stored, st.table_schema),
        reflects(st, stored),
        index_keys_clean(st, stored),
        index_key_clean(st, item),
    ensures
        no_collision(st, pk, item),
{
    match expected_entry(st, pk, item) {
        Some(x) => {
            let ik = extracted_key(item, st.schema)->0;
            assert forall|j: int|
                0 <= j < st.index.reverse.len() && (#[trigger] st.index.reverse[j]).1
                    == x.0 implies st.index.reverse[j].0 == storage_key_text(pk) by {
                let e = st.index.reverse[j];
                // the table key of the entry is in the table
                assert(present::<String, Seq<u8>>(stored, text_bytes(e.0)));
                let a = position::<String, Seq<u8>>(stored, text_bytes(e.0));
                lemma_text_bytes_injective(stored[a].0, e.0);
                assert(entry_indexed(st, stored[a]));
                assert(entry_coherent(stored[a], st.table_schema));
                lemma_sorted_position::<String, Seq<char>>(st.index.reverse, j);
                let it = decoded(stored[a].1)->Ok_0;
                let k = extracted_key(it, st.table_schema)->0;
                let y = expected_entry(st, k, it)->0;
                let ik2 = extracted_key(it, st.schema)->0;
                assert(y.0 == e.1);
                lemma_index_storage_key_unique(ik, pk, ik2, k);
            }
        },
        None => {},
    }
}

/// The index keeps holding exactly what it should, and its keys stay clean,
/// when an item with a clean index key is put into the table and into the
/// index.
pub proof fn lemma_put_keeps_clean_index(
    st: IndexState,
    stored: Stored,
    pk: PrimaryKeyView,
    bytes: Seq<u8>,
    item: ItemView,
)
    requires
        coherent(stored, st.table_schema),
        reflects(st, stored),
        index_keys_clean(st, stored),
        index_key_clean(st, item),
        decoded(bytes) == Ok::<_, TableErrorView>(item),
        extracted_key(item, st.table_schema) == Some(pk),
    ensures
        reflects(
            state_put(st, pk, item),
            inserted::<String, Seq<u8>>(stored, storage_key_text(pk), bytes),
        ),
        index_keys_clean(
            state_put(st, pk, item),
            inserted::<String, Seq<u8>>(stored, storage_key_text(pk), bytes),
        ),
{
    lemma_clean_keys_do_not_collide(st, stored, pk, item);
    lemma_put_keeps_index(st, stored, pk, bytes, item);
    let tk = storage_key_text(pk);
    let stored2 = inserted::<String, Seq<u8>>(stored, tk, bytes);
    assert forall|i: int| 0 <= i < stored2.len() implies match decoded((#[trigger] stored2[i]).1) {
        Ok(it) => match extracted_key(it, st.schema) {
            Some(ik) => clean_key(ik),
            None => true,
        },
        Err(_) => true,
    } by {
        lemma_entry_of_inserted::<String, Seq<u8>>(stored, tk, bytes, i);
        if stored2[i] != (tk, bytes) {
            let i0 = choose|j0: int|
                0 <= j0 < stored.len() && #[trigger] stored[j0] == stored2[i] && text_bytes(
                    stored[j0].0,
                ) != text_bytes(tk);
            assert(stored[i0] == stored2[i]);
        }
    }
}

/// The keys of an index stay clean when an item is deleted.
pub proof fn lemma_delete_keeps_keys_clean(st: IndexState, stored: Stored, pk: PrimaryKeyView)
    requires
        sorted::<String, Seq<u8>>(stored),
        index_keys_clean(st, stored),
    ensures
        index_keys_clean(
            state_delete(st, pk),
            removed::<String, Seq<u8>>(stored, text_bytes(storage_key_text(pk))),
        ),
{
    let tk = storage_key_text(pk);
    let stored2 = removed::<String, Seq<u8>>(stored, text_bytes(tk));
    assert forall|i: int| 0 <= i < stored2.len() implies match decoded((#[trigger] stored2[i]).1) {
        Ok(it) => match extracted_key(it, st.schema) {
            Some(ik) => clean_key(ik),
            None => true,
        },
        Err(_) => true,
    } by {
        lemma_entry_of_removed::<String, Seq<u8>>(stored, text_bytes(tk), i);
        let i0 = choose|j0: int|
            0 <= j0 < stored.len() && #[trigger] stored[j0] == stored2[i] && text_bytes(
                stored[j0].0,
            ) != text_bytes(tk);
        assert(stored[i0] == stored2[i]);
    }
}

/// Every index of the sequence was built for the table schema and holds
/// exactly what it should of the table.
pub open spec fn all_reflect(states: IndexStates, schema: KeySchemaView, stored: Stored) -> bool {
    forall|i: int|
        0 <= i < states.len() ==> (#[trigger] states[i]).1.table_schema == schema && reflects(
            states[i].1,
            stored,
        )
}

/// No index of the sequence has an entry of another table key under the
/// index storage key of the item.
pub open spec fn none_collides(states: IndexStates, pk: PrimaryKeyView, item: ItemView) -> bool {
    forall|i: int| 0 <= i < states.len() ==> no_collision((#[trigger] states[i]).1, pk, item)
}

/// The global and the local indexes of a table hold exactly what they should
/// of it.
pub open spec fn indexes_reflect(tv: TableView) -> bool {
    all_reflect(tv.gsis, tv.schema, tv.stored) && all_reflect(tv.lsis, tv.schema, tv.stored)
}

/// The indexes of a table keep holding exactly what they should when an item
/// is put, provided that in no index another table key has an entry under the
/// index storage key of the item.
pub proof fn lemma_table_put_keeps_indexes(
    tv: TableView,
    pk: PrimaryKeyView,
    bytes: Seq<u8>,
    item: ItemView,
)
    requires
        coherent(tv.stored, tv.schema),
        indexes_reflect(tv),
        decoded(bytes) == Ok::<_, TableErrorView>(item),
        extracted_key(item, tv.schema) == Some(pk),
        none_collides(tv.gsis, pk, item),
        none_collides(tv.lsis, pk, item),
    ensures
        indexes_reflect(after_put(tv, pk, bytes, item)),
{
    let after = after_put(tv, pk, bytes, item);
    assert forall|i: int| 0 <= i < after.gsis.len() implies (#[trigger] after.gsis[i]).1.table_schema
        == after.schema && reflects(after.gsis[i].1, after.stored) by {
        assert(no_collision(tv.gsis[i].1, pk, item));
        lemma_put_keeps_index(tv.gsis[i].1, tv.stored, pk, bytes, item);
    }
    assert forall|i: int| 0 <= i < after.lsis.len() implies (#[trigger] after.lsis[i]).1.table_schema
        == after.schema && reflects(after.lsis[i].1, after.stored) by {
        assert(no_collision(tv.lsis[i].1, pk, item));
        lemma_put_keeps_index(tv.lsis[i].1, tv.stored, pk, bytes, item);
    }
}

/// In every index of the sequence, the items of the table and the item given
/// hold clean index keys.
pub open spec fn all_clean(states: IndexStates, stored: Stored, item: ItemView) -> bool {
    forall|i: int|
        0 <= i < states.len() ==> index_keys_clean((#[trigger] states[i]).1, stored)
            && index_key_clean(states[i].1, item)
}

/// The indexes of a table keep holding exactly what they should when an item
/// is put, provided the index keys of the item and of the items in the table
/// are clean.
pub proof fn lemma_table_put_keeps_clean_indexes(
    tv: TableView,
    pk: PrimaryKeyView,
    bytes: Seq<u8>,
    item: ItemView,
)
    requires
        coherent(tv.stored, tv.schema),
        indexes_reflect(tv),
        decoded(bytes) == Ok::<_, TableErrorView>(item),
        extracted_key(item, tv.schema) == Some(pk),
        all_clean(tv.gsis, tv.stored, item),
        all_clean(tv.lsis, tv.stored, item),
    ensures
        indexes_reflect(after_put(tv, pk, bytes, item)),
{
    assert forall|i: int| 0 <= i < tv.gsis.len() implies no_collision(
        (#[trigger] tv.gsis[i]).1,
        pk,
        item,
    ) by {
        lemma_clean_keys_do_not_collide(tv.gsis[i].1, tv.stored, pk, item);
    }
    assert forall|i: int| 0 <= i < tv.lsis.len() implies no_collision(
        (#[trigger] tv.lsis[i]).1,
        pk,
        item,
    ) by {
        lemma_clean_keys_do_not_collide(tv.lsis[i].1, tv.stored, pk, item);
    }
    lemma_table_put_keeps_indexes(tv, pk, bytes, item);
}

/// The indexes of a table keep holding exactly what they should when the item
/// of a key is deleted.
pub proof fn lemma_table_delete_keeps_indexes(tv: TableView, pk: PrimaryKeyView)
    requires
        coherent(tv.stored, tv.schema),
        indexes_reflect(tv),
    ensures
        indexes_reflect(
            after_delete(
                tv,
                pk,
                present::<String, Seq<u8>>(tv.stored, text_bytes(storage_key_text(pk))),
            ),
        ),
{
    let existed = present::<String, Seq<u8>>(tv.stored, text_bytes(storage_key_text(pk)));
    let after = after_delete(tv, pk, existed);
    if existed {
        assert forall|i: int| 0 <= i < after.gsis.len() implies (
        #[trigger] after.gsis[i]).1.table_schema == after.schema && reflects(
            after.gsis[i].1,
            after.stored,
        ) by {
            assert(reflects(tv.gsis[i].1, tv.stored));
            lemma_delete_keeps_index(tv.gsis[i].1, tv.stored, pk);
        }
        assert forall|i: int| 0 <= i < after.lsis.len() implies (
        #[trigger] after.lsis[i]).1.table_schema == after.schema && reflects(
            after.lsis[i].1,
            after.stored,
        ) by {
            assert(reflects(tv.lsis[i].1, tv.stored));
            lemma_delete_keeps_index(tv.lsis[i].1, tv.stored, pk);
        }
    } else {
        assert(after.stored == tv.stored);
    }
}

} // verus!
