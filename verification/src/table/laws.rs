//! What holds of every table: the items that it stores decode to what was
//! put, under the storage key of the key that they hold.

use crate::condition::expression::ConditionView;
use crate::error::TableErrorView;
use crate::sorted::{
    inserted, lemma_entry_of_inserted, lemma_entry_of_removed, lemma_inserted_sorted,
    lemma_lookup_inserted, lemma_removed_sorted, lookup, removed, sorted,
};
use crate::storage::memory::Stored;
use crate::table::engine::{
    after_delete, after_put, decoded, encoded_item, item_at, put_plan, update_plan, TableView,
};
use crate::text::text_bytes;
use crate::types::attributes::AttrView;
use crate::types::encoding::lemma_decode_encode;
use crate::types::item::{extracted_key, validated, ItemView};
use crate::types::key::{storage_key_text, KeySchemaView, PrimaryKeyView};
use crate::update::expression::ActionView;
use vstd::prelude::*;

verus! {

/// The entry decodes to an item that holds, under the schema, the key whose
/// storage key the entry is stored under.
pub open spec fn entry_coherent(e: (Seq<char>, Seq<u8>), schema: KeySchemaView) -> bool {
    match decoded(e.1) {
        Ok(item) => match extracted_key(item, schema) {
            Some(pk) => storage_key_text(pk) == e.0,
            None => false,
        },
        Err(_) => false,
    }
}

/// The storage keys ascend strictly, and every entry decodes to an item that
/// holds the key it is stored under.
pub open spec fn coherent(stored: Stored, schema: KeySchemaView) -> bool {
    sorted::<String, Seq<u8>>(stored) && forall|i: int|
        0 <= i < stored.len() ==> entry_coherent(#[trigger] stored[i], schema)
}

/// The bytes that an item is stored as decode to the item.
pub proof fn lemma_encoded_decodes(item: ItemView)
    requires
        encoded_item(item) is Ok,
    ensures
        decoded(encoded_item(item)->Ok_0) == Ok::<_, TableErrorView>(item),
{
    lemma_decode_encode(AttrView::M(item));
}

/// Key extraction agrees with key validation and with the table: an item that
/// a put accepts passes the key check, holds a key, and is stored under the
/// storage key of that key as the bytes of its encoding.
pub proof fn lemma_put_uses_extracted_key(
    tv: TableView,
    item: ItemView,
    cond: Option<ConditionView>,
    if_not_exists: bool,
)
    requires
        put_plan(tv, item, cond, if_not_exists) is Ok,
    ensures
        validated(item, tv.schema) is Ok,
        extracted_key(item, tv.schema) == Some(put_plan(tv, item, cond, if_not_exists)->Ok_0.key),
        encoded_item(item) == Ok::<_, TableErrorView>(
            put_plan(tv, item, cond, if_not_exists)->Ok_0.bytes,
        ),
        lookup::<String, Seq<u8>>(
            after_put(
                tv,
                put_plan(tv, item, cond, if_not_exists)->Ok_0.key,
                put_plan(tv, item, cond, if_not_exists)->Ok_0.bytes,
                item,
            ).stored,
            text_bytes(storage_key_text(extracted_key(item, tv.schema)->0)),
        ) == Some(put_plan(tv, item, cond, if_not_exists)->Ok_0.bytes),
{
    let plan = put_plan(tv, item, cond, if_not_exists)->Ok_0;
    lemma_lookup_inserted::<String, Seq<u8>>(tv.stored, storage_key_text(plan.key), plan.bytes);
}

/// What was put is what is read: after a put the item of the key is the item
/// that was put.
pub proof fn lemma_put_then_get(tv: TableView, key: PrimaryKeyView, bytes: Seq<u8>, item: ItemView)
    requires
        decoded(bytes) == Ok::<_, TableErrorView>(item),
    ensures
        item_at(after_put(tv, key, bytes, item).stored, storage_key_text(key)) == Ok::<
            _,
            TableErrorView,
        >(Some(item)),
{
    lemma_lookup_inserted::<String, Seq<u8>>(tv.stored, storage_key_text(key), bytes);
}

/// Storing an item under the storage key of the key that it holds keeps the
/// table coherent.
pub proof fn lemma_store_keeps_coherent(
    stored: Stored,
    schema: KeySchemaView,
    key: PrimaryKeyView,
    bytes: Seq<u8>,
    item: ItemView,
)
    requires
        coherent(stored, schema),
        decoded(bytes) == Ok::<_, TableErrorView>(item),
        extracted_key(item, schema) == Some(key),
    ensures
        coherent(inserted::<String, Seq<u8>>(stored, storage_key_text(key), bytes), schema),
{
    let t = inserted::<String, Seq<u8>>(stored, storage_key_text(key), bytes);
    lemma_inserted_sorted::<String, Seq<u8>>(stored, storage_key_text(key), bytes);
    assert forall|i: int| 0 <= i < t.len() implies entry_coherent(#[trigger] t[i], schema) by {
        lemma_entry_of_inserted::<String, Seq<u8>>(stored, storage_key_text(key), bytes, i);
    }
}

/// Removing an entry keeps the table coherent.
pub proof fn lemma_remove_keeps_coherent(stored: Stored, schema: KeySchemaView, key: Seq<u8>)
    requires
        coherent(stored, schema),
    ensures
        coherent(removed::<String, Seq<u8>>(stored, key), schema),
{
    let t = removed::<String, Seq<u8>>(stored, key);
    lemma_removed_sorted::<String, Seq<u8>>(stored, key);
    assert forall|i: int| 0 <= i < t.len() implies entry_coherent(#[trigger] t[i], schema) by {
        lemma_entry_of_removed::<String, Seq<u8>>(stored, key, i);
    }
}

/// A put keeps the table coherent.
pub proof fn lemma_put_keeps_coherent(
    tv: TableView,
    item: ItemView,
    cond: Option<ConditionView>,
    if_not_exists: bool,
)
    requires
        coherent(tv.stored, tv.schema),
        put_plan(tv, item, cond, if_not_exists) is Ok,
    ensures
        coherent(
            after_put(
                tv,
                put_plan(tv, item, cond, if_not_exists)->Ok_0.key,
                put_plan(tv, item, cond, if_not_exists)->Ok_0.bytes,
                item,
            ).stored,
            tv.schema,
        ),
{
    let plan = put_plan(tv, item, cond, if_not_exists)->Ok_0;
    lemma_encoded_decodes(item);
    lemma_store_keeps_coherent(tv.stored, tv.schema, plan.key, plan.bytes, item);
}

/// An update keeps the table coherent.
pub proof fn lemma_update_keeps_coherent(
    tv: TableView,
    key: PrimaryKeyView,
    actions: Seq<ActionView>,
    cond: Option<ConditionView>,
)
    requires
        coherent(tv.stored, tv.schema),
        update_plan(tv, key, actions, cond) is Ok,
    ensures
        coherent(
            after_put(
                tv,
                key,
                update_plan(tv, key, actions, cond)->Ok_0.bytes,
                update_plan(tv, key, actions, cond)->Ok_0.new,
            ).stored,
            tv.schema,
        ),
{
    let plan = update_plan(tv, key, actions, cond)->Ok_0;
    lemma_encoded_decodes(plan.new);
    lemma_store_keeps_coherent(tv.stored, tv.schema, key, plan.bytes, plan.new);
}

/// A delete keeps the table coherent.
pub proof fn lemma_delete_keeps_coherent(tv: TableView, key: PrimaryKeyView, existed: bool)
    requires
        coherent(tv.stored, tv.schema),
    ensures
        coherent(after_delete(tv, key, existed).stored, tv.schema),
{
    lemma_remove_keeps_coherent(tv.stored, tv.schema, text_bytes(storage_key_text(key)));
}

/// In a coherent table every read succeeds.
pub proof fn lemma_coherent_reads(stored: Stored, schema: KeySchemaView, key: Seq<char>)
    requires
        coherent(stored, schema),
    ensures
        item_at(stored, key) is Ok,
{
    if lookup::<String, Seq<u8>>(stored, text_bytes(key)) is Some {
        crate::sorted::lemma_lookup_entry::<String, Seq<u8>>(stored, text_bytes(key));
        let p = crate::sorted::position::<String, Seq<u8>>(stored, text_bytes(key));
        assert(entry_coherent(stored[p], schema));
    }
}

/// A put leaves the items of other keys alone: what is stored under another
/// storage key is what was stored there before.
pub proof fn lemma_put_keeps_others(
    tv: TableView,
    key: PrimaryKeyView,
    bytes: Seq<u8>,
    item: ItemView,
    other: Seq<char>,
)
    requires
        sorted::<String, Seq<u8>>(tv.stored),
        other != storage_key_text(key),
    ensures
        item_at(after_put(tv, key, bytes, item).stored, other) == item_at(tv.stored, other),
{
    if text_bytes(other) == text_bytes(storage_key_text(key)) {
        crate::text::lemma_text_bytes_injective(other, storage_key_text(key));
    }
    crate::sorted::lemma_lookup_inserted_other::<String, Seq<u8>>(
        tv.stored,
        storage_key_text(key),
        bytes,
        text_bytes(other),
    );
}

/// A delete removes the item of its key and leaves the items of other keys
/// alone.
pub proof fn lemma_delete_keeps_others(tv: TableView, key: PrimaryKeyView, existed: bool, other: Seq<char>)
    requires
        sorted::<String, Seq<u8>>(tv.stored),
    ensures
        item_at(after_delete(tv, key, existed).stored, storage_key_text(key)) == Ok::<
            Option<ItemView>,
            TableErrorView,
        >(None),
        other != storage_key_text(key) ==> item_at(after_delete(tv, key, existed).stored, other)
            == item_at(tv.stored, other),
{
    if text_bytes(other) == text_bytes(storage_key_text(key)) {
        crate::text::lemma_text_bytes_injective(other, storage_key_text(key));
    }
    crate::sorted::lemma_lookup_removed::<String, Seq<u8>>(
        tv.stored,
        text_bytes(storage_key_text(key)),
        text_bytes(other),
    );
}

} // verus!
