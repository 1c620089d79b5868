//! The table: items under their primary keys, with secondary indexes that
//! follow every write.

use crate::condition::eval::{evaluate, evaluated};
use crate::condition::expression::{Condition, ConditionView};
use crate::error::{
    decode_error_text, eval_error_text, TableError, TableErrorView, TableResult,
};
use crate::index::gsi::{GlobalSecondaryIndex, GsiBuilder};
use crate::index::lsi::{LocalSecondaryIndex, LsiBuilder};
use crate::index::projection::ProjectionView;
use crate::index::secondary::{index_put, index_query, index_scanned, index_without, IndexView};
use crate::query::condition::{KeyCondition, KeyConditionView};
use crate::query::executor::{
    condition_checked, entries_of_pairs, items_view, query_items, Entry, QueryExecutor,
    QueryOptions, QueryResult,
};
use crate::sorted::{
    inserted, lemma_mapped_inserted, lemma_mapped_lookup, lookup, mapped, present, removed,
    SortedMap,
};
use crate::storage::memory::{MemoryStorage, Stored};
use crate::table::request::{
    condition_view, DeleteRequest, GetRequest, IntoDeleteRequest, IntoGetRequest, IntoPutRequest,
    IntoQueryRequest, PutRequest, ScanRequest, UpdateRequest,
};
use crate::text::{owned, text_bytes, IntoText};
use crate::types::attributes::{lemma_map_view, AttrView, AttributeValue};
use crate::types::encoding::{
    decode, decode_value, encode_map, encode_value, map_is_storable, storable,
};
use crate::types::item::{
    extracted_key, validated, Item, ItemView, KeyErrorView, KeyValidationError,
};
use crate::types::key::{
    storage_key_text, KeySchema, KeySchemaView, PrimaryKey, PrimaryKeyView,
};
use crate::types::outcome::{ReturnValue, WriteResult, WriteResultView};
use crate::update::executor::{executed, UpdateExecutor};
use crate::update::expression::{ActionView, UpdateExpression};
use vstd::prelude::*;

verus! {

/// An index as a table sees it: its keys, its projection and what it holds.
pub ghost struct IndexState {
    /// The key schema that the index follows.
    pub schema: KeySchemaView,
    /// The key schema of the table that the index was built for.
    pub table_schema: KeySchemaView,
    /// What the index keeps of every item.
    pub projection: ProjectionView,
    /// What the index holds.
    pub index: IndexView,
}

/// The indexes of a table under their names, in ascending order.
pub type IndexStates = Seq<(Seq<char>, IndexState)>;

/// A global index as a table sees it.
pub open spec fn gsi_state(g: GlobalSecondaryIndex) -> IndexState {
    IndexState {
        schema: g.schema_view(),
        table_schema: g.inner.table_schema@,
        projection: g.inner.projection@,
        index: g@,
    }
}

/// A local index as a table sees it.
pub open spec fn lsi_state(l: LocalSecondaryIndex) -> IndexState {
    IndexState {
        schema: l.schema_view(),
        table_schema: l.inner.table_schema@,
        projection: l.inner.projection@,
        index: l@,
    }
}

/// How a table sees a global index.
pub open spec fn gsi_state_fn() -> spec_fn(GlobalSecondaryIndex) -> IndexState {
    |g: GlobalSecondaryIndex| gsi_state(g)
}

/// How a table sees a local index.
pub open spec fn lsi_state_fn() -> spec_fn(LocalSecondaryIndex) -> IndexState {
    |l: LocalSecondaryIndex| lsi_state(l)
}

/// The global indexes as a table sees them.
pub open spec fn gsi_states(s: Seq<(Seq<char>, GlobalSecondaryIndex)>) -> IndexStates {
    mapped::<String, GlobalSecondaryIndex, IndexState>(s, gsi_state_fn())
}

/// The local indexes as a table sees them.
pub open spec fn lsi_states(s: Seq<(Seq<char>, LocalSecondaryIndex)>) -> IndexStates {
    mapped::<String, LocalSecondaryIndex, IndexState>(s, lsi_state_fn())
}

/// An index after an item was put.
pub open spec fn state_put(st: IndexState, key: PrimaryKeyView, item: ItemView) -> IndexState {
    IndexState {
        schema: st.schema,
        table_schema: st.table_schema,
        projection: st.projection,
        index: index_put(st.index, st.schema, st.table_schema, st.projection, key, item),
    }
}

/// An index after the item of a key was deleted.
pub open spec fn state_delete(st: IndexState, key: PrimaryKeyView) -> IndexState {
    IndexState {
        schema: st.schema,
        table_schema: st.table_schema,
        projection: st.projection,
        index: index_without(st.index, key),
    }
}

/// An index without entries.
pub open spec fn state_cleared(st: IndexState) -> IndexState {
    IndexState {
        schema: st.schema,
        table_schema: st.table_schema,
        projection: st.projection,
        index: IndexView { data: Seq::empty(), reverse: Seq::empty() },
    }
}

/// Every index after an item was put.
pub open spec fn states_put(s: IndexStates, key: PrimaryKeyView, item: ItemView) -> IndexStates {
    Seq::new(s.len(), |i: int| (s[i].0, state_put(s[i].1, key, item)))
}

/// Every index after the item of a key was deleted.
pub open spec fn states_delete(s: IndexStates, key: PrimaryKeyView) -> IndexStates {
    Seq::new(s.len(), |i: int| (s[i].0, state_delete(s[i].1, key)))
}

/// Every index without entries.
pub open spec fn states_cleared(s: IndexStates) -> IndexStates {
    Seq::new(s.len(), |i: int| (s[i].0, state_cleared(s[i].1)))
}

/// What a table holds.
pub ghost struct TableView {
    /// The key schema of the table.
    pub schema: KeySchemaView,
    /// The encoded items under their storage keys, in ascending order.
    pub stored: Stored,
    /// The global indexes.
    pub gsis: IndexStates,
    /// The local indexes.
    pub lsis: IndexStates,
}

/// The item that bytes decode to: the bytes must hold a map.
pub open spec fn decoded(bytes: Seq<u8>) -> Result<ItemView, TableErrorView> {
    match decode_value(bytes) {
        Err(e) => Err(TableErrorView::Encoding(decode_error_text(e))),
        Ok(AttrView::M(m)) => Ok(m),
        Ok(_) => Err(TableErrorView::Encoding("expected map type"@)),
    }
}

/// The item stored under a storage key, if any.
pub open spec fn item_at(stored: Stored, key: Seq<char>) -> Result<Option<ItemView>, TableErrorView> {
    match lookup::<String, Seq<u8>>(stored, text_bytes(key)) {
        None => Ok(None),
        Some(bytes) => match decoded(bytes) {
            Ok(item) => Ok(Some(item)),
            Err(e) => Err(e),
        },
    }
}

/// The item that a condition is evaluated against: the current item, or the
/// item without attributes where there is none.
pub open spec fn checked_item(current: Option<ItemView>) -> ItemView {
    match current {
        Some(i) => i,
        None => Seq::empty(),
    }
}

/// Whether the condition of a write is met: a condition that does not hold
/// fails the write, one that cannot be evaluated is an error of its own.
pub open spec fn condition_met(cond: Option<ConditionView>, current: Option<ItemView>) -> Result<
    (),
    TableErrorView,
> {
    match cond {
        None => Ok(()),
        Some(c) => match evaluated(c, checked_item(current)) {
            Err(e) => Err(TableErrorView::ConditionError(eval_error_text(e))),
            Ok(false) => Err(TableErrorView::ConditionFailed),
            Ok(true) => Ok(()),
        },
    }
}

/// The bytes that an item is stored as.
pub open spec fn encoded_item(item: ItemView) -> Result<Seq<u8>, TableErrorView> {
    if storable(AttrView::M(item)) {
        Ok(encode_value(AttrView::M(item)))
    } else {
        Err(TableErrorView::Encoding("item cannot be encoded"@))
    }
}

/// What a put will do, once every check has passed.
pub ghost struct PutPlan {
    /// The key of the item.
    pub key: PrimaryKeyView,
    /// The item stored under the key before.
    pub old: Option<ItemView>,
    /// The bytes to store.
    pub bytes: Seq<u8>,
}

/// The checks of a put, in their order: the key attributes, then the current
/// item and the condition (or, for a put that must not replace, the absence of
/// an item), then the encoding.
pub open spec fn put_plan(
    tv: TableView,
    item: ItemView,
    cond: Option<ConditionView>,
    if_not_exists: bool,
) -> Result<PutPlan, TableErrorView> {
    match validated(item, tv.schema) {
        Err(e) => Err(TableErrorView::InvalidKey(e)),
        Ok(_) => match extracted_key(item, tv.schema) {
            None => Err(
                TableErrorView::InvalidKey(
                    KeyErrorView::MissingAttribute { name: tv.schema.partition_key.name },
                ),
            ),
            Some(pk) => {
                let text = storage_key_text(pk);
                if if_not_exists {
                    if present::<String, Seq<u8>>(tv.stored, text_bytes(text)) {
                        Err(TableErrorView::ItemAlreadyExists)
                    } else {
                        match encoded_item(item) {
                            Err(e) => Err(e),
                            Ok(bytes) => Ok(PutPlan { key: pk, old: None, bytes }),
                        }
                    }
                } else {
                    match item_at(tv.stored, text) {
                        Err(e) => Err(e),
                        Ok(old) => match condition_met(cond, old) {
                            Err(e) => Err(e),
                            Ok(_) => match encoded_item(item) {
                                Err(e) => Err(e),
                                Ok(bytes) => Ok(PutPlan { key: pk, old, bytes }),
                            },
                        },
                    }
                }
            },
        },
    }
}

/// The table after an item was stored under a key and every index has
/// followed.
pub open spec fn after_put(tv: TableView, key: PrimaryKeyView, bytes: Seq<u8>, item: ItemView) -> TableView {
    TableView {
        schema: tv.schema,
        stored: inserted::<String, Seq<u8>>(tv.stored, storage_key_text(key), bytes),
        gsis: states_put(tv.gsis, key, item),
        lsis: states_put(tv.lsis, key, item),
    }
}

/// The table after the item of a key was removed; the indexes follow where
/// there was an item.
pub open spec fn after_delete(tv: TableView, key: PrimaryKeyView, existed: bool) -> TableView {
    TableView {
        schema: tv.schema,
        stored: removed::<String, Seq<u8>>(tv.stored, text_bytes(storage_key_text(key))),
        gsis: if existed {
            states_delete(tv.gsis, key)
        } else {
            tv.gsis
        },
        lsis: if existed {
            states_delete(tv.lsis, key)
        } else {
            tv.lsis
        },
    }
}

/// The attributes that a write hands back.
pub open spec fn returned(rv: ReturnValue, old: Option<ItemView>, new: Option<ItemView>) -> Option<
    ItemView,
> {
    match rv {
        ReturnValue::Nothing => None,
        ReturnValue::AllOld => old,
        ReturnValue::AllNew => new,
    }
}

/// The checks of a delete: the current item, then the condition. Gives the
/// current item.
pub open spec fn delete_plan(tv: TableView, key: PrimaryKeyView, cond: Option<ConditionView>) -> Result<
    Option<ItemView>,
    TableErrorView,
> {
    match item_at(tv.stored, storage_key_text(key)) {
        Err(e) => Err(e),
        Ok(old) => match condition_met(cond, old) {
            Err(e) => Err(e),
            Ok(_) => Ok(old),
        },
    }
}

/// What an update will do, once every check has passed.
pub ghost struct UpdatePlan {
    /// The item as it is.
    pub old: ItemView,
    /// The item after the actions.
    pub new: ItemView,
    /// The bytes to store.
    pub bytes: Seq<u8>,
}

/// The error of an update that removes a key attribute.
pub open spec fn key_removed() -> TableErrorView {
    TableErrorView::UpdateError("update removed key attributes"@)
}

/// The error of an update that changes a key attribute.
pub open spec fn key_modified() -> TableErrorView {
    TableErrorView::UpdateError("cannot modify key attributes"@)
}

/// The checks of an update, in their order: the item must exist, the
/// condition must hold, the actions must succeed, the key must come out as it
/// went in, and the new item must be storable.
pub open spec fn update_plan(
    tv: TableView,
    key: PrimaryKeyView,
    actions: Seq<ActionView>,
    cond: Option<ConditionView>,
) -> Result<UpdatePlan, TableErrorView> {
    match item_at(tv.stored, storage_key_text(key)) {
        Err(e) => Err(e),
        Ok(None) => Err(TableErrorView::ItemNotFound),
        Ok(Some(old)) => match condition_met(cond, Some(old)) {
            Err(e) => Err(e),
            Ok(_) => match executed(old, actions, 0) {
                Err(e) => Err(e),
                Ok(new) => match extracted_key(new, tv.schema) {
                    None => Err(key_removed()),
                    Some(nk) => if nk != key {
                        Err(key_modified())
                    } else {
                        match encoded_item(new) {
                            Err(e) => Err(e),
                            Ok(bytes) => Ok(UpdatePlan { old, new, bytes }),
                        }
                    },
                },
            },
        },
    }
}

/// Whether an item passes a filter; a filter that cannot be evaluated lets
/// nothing pass.
pub open spec fn passes(filter: Option<ConditionView>, item: ItemView) -> bool {
    match filter {
        None => true,
        Some(c) => evaluated(c, item) == Ok::<bool, crate::error::EvalErrorView>(true),
    }
}

/// The items of a scan from entry `i` on, added to `acc`: entries are taken in
/// ascending order of their storage keys until the limit is reached; an entry
/// that does not decode ends the scan with an error.
pub open spec fn scan_from(
    stored: Stored,
    filter: Option<ConditionView>,
    limit: Option<usize>,
    i: nat,
    acc: Seq<ItemView>,
) -> Result<Seq<ItemView>, TableErrorView>
    decreases stored.len() - i,
{
    if i >= stored.len() || (limit matches Some(n) && acc.len() >= n) {
        Ok(acc)
    } else {
        match decoded(stored[i as int].1) {
            Err(e) => Err(e),
            Ok(item) => if passes(filter, item) {
                scan_from(stored, filter, limit, i + 1, acc.push(item))
            } else {
                scan_from(stored, filter, limit, i + 1, acc)
            },
        }
    }
}

/// The items of the first `n` entries with their keys, as a query sees them;
/// an item that does not hold the key is left out, an entry that does not
/// decode is an error.
pub open spec fn table_feed(stored: Stored, schema: KeySchemaView, n: nat) -> Result<
    Seq<Entry>,
    TableErrorView,
>
    decreases n,
{
    if n == 0 || n > stored.len() {
        Ok(Seq::empty())
    } else {
        match table_feed(stored, schema, (n - 1) as nat) {
            Err(e) => Err(e),
            Ok(before) => match decoded(stored[n - 1].1) {
                Err(e) => Err(e),
                Ok(item) => match extracted_key(item, schema) {
                    Some(pk) => Ok(before.push((pk, item))),
                    None => Ok(before),
                },
            },
        }
    }
}

/// The items among the first `n` that pass a filter, in their order.
pub open spec fn filtered(items: Seq<ItemView>, filter: Option<ConditionView>, n: nat) -> Seq<
    ItemView,
>
    decreases n,
{
    if n == 0 || n > items.len() {
        Seq::empty()
    } else {
        let before = filtered(items, filter, (n - 1) as nat);
        if passes(filter, items[n - 1]) {
            before.push(items[n - 1])
        } else {
            before
        }
    }
}

/// The number of items that a query on the table looks at: all that hold the
/// key of the table.
pub open spec fn table_scanned(tv: TableView) -> nat {
    match table_feed(tv.stored, tv.schema, tv.stored.len()) {
        Ok(feed) => feed.len(),
        Err(_) => 0,
    }
}

/// What a query on the table hands back: the condition is checked against the
/// schema, the items are selected, ordered and cut to the limit, and then the
/// filter is applied.
pub open spec fn table_query(
    tv: TableView,
    cond: KeyConditionView,
    filter: Option<ConditionView>,
    options: QueryOptions,
) -> Result<Seq<ItemView>, TableErrorView> {
    match condition_checked(tv.schema, cond) {
        Err(e) => Err(e),
        Ok(_) => match table_feed(tv.stored, tv.schema, tv.stored.len()) {
            Err(e) => Err(e),
            Ok(feed) => {
                let found = query_items(feed, cond, options);
                Ok(filtered(found, filter, found.len()))
            },
        },
    }
}

/// What a query on an index hands back, the filter applied last.
pub open spec fn filtered_index_query(
    st: IndexState,
    cond: KeyConditionView,
    filter: Option<ConditionView>,
    options: QueryOptions,
) -> Result<Seq<ItemView>, TableErrorView> {
    match index_query(st.index, st.schema, cond, options) {
        Err(e) => Err(e),
        Ok(found) => Ok(filtered(found, filter, found.len())),
    }
}

/// Decodes an item.
pub fn decode_item(data: &[u8]) -> (r: TableResult<Item>)
    ensures
        match r {
            Ok(item) => decoded(data@) == Ok::<_, TableErrorView>(item@),
            Err(e) => decoded(data@) == Err::<ItemView, _>(e@),
        },
{
    match decode(data) {
        Err(e) => Err(TableError::from_decode_error(e)),
        Ok(AttributeValue::M(m)) => {
            proof {
                lemma_map_view(m);
            }
            Ok(Item::from_map(m))
        },
        Ok(_) => Err(TableError::Encoding(owned("expected map type"))),
    }
}

/// Encodes an item; fails where the item is not well formed or holds a length
/// that the encoding cannot express.
pub fn encode_item(item: &Item) -> (r: TableResult<Vec<u8>>)
    ensures
        match r {
            Ok(bytes) => encoded_item(item@) == Ok::<_, TableErrorView>(bytes@),
            Err(e) => encoded_item(item@) == Err::<Seq<u8>, _>(e@),
        },
{
    if !map_is_storable(&item.attributes) {
        return Err(TableError::Encoding(owned("item cannot be encoded")));
    }
    Ok(encode_map(&item.attributes))
}

/// Checks the condition of a write against the current item.
pub fn check_condition(condition: &Option<Condition>, current: &Option<Item>) -> (r: TableResult<()>)
    ensures
        match r {
            Ok(_) => condition_met(condition_view(*condition), item_view(*current)) is Ok,
            Err(e) => condition_met(condition_view(*condition), item_view(*current)) == Err::<
                (),
                _,
            >(e@),
        },
{
    match condition {
        None => Ok(()),
        Some(c) => {
            let outcome = match current {
                Some(i) => evaluate(c, i),
                None => {
                    let empty = Item::new();
                    evaluate(c, &empty)
                },
            };
            match outcome {
                Err(e) => Err(TableError::from_eval_error(e)),
                Ok(false) => Err(TableError::ConditionFailed),
                Ok(true) => Ok(()),
            }
        },
    }
}

/// The content of an optional item.
pub open spec fn item_view(item: Option<Item>) -> Option<ItemView> {
    match item {
        Some(i) => Some(i@),
        None => None,
    }
}

/// Whether an item passes a filter.
pub fn passes_filter(filter: &Option<Condition>, item: &Item) -> (r: bool)
    ensures
        r == passes(condition_view(*filter), item@),
{
    match filter {
        None => true,
        Some(c) => match evaluate(c, item) {
            Ok(v) => v,
            Err(_) => false,
        },
    }
}

/// The items that pass a filter, in their order.
pub fn filter_items(items: Vec<Item>, filter: &Option<Condition>) -> (r: Vec<Item>)
    ensures
        items_view(r@) == filtered(items_view(items@), condition_view(*filter), items@.len()),
{
    let mut out: Vec<Item> = Vec::new();
    let mut i: usize = 0;
    proof {
        assert(items_view(out@) =~= filtered(items_view(items@), condition_view(*filter), 0));
    }
    while i < items.len()
        invariant
            i <= items.len(),
            items_view(out@) == filtered(items_view(items@), condition_view(*filter), i as nat),
        decreases items.len() - i,
    {
        let ghost before = out@;
        if passes_filter(filter, &items[i]) {
            out.push(items[i].duplicate());
            proof {
                assert(items_view(out@) =~= items_view(before).push(items@[i as int]@));
            }
        }
        i += 1;
    }
    out
}

/// A table.
#[derive(Debug)]
pub struct Table {
    /// The name of the table.
    pub name: String,
    /// The key schema; it stays as it is for the life of the table.
    pub schema: KeySchema,
    /// The encoded items under their storage keys.
    pub storage: MemoryStorage,
    /// The global secondary indexes under their names.
    pub gsis: SortedMap<String, GlobalSecondaryIndex>,
    /// The local secondary indexes under their names.
    pub lsis: SortedMap<String, LocalSecondaryIndex>,
}

impl View for Table {
    type V = TableView;

    open spec fn view(&self) -> TableView {
        TableView {
            schema: self.schema@,
            stored: self.storage.entries(),
            gsis: gsi_states(self.gsis@),
            lsis: lsi_states(self.lsis@),
        }
    }
}

impl Table {
    /// An empty table without indexes.
    pub fn new<T: IntoText>(name: T, schema: KeySchema) -> (r: Self)
        ensures
            r.name@ == name.text(),
            r@ == (TableView {
                schema: schema@,
                stored: Seq::empty(),
                gsis: Seq::empty(),
                lsis: Seq::empty(),
            }),
    {
        let r = Table {
            name: name.into_text(),
            schema,
            storage: MemoryStorage::new(),
            gsis: SortedMap::new(),
            lsis: SortedMap::new(),
        };
        proof {
            assert(r@.gsis =~= Seq::<(Seq<char>, IndexState)>::empty());
            assert(r@.lsis =~= Seq::<(Seq<char>, IndexState)>::empty());
        }
        r
    }

    /// The name of the table.
    pub fn name(&self) -> (r: &str)
        ensures
            r@ == self.name@,
    {
        self.name.as_str()
    }

    /// The key schema of the table.
    pub fn schema(&self) -> (r: &KeySchema)
        ensures
            r@ == self@.schema,
    {
        &self.schema
    }

    /// The number of items.
    pub fn len(&self) -> (r: usize)
        ensures
            r == self@.stored.len(),
    {
        self.storage.entry_count()
    }

    /// Whether the table has no item.
    pub fn is_empty(&self) -> (r: bool)
        ensures
            r == (self@.stored.len() == 0),
    {
        self.storage.entry_count() == 0
    }

    /// Puts an item into every index.
    fn update_indexes_on_put(&mut self, pk: &PrimaryKey, item: &Item)
        ensures
            final(self)@ == (TableView {
                schema: old(self)@.schema,
                stored: old(self)@.stored,
                gsis: states_put(old(self)@.gsis, pk@, item@),
                lsis: states_put(old(self)@.lsis, pk@, item@),
            }),
            final(self).name == old(self).name,
    {
        let ghost g0 = gsi_states(self.gsis@);
        let mut i: usize = 0;
        while i < self.gsis.entries.len()
            invariant
                i <= self.gsis.entries.len(),
                self.name == old(self).name,
                self.schema == old(self).schema,
                self.storage == old(self).storage,
                self.lsis == old(self).lsis,
                g0 == gsi_states(old(self).gsis@),
                gsi_states(self.gsis@).len() == g0.len(),
                forall|j: int|
                    0 <= j < i ==> (#[trigger] gsi_states(self.gsis@)[j]) == (
                        g0[j].0,
                        state_put(g0[j].1, pk@, item@),
                    ),
                forall|j: int| i <= j < g0.len() ==> (#[trigger] gsi_states(self.gsis@)[j]) == g0[j],
            decreases self.gsis.entries.len() - i,
        {
            let ghost before = gsi_states(self.gsis@);
            let (name, mut gsi) = self.gsis.entries.remove(i);
            proof {
                assert(before[i as int] == (name@, gsi_state(gsi)));
            }
            gsi.put(pk.duplicate(), item);
            self.gsis.entries.insert(i, (name, gsi));
            proof {
                let now = gsi_states(self.gsis@);
                assert forall|j: int| 0 <= j < now.len() && j != i implies #[trigger] now[j]
                    == before[j] by {}
            }
            i += 1;
        }
        let ghost l0 = lsi_states(self.lsis@);
        let mut k: usize = 0;
        while k < self.lsis.entries.len()
            invariant
                k <= self.lsis.entries.len(),
                self.name == old(self).name,
                self.schema == old(self).schema,
                self.storage == old(self).storage,
                gsi_states(self.gsis@) =~= states_put(g0, pk@, item@),
                g0 == gsi_states(old(self).gsis@),
                l0 == lsi_states(old(self).lsis@),
                lsi_states(self.lsis@).len() == l0.len(),
                forall|j: int|
                    0 <= j < k ==> (#[trigger] lsi_states(self.lsis@)[j]) == (
                        l0[j].0,
                        state_put(l0[j].1, pk@, item@),
                    ),
                forall|j: int| k <= j < l0.len() ==> (#[trigger] lsi_states(self.lsis@)[j]) == l0[j],
            decreases self.lsis.entries.len() - k,
        {
            let ghost before = lsi_states(self.lsis@);
            let (name, mut lsi) = self.lsis.entries.remove(k);
            proof {
                assert(before[k as int] == (name@, lsi_state(lsi)));
            }
            lsi.put(pk, item);
            self.lsis.entries.insert(k, (name, lsi));
            proof {
                let now = lsi_states(self.lsis@);
                assert forall|j: int| 0 <= j < now.len() && j != k implies #[trigger] now[j]
                    == before[j] by {}
            }
            k += 1;
        }
        proof {
            assert(lsi_states(self.lsis@) =~= states_put(l0, pk@, item@));
        }
    }

    /// Removes the item of a key from every index.
    pub(crate) fn update_indexes_on_delete(&mut self, pk: &PrimaryKey)
        ensures
            final(self)@ == (TableView {
                schema: old(self)@.schema,
                stored: old(self)@.stored,
                gsis: states_delete(old(self)@.gsis, pk@),
                lsis: states_delete(old(self)@.lsis, pk@),
            }),
            final(self).name == old(self).name,
    {
        let ghost g0 = gsi_states(self.gsis@);
        let mut i: usize = 0;
        while i < self.gsis.entries.len()
            invariant
                i <= self.gsis.entries.len(),
                self.name == old(self).name,
                self.schema == old(self).schema,
                self.storage == old(self).storage,
                self.lsis == old(self).lsis,
                g0 == gsi_states(old(self).gsis@),
                gsi_states(self.gsis@).len() == g0.len(),
                forall|j: int|
                    0 <= j < i ==> (#[trigger] gsi_states(self.gsis@)[j]) == (
                        g0[j].0,
                        state_delete(g0[j].1, pk@),
                    ),
                forall|j: int| i <= j < g0.len() ==> (#[trigger] gsi_states(self.gsis@)[j]) == g0[j],
            decreases self.gsis.entries.len() - i,
        {
            let ghost before = gsi_states(self.gsis@);
            let (name, mut gsi) = self.gsis.entries.remove(i);
            proof {
                assert(before[i as int] == (name@, gsi_state(gsi)));
            }
            gsi.delete(pk);
            self.gsis.entries.insert(i, (name, gsi));
            proof {
                let now = gsi_states(self.gsis@);
                assert forall|j: int| 0 <= j < now.len() && j != i implies #[trigger] now[j]
                    == before[j] by {}
            }
            i += 1;
        }
        let ghost l0 = lsi_states(self.lsis@);
        let mut k: usize = 0;
        while k < self.lsis.entries.len()
            invariant
                k <= self.lsis.entries.len(),
                self.name == old(self).name,
                self.schema == old(self).schema,
                self.storage == old(self).storage,
                gsi_states(self.gsis@) =~= states_delete(g0, pk@),
                g0 == gsi_states(old(self).gsis@),
                l0 == lsi_states(old(self).lsis@),
                lsi_states(self.lsis@).len() == l0.len(),
                forall|j: int|
                    0 <= j < k ==> (#[trigger] lsi_states(self.lsis@)[j]) == (
                        l0[j].0,
                        state_delete(l0[j].1, pk@),
                    ),
                forall|j: int| k <= j < l0.len() ==> (#[trigger] lsi_states(self.lsis@)[j]) == l0[j],
            decreases self.lsis.entries.len() - k,
        {
            let ghost before = lsi_states(self.lsis@);
            let (name, mut lsi) = self.lsis.entries.remove(k);
            proof {
                assert(before[k as int] == (name@, lsi_state(lsi)));
            }
            lsi.delete(pk);
            self.lsis.entries.insert(k, (name, lsi));
            proof {
                let now = lsi_states(self.lsis@);
                assert forall|j: int| 0 <= j < now.len() && j != k implies #[trigger] now[j]
                    == before[j] by {}
            }
            k += 1;
        }
        proof {
            assert(lsi_states(self.lsis@) =~= states_delete(l0, pk@));
        }
    }

    /// The item stored under a storage key.
    pub fn get_item_by_storage_key(&self, storage_key: &str) -> (r: TableResult<Option<Item>>)
        ensures
            match r {
                Ok(item) => item_at(self@.stored, storage_key@) == Ok::<_, TableErrorView>(
                    item_view(item),
                ),
                Err(e) => item_at(self@.stored, storage_key@) == Err::<Option<ItemView>, _>(e@),
            },
    {
        match self.storage.read(storage_key) {
            None => Ok(None),
            Some(data) => match decode_item(data.as_slice()) {
                Ok(item) => Ok(Some(item)),
                Err(e) => Err(e),
            },
        }
    }

    /// Stores an item under its key and lets every index follow.
    pub(crate) fn store(&mut self, pk: &PrimaryKey, bytes: Vec<u8>, item: &Item)
        ensures
            final(self)@ == after_put(old(self)@, pk@, bytes@, item@),
            final(self).name == old(self).name,
    {
        let text = pk.to_storage_key();
        self.storage.write(text.as_str(), bytes);
        self.update_indexes_on_put(pk, item);
    }

    /// Puts an item. The key attributes are checked, then the condition
    /// against the item as it is (the item without attributes where there is
    /// none); a request that must not replace fails with `ItemAlreadyExists`
    /// where an item of the key is there. On success the item is stored and
    /// every index follows. On failure the table is as it was.
    pub fn put<R: IntoPutRequest>(&mut self, request: R) -> (r: TableResult<WriteResult>)
        ensures
            final(self).name == old(self).name,
            match r {
                Ok(res) => put_plan(
                    old(self)@,
                    request.put_item(),
                    request.put_condition(),
                    request.put_if_absent(),
                ) matches Ok(plan) && final(self)@ == after_put(
                    old(self)@,
                    plan.key,
                    plan.bytes,
                    request.put_item(),
                ) && res@ == (WriteResultView {
                    attributes: returned(request.put_return(), plan.old, Some(request.put_item())),
                    was_update: plan.old.is_some(),
                }),
                Err(e) => put_plan(
                    old(self)@,
                    request.put_item(),
                    request.put_condition(),
                    request.put_if_absent(),
                ) == Err::<PutPlan, _>(e@) && final(self)@ == old(self)@,
            },
    {
        let request = request.into_put_request();
        if request.if_not_exists {
            return self.put_if_not_exists_internal(request.item, request.return_value);
        }
        self.put_internal(request.item, request.condition, request.return_value)
    }

    /// The item of a key.
    pub fn get<R: IntoGetRequest>(&self, request: R) -> (r: TableResult<Option<Item>>)
        ensures
            match r {
                Ok(item) => item_at(self@.stored, storage_key_text(request.get_key())) == Ok::<
                    _,
                    TableErrorView,
                >(item_view(item)),
                Err(e) => item_at(self@.stored, storage_key_text(request.get_key())) == Err::<
                    Option<ItemView>,
                    _,
                >(e@),
            },
    {
        let request = request.into_get_request();
        let storage_key = request.key.to_storage_key();
        self.get_item_by_storage_key(storage_key.as_str())
    }

    /// Updates the item of a key. The item must exist and meet the condition;
    /// the actions are carried out on a copy, and the update fails where they
    /// fail or where the key attributes do not come out as they went in. On
    /// success the new item is stored and every index follows. On failure the
    /// table is as it was.
    pub fn update(&mut self, request: UpdateRequest) -> (r: TableResult<WriteResult>)
        ensures
            final(self).name == old(self).name,
            match r {
                Ok(res) => update_plan(
                    old(self)@,
                    request.key@,
                    request.expression@,
                    condition_view(request.condition),
                ) matches Ok(plan) && final(self)@ == after_put(
                    old(self)@,
                    request.key@,
                    plan.bytes,
                    plan.new,
                ) && res@ == (WriteResultView {
                    attributes: returned(request.return_value, Some(plan.old), Some(plan.new)),
                    was_update: true,
                }),
                Err(e) => update_plan(
                    old(self)@,
                    request.key@,
                    request.expression@,
                    condition_view(request.condition),
                ) == Err::<UpdatePlan, _>(e@) && final(self)@ == old(self)@,
            },
    {
        self.update_internal(
            &request.key,
            &request.expression,
            &request.condition,
            request.return_value,
        )
    }

    /// Deletes the item of a key, provided the item as it is (the item without
    /// attributes where there is none) meets the condition. The indexes follow
    /// where there was an item. On failure the table is as it was.
    pub fn delete<R: IntoDeleteRequest>(&mut self, request: R) -> (r: TableResult<WriteResult>)
        ensures
            final(self).name == old(self).name,
            match r {
                Ok(res) => delete_plan(
                    old(self)@,
                    request.delete_key(),
                    request.delete_condition(),
                ) matches Ok(prev) && final(self)@ == after_delete(
                    old(self)@,
                    request.delete_key(),
                    prev.is_some(),
                ) && res@ == (WriteResultView {
                    attributes: returned(request.delete_return(), prev, None),
                    was_update: prev.is_some(),
                }),
                Err(e) => delete_plan(
                    old(self)@,
                    request.delete_key(),
                    request.delete_condition(),
                ) == Err::<Option<ItemView>, _>(e@) && final(self)@ == old(self)@,
            },
    {
        let request = request.into_delete_request();
        self.delete_internal(&request.key, &request.condition, request.return_value)
    }

    /// Puts an item that may replace the item of its key: the key attributes
    /// are checked, then the condition against the item as it is, then the
    /// item is encoded, stored, and indexed.
    fn put_internal(
        &mut self,
        item: Item,
        condition: Option<Condition>,
        return_value: ReturnValue,
    ) -> (r: TableResult<WriteResult>)
        ensures
            final(self).name == old(self).name,
            match r {
                Ok(res) => put_plan(old(self)@, item@, condition_view(condition), false) matches Ok(
                    plan,
                ) && final(self)@ == after_put(old(self)@, plan.key, plan.bytes, item@) && res@ == (
                WriteResultView {
                    attributes: returned(return_value, plan.old, Some(item@)),
                    was_update: plan.old.is_some(),
                }),
                Err(e) => put_plan(old(self)@, item@, condition_view(condition), false) == Err::<
                    PutPlan,
                    _,
                >(e@) && final(self)@ == old(self)@,
            },
    {
        match item.validate_key(&self.schema) {
            Err(e) => {
                return Err(TableError::InvalidKey(e));
            },
            Ok(_) => {},
        }
        let pk = match item.extract_key(&self.schema) {
            Some(pk) => pk,
            None => {
                return Err(
                    TableError::InvalidKey(
                        KeyValidationError::MissingAttribute {
                            name: owned(self.schema.pk_name()),
                        },
                    ),
                );
            },
        };
        let storage_key = pk.to_storage_key();
        let old_item = match self.get_item_by_storage_key(storage_key.as_str()) {
            Ok(i) => i,
            Err(e) => {
                return Err(e);
            },
        };
        match check_condition(&condition, &old_item) {
            Err(e) => {
                return Err(e);
            },
            Ok(_) => {},
        }
        let was_update = old_item.is_some();
        let bytes = match encode_item(&item) {
            Ok(b) => b,
            Err(e) => {
                return Err(e);
            },
        };
        self.store(&pk, bytes, &item);
        let attributes = match return_value {
            ReturnValue::Nothing => None,
            ReturnValue::AllOld => old_item,
            ReturnValue::AllNew => Some(item),
        };
        Ok(WriteResult { attributes, was_update })
    }

    /// Puts an item that must not replace another: the key attributes are
    /// checked, then that no item of the key is there, then the item is
    /// encoded, stored, and indexed.
    fn put_if_not_exists_internal(&mut self, item: Item, return_value: ReturnValue) -> (r:
        TableResult<WriteResult>)
        ensures
            final(self).name == old(self).name,
            match r {
                Ok(res) => put_plan(old(self)@, item@, None, true) matches Ok(plan) && final(self)@
                    == after_put(old(self)@, plan.key, plan.bytes, item@) && res@ == (
                WriteResultView {
                    attributes: returned(return_value, None, Some(item@)),
                    was_update: false,
                }),
                Err(e) => put_plan(old(self)@, item@, None, true) == Err::<PutPlan, _>(e@)
                    && final(self)@ == old(self)@,
            },
    {
        match item.validate_key(&self.schema) {
            Err(e) => {
                return Err(TableError::InvalidKey(e));
            },
            Ok(_) => {},
        }
        let pk = match item.extract_key(&self.schema) {
            Some(pk) => pk,
            None => {
                return Err(
                    TableError::InvalidKey(
                        KeyValidationError::MissingAttribute {
                            name: owned(self.schema.pk_name()),
                        },
                    ),
                );
            },
        };
        let storage_key = pk.to_storage_key();
        if self.storage.holds(storage_key.as_str()) {
            return Err(TableError::ItemAlreadyExists);
        }
        let bytes = match encode_item(&item) {
            Ok(b) => b,
            Err(e) => {
                return Err(e);
            },
        };
        self.store(&pk, bytes, &item);
        let attributes = match return_value {
            ReturnValue::AllNew => Some(item),
            _ => None,
        };
        Ok(WriteResult { attributes, was_update: false })
    }

    /// Deletes the item of a key, provided the item as it is meets the
    /// condition; the indexes follow where there was an item.
    fn delete_internal(
        &mut self,
        key: &PrimaryKey,
        condition: &Option<Condition>,
        return_value: ReturnValue,
    ) -> (r: TableResult<WriteResult>)
        ensures
            final(self).name == old(self).name,
            match r {
                Ok(res) => delete_plan(old(self)@, key@, condition_view(*condition)) matches Ok(
                    prev,
                ) && final(self)@ == after_delete(old(self)@, key@, prev.is_some()) && res@ == (
                WriteResultView {
                    attributes: returned(return_value, prev, None),
                    was_update: prev.is_some(),
                }),
                Err(e) => delete_plan(old(self)@, key@, condition_view(*condition)) == Err::<
                    Option<ItemView>,
                    _,
                >(e@) && final(self)@ == old(self)@,
            },
    {
        let storage_key = key.to_storage_key();
        let old_item = match self.get_item_by_storage_key(storage_key.as_str()) {
            Ok(i) => i,
            Err(e) => {
                return Err(e);
            },
        };
        match check_condition(condition, &old_item) {
            Err(e) => {
                return Err(e);
            },
            Ok(_) => {},
        }
        let was_update = old_item.is_some();
        self.storage.erase(storage_key.as_str());
        if was_update {
            self.update_indexes_on_delete(key);
        }
        let attributes = match return_value {
            ReturnValue::Nothing => None,
            ReturnValue::AllOld => old_item,
            ReturnValue::AllNew => None,
        };
        Ok(WriteResult { attributes, was_update })
    }

    /// Updates the item of a key: the item must exist and meet the condition;
    /// the actions are carried out on a copy, the key attributes must come
    /// out as they went in, and the new item is encoded, stored, and indexed.
    fn update_internal(
        &mut self,
        key: &PrimaryKey,
        expression: &UpdateExpression,
        condition: &Option<Condition>,
        return_value: ReturnValue,
    ) -> (r: TableResult<WriteResult>)
        ensures
            final(self).name == old(self).name,
            match r {
                Ok(res) => update_plan(
                    old(self)@,
                    key@,
                    expression@,
                    condition_view(*condition),
                ) matches Ok(plan) && final(self)@ == after_put(
                    old(self)@,
                    key@,
                    plan.bytes,
                    plan.new,
                ) && res@ == (WriteResultView {
                    attributes: returned(return_value, Some(plan.old), Some(plan.new)),
                    was_update: true,
                }),
                Err(e) => update_plan(
                    old(self)@,
                    key@,
                    expression@,
                    condition_view(*condition),
                ) == Err::<UpdatePlan, _>(e@) && final(self)@ == old(self)@,
            },
    {
        let storage_key = key.to_storage_key();
        let old_item = match self.get_item_by_storage_key(storage_key.as_str()) {
            Ok(Some(i)) => i,
            Ok(None) => {
                return Err(TableError::ItemNotFound);
            },
            Err(e) => {
                return Err(e);
            },
        };
        let current = Some(old_item);
        match check_condition(condition, &current) {
            Err(e) => {
                return Err(e);
            },
            Ok(_) => {},
        }
        let old_item = match current {
            Some(i) => i,
            None => Item::new(),
        };
        let executor = UpdateExecutor::new();
        let new_item = match executor.execute(old_item.duplicate(), expression) {
            Ok(i) => i,
            Err(e) => {
                return Err(e);
            },
        };
        let new_key = match new_item.extract_key(&self.schema) {
            Some(k) => k,
            None => {
                return Err(TableError::UpdateError(owned("update removed key attributes")));
            },
        };
        if !new_key.same(key) {
            return Err(TableError::UpdateError(owned("cannot modify key attributes")));
        }
        let bytes = match encode_item(&new_item) {
            Ok(b) => b,
            Err(e) => {
                return Err(e);
            },
        };
        self.store(key, bytes, &new_item);
        let attributes = match return_value {
            ReturnValue::AllNew => Some(new_item),
            ReturnValue::AllOld => Some(old_item),
            ReturnValue::Nothing => None,
        };
        Ok(WriteResult { attributes, was_update: true })
    }
}

/// An index after the first `n` of some items were put, each under the key
/// that it holds; an item that does not hold the table key is left out.
pub open spec fn filled(st: IndexState, items: Seq<ItemView>, schema: KeySchemaView, n: nat) -> IndexState
    decreases n,
{
    if n == 0 || n > items.len() {
        st
    } else {
        let before = filled(st, items, schema, (n - 1) as nat);
        match extracted_key(items[n - 1], schema) {
            Some(pk) => state_put(before, pk, items[n - 1]),
            None => before,
        }
    }
}

/// The items that a new index is filled with: all that the table holds, or
/// none where an entry does not decode.
pub open spec fn fill_items(stored: Stored) -> Seq<ItemView> {
    match scan_from(stored, None, None, 0, Seq::empty()) {
        Ok(items) => items,
        Err(_) => Seq::empty(),
    }
}

/// The names of the indexes, in their order.
pub open spec fn state_names(s: IndexStates) -> Seq<Seq<char>> {
    Seq::new(s.len(), |i: int| s[i].0)
}

/// The content of a list of names.
pub open spec fn names_of(v: Seq<String>) -> Seq<Seq<char>> {
    Seq::new(v.len(), |i: int| v[i]@)
}

/// The number of items that a query on a named index looks at.
pub open spec fn named_index_scanned(states: IndexStates, name: Seq<char>) -> nat {
    match lookup::<String, IndexState>(states, text_bytes(name)) {
        None => 0,
        Some(st) => index_scanned(st.index, st.schema),
    }
}

/// What a query on a named index hands back.
pub open spec fn named_index_query(
    states: IndexStates,
    name: Seq<char>,
    cond: KeyConditionView,
    filter: Option<ConditionView>,
    options: QueryOptions,
) -> Result<Seq<ItemView>, TableErrorView> {
    match lookup::<String, IndexState>(states, text_bytes(name)) {
        None => Err(TableErrorView::IndexNotFound { name }),
        Some(st) => filtered_index_query(st, cond, filter, options),
    }
}

impl Table {
    /// Removes every item from the table and from every index.
    pub fn clear(&mut self)
        ensures
            final(self).name == old(self).name,
            final(self)@ == (TableView {
                schema: old(self)@.schema,
                stored: Seq::empty(),
                gsis: states_cleared(old(self)@.gsis),
                lsis: states_cleared(old(self)@.lsis),
            }),
    {
        self.storage.clear();
        let ghost g0 = gsi_states(self.gsis@);
        let mut i: usize = 0;
        while i < self.gsis.entries.len()
            invariant
                i <= self.gsis.entries.len(),
                self.name == old(self).name,
                self.schema == old(self).schema,
                self.storage.entries() == Seq::<(Seq<char>, Seq<u8>)>::empty(),
                self.lsis == old(self).lsis,
                g0 == gsi_states(old(self).gsis@),
                gsi_states(self.gsis@).len() == g0.len(),
                forall|j: int|
                    0 <= j < i ==> (#[trigger] gsi_states(self.gsis@)[j]) == (
                        g0[j].0,
                        state_cleared(g0[j].1),
                    ),
                forall|j: int| i <= j < g0.len() ==> (#[trigger] gsi_states(self.gsis@)[j]) == g0[j],
            decreases self.gsis.entries.len() - i,
        {
            let ghost before = gsi_states(self.gsis@);
            let (name, mut gsi) = self.gsis.entries.remove(i);
            proof {
                assert(before[i as int] == (name@, gsi_state(gsi)));
            }
            gsi.clear();
            self.gsis.entries.insert(i, (name, gsi));
            proof {
                let now = gsi_states(self.gsis@);
                assert forall|j: int| 0 <= j < now.len() && j != i implies #[trigger] now[j]
                    == before[j] by {}
            }
            i += 1;
        }
        let ghost l0 = lsi_states(self.lsis@);
        let mut k: usize = 0;
        while k < self.lsis.entries.len()
            invariant
                k <= self.lsis.entries.len(),
                self.name == old(self).name,
                self.schema == old(self).schema,
                self.storage.entries() == Seq::<(Seq<char>, Seq<u8>)>::empty(),
                gsi_states(self.gsis@) =~= states_cleared(g0),
                g0 == gsi_states(old(self).gsis@),
                l0 == lsi_states(old(self).lsis@),
                lsi_states(self.lsis@).len() == l0.len(),
                forall|j: int|
                    0 <= j < k ==> (#[trigger] lsi_states(self.lsis@)[j]) == (
                        l0[j].0,
                        state_cleared(l0[j].1),
                    ),
                forall|j: int| k <= j < l0.len() ==> (#[trigger] lsi_states(self.lsis@)[j]) == l0[j],
            decreases self.lsis.entries.len() - k,
        {
            let ghost before = lsi_states(self.lsis@);
            let (name, mut lsi) = self.lsis.entries.remove(k);
            proof {
                assert(before[k as int] == (name@, lsi_state(lsi)));
            }
            lsi.clear();
            self.lsis.entries.insert(k, (name, lsi));
            proof {
                let now = lsi_states(self.lsis@);
                assert forall|j: int| 0 <= j < now.len() && j != k implies #[trigger] now[j]
                    == before[j] by {}
            }
            k += 1;
        }
        proof {
            assert(lsi_states(self.lsis@) =~= states_cleared(l0));
        }
    }

    /// Every item, in ascending order of the storage keys, that passes the
    /// filter, up to the limit. An entry that does not decode ends the scan
    /// with an error.
    pub fn scan(&self, request: ScanRequest) -> (r: TableResult<Vec<Item>>)
        ensures
            match r {
                Ok(items) => scan_from(
                    self@.stored,
                    condition_view(request.filter),
                    request.limit,
                    0,
                    Seq::empty(),
                ) == Ok::<_, TableErrorView>(items_view(items@)),
                Err(e) => scan_from(
                    self@.stored,
                    condition_view(request.filter),
                    request.limit,
                    0,
                    Seq::empty(),
                ) == Err::<Seq<ItemView>, _>(e@),
            },
    {
        let mut items: Vec<Item> = Vec::new();
        let mut i: usize = 0;
        let ghost stored = self@.stored;
        let ghost filter = condition_view(request.filter);
        proof {
            assert(items_view(items@) =~= Seq::<ItemView>::empty());
        }
        while i < self.storage.entry_count()
            invariant
                i <= stored.len(),
                stored == self@.stored,
                filter == condition_view(request.filter),
                scan_from(stored, filter, request.limit, 0, Seq::empty()) == scan_from(
                    stored,
                    filter,
                    request.limit,
                    i as nat,
                    items_view(items@),
                ),
            decreases stored.len() - i,
        {
            match request.limit {
                Some(n) => {
                    if items.len() >= n {
                        return Ok(items);
                    }
                },
                None => {},
            }
            let item = match decode_item(self.storage.value_at(i).as_slice()) {
                Ok(item) => item,
                Err(e) => {
                    return Err(e);
                },
            };
            let ghost before = items@;
            if passes_filter(&request.filter, &item) {
                items.push(item);
                proof {
                    assert(items_view(items@) =~= items_view(before).push(item@));
                }
            }
            i += 1;
        }
        Ok(items)
    }

    /// Every item, in ascending order of the storage keys.
    pub fn scan_all(&self) -> (r: TableResult<Vec<Item>>)
        ensures
            match r {
                Ok(items) => scan_from(self@.stored, None, None, 0, Seq::empty()) == Ok::<
                    _,
                    TableErrorView,
                >(items_view(items@)),
                Err(e) => scan_from(self@.stored, None, None, 0, Seq::empty()) == Err::<
                    Seq<ItemView>,
                    _,
                >(e@),
            },
    {
        self.scan(ScanRequest::new())
    }

    /// The items that a new index is filled with.
    fn items_for_fill(&self) -> (r: Vec<Item>)
        ensures
            items_view(r@) == fill_items(self@.stored),
    {
        match self.scan_all() {
            Ok(items) => items,
            Err(_) => {
                let v: Vec<Item> = Vec::new();
                proof {
                    assert(items_view(v@) =~= Seq::<ItemView>::empty());
                }
                v
            },
        }
    }

    /// Adds a global index and fills it with the items of the table. An index
    /// of the same name is replaced.
    pub fn add_gsi(&mut self, builder: GsiBuilder)
        ensures
            final(self).name == old(self).name,
            final(self)@ == (TableView {
                schema: old(self)@.schema,
                stored: old(self)@.stored,
                gsis: inserted::<String, IndexState>(
                    old(self)@.gsis,
                    builder.name@,
                    filled(
                        IndexState {
                            schema: builder.schema@,
                            table_schema: old(self)@.schema,
                            projection: builder.projection@,
                            index: IndexView { data: Seq::empty(), reverse: Seq::empty() },
                        },
                        fill_items(old(self)@.stored),
                        old(self)@.schema,
                        fill_items(old(self)@.stored).len(),
                    ),
                ),
                lsis: old(self)@.lsis,
            }),
    {
        let mut gsi = builder.build(self.schema.duplicate());
        let name = owned(gsi.name());
        let items = self.items_for_fill();
        let ghost st0 = gsi_state(gsi);
        let mut i: usize = 0;
        while i < items.len()
            invariant
                i <= items.len(),
                gsi_state(gsi) == filled(st0, items_view(items@), self.schema@, i as nat),
            decreases items.len() - i,
        {
            proof {
                assert(items_view(items@)[i as int] == items@[i as int]@);
            }
            match items[i].extract_key(&self.schema) {
                Some(pk) => {
                    gsi.put(pk, &items[i]);
                },
                None => {},
            }
            i += 1;
        }
        proof {
            lemma_mapped_inserted::<String, GlobalSecondaryIndex, IndexState>(
                self.gsis@,
                gsi_state_fn(),
                name@,
                gsi,
            );
        }
        self.gsis.insert(name, gsi);
    }

    /// The global index called `name`.
    pub fn gsi(&self, name: &str) -> (r: Option<&GlobalSecondaryIndex>)
        ensures
            match r {
                Some(g) => lookup::<String, IndexState>(self@.gsis, text_bytes(name@)) == Some(
                    gsi_state(*g),
                ),
                None => lookup::<String, IndexState>(self@.gsis, text_bytes(name@)).is_none(),
            },
    {
        proof {
            lemma_mapped_lookup::<String, GlobalSecondaryIndex, IndexState>(
                self.gsis@,
                gsi_state_fn(),
                text_bytes(name@),
            );
        }
        self.gsis.get(name.as_bytes())
    }

    /// The names of the global indexes, in ascending order.
    pub fn gsi_names(&self) -> (r: Vec<String>)
        ensures
            names_of(r@) == state_names(self@.gsis),
    {
        let mut out: Vec<String> = Vec::new();
        let mut i: usize = 0;
        while i < self.gsis.len()
            invariant
                i <= self.gsis@.len(),
                out@.len() == i,
                forall|j: int| 0 <= j < i ==> (#[trigger] out@[j])@ == self.gsis@[j].0,
            decreases self.gsis@.len() - i,
        {
            out.push(self.gsis.key_at(i).clone());
            i += 1;
        }
        proof {
            assert(names_of(out@) =~= state_names(self@.gsis));
        }
        out
    }

    /// Adds a local index and fills it with the items of the table. An index
    /// of the same name is replaced.
    pub fn add_lsi(&mut self, builder: LsiBuilder)
        ensures
            final(self).name == old(self).name,
            final(self)@ == (TableView {
                schema: old(self)@.schema,
                stored: old(self)@.stored,
                gsis: old(self)@.gsis,
                lsis: inserted::<String, IndexState>(
                    old(self)@.lsis,
                    builder.name@,
                    filled(
                        IndexState {
                            schema: KeySchemaView {
                                partition_key: old(self)@.schema.partition_key,
                                sort_key: Some(builder.sort_key@),
                            },
                            table_schema: old(self)@.schema,
                            projection: builder.projection@,
                            index: IndexView { data: Seq::empty(), reverse: Seq::empty() },
                        },
                        fill_items(old(self)@.stored),
                        old(self)@.schema,
                        fill_items(old(self)@.stored).len(),
                    ),
                ),
            }),
    {
        let mut lsi = builder.build(self.schema.duplicate());
        let name = owned(lsi.name());
        let items = self.items_for_fill();
        let ghost st0 = lsi_state(lsi);
        let mut i: usize = 0;
        while i < items.len()
            invariant
                i <= items.len(),
                lsi_state(lsi) == filled(st0, items_view(items@), self.schema@, i as nat),
            decreases items.len() - i,
        {
            proof {
                assert(items_view(items@)[i as int] == items@[i as int]@);
            }
            match items[i].extract_key(&self.schema) {
                Some(pk) => {
                    lsi.put(&pk, &items[i]);
                },
                None => {},
            }
            i += 1;
        }
        proof {
            lemma_mapped_inserted::<String, LocalSecondaryIndex, IndexState>(
                self.lsis@,
                lsi_state_fn(),
                name@,
                lsi,
            );
        }
        self.lsis.insert(name, lsi);
    }

    /// The local index called `name`.
    pub fn lsi(&self, name: &str) -> (r: Option<&LocalSecondaryIndex>)
        ensures
            match r {
                Some(l) => lookup::<String, IndexState>(self@.lsis, text_bytes(name@)) == Some(
                    lsi_state(*l),
                ),
                None => lookup::<String, IndexState>(self@.lsis, text_bytes(name@)).is_none(),
            },
    {
        proof {
            lemma_mapped_lookup::<String, LocalSecondaryIndex, IndexState>(
                self.lsis@,
                lsi_state_fn(),
                text_bytes(name@),
            );
        }
        self.lsis.get(name.as_bytes())
    }

    /// The names of the local indexes, in ascending order.
    pub fn lsi_names(&self) -> (r: Vec<String>)
        ensures
            names_of(r@) == state_names(self@.lsis),
    {
        let mut out: Vec<String> = Vec::new();
        let mut i: usize = 0;
        while i < self.lsis.len()
            invariant
                i <= self.lsis@.len(),
                out@.len() == i,
                forall|j: int| 0 <= j < i ==> (#[trigger] out@[j])@ == self.lsis@[j].0,
            decreases self.lsis@.len() - i,
        {
            out.push(self.lsis.key_at(i).clone());
            i += 1;
        }
        proof {
            assert(names_of(out@) =~= state_names(self@.lsis));
        }
        out
    }

    /// The items with their keys, as a query sees them.
    fn iter_with_keys(&self) -> (r: TableResult<Vec<(PrimaryKey, Item)>>)
        ensures
            match r {
                Ok(v) => table_feed(self@.stored, self@.schema, self@.stored.len()) == Ok::<
                    _,
                    TableErrorView,
                >(entries_of_pairs(v@)),
                Err(e) => table_feed(self@.stored, self@.schema, self@.stored.len()) == Err::<
                    Seq<Entry>,
                    _,
                >(e@),
            },
    {
        let mut out: Vec<(PrimaryKey, Item)> = Vec::new();
        let mut i: usize = 0;
        let ghost stored = self@.stored;
        proof {
            assert(entries_of_pairs(out@) =~= Seq::<Entry>::empty());
        }
        while i < self.storage.entry_count()
            invariant
                i <= stored.len(),
                stored == self@.stored,
                table_feed(stored, self@.schema, i as nat) == Ok::<_, TableErrorView>(
                    entries_of_pairs(out@),
                ),
            decreases stored.len() - i,
        {
            let item = match decode_item(self.storage.value_at(i).as_slice()) {
                Ok(item) => item,
                Err(e) => {
                    proof {
                        lemma_feed_error(stored, self@.schema, (i + 1) as nat, stored.len());
                    }
                    return Err(e);
                },
            };
            let ghost before = out@;
            match item.extract_key(&self.schema) {
                Some(pk) => {
                    out.push((pk, item));
                    proof {
                        assert(entries_of_pairs(out@) =~= entries_of_pairs(before).push(
                            (pk@, item@),
                        ));
                    }
                },
                None => {},
            }
            i += 1;
        }
        Ok(out)
    }

    /// The items that meet the key condition, ordered and cut to the limit,
    /// that pass the filter. The condition is checked against the schema
    /// first.
    pub fn query<R: IntoQueryRequest>(&self, request: R) -> (r: TableResult<QueryResult>)
        ensures
            match r {
                Ok(res) => table_query(
                    self@,
                    request.query_condition(),
                    request.query_filter(),
                    request.query_options(),
                ) == Ok::<_, TableErrorView>(items_view(res.items@)) && res.count
                    == res.items@.len() && res.scanned_count == table_scanned(self@),
                Err(e) => table_query(
                    self@,
                    request.query_condition(),
                    request.query_filter(),
                    request.query_options(),
                ) == Err::<Seq<ItemView>, _>(e@),
            },
    {
        let request = request.into_query_request();
        self.query_internal(&request.key_condition, &request.filter, &request.options)
    }

    /// Checks the key condition against the schema, selects and orders the
    /// items of the table, and keeps those that pass the filter.
    fn query_internal(
        &self,
        key_condition: &KeyCondition,
        filter: &Option<Condition>,
        options: &QueryOptions,
    ) -> (r: TableResult<QueryResult>)
        ensures
            match r {
                Ok(res) => table_query(self@, key_condition@, condition_view(*filter), *options)
                    == Ok::<_, TableErrorView>(items_view(res.items@)) && res.count
                    == res.items@.len() && res.scanned_count == table_scanned(self@),
                Err(e) => table_query(self@, key_condition@, condition_view(*filter), *options)
                    == Err::<Seq<ItemView>, _>(e@),
            },
    {
        let executor = QueryExecutor::new(&self.schema);
        match executor.validate_condition(key_condition) {
            Err(e) => {
                return Err(e);
            },
            Ok(_) => {},
        }
        let items = match self.iter_with_keys() {
            Ok(v) => v,
            Err(e) => {
                return Err(e);
            },
        };
        let result = match executor.execute(items, key_condition, options) {
            Ok(r) => r,
            Err(e) => {
                return Err(e);
            },
        };
        let filtered = filter_items(result.items, filter);
        let count = filtered.len();
        proof {
            assert(items_view(filtered@).len() == filtered@.len());
        }
        Ok(QueryResult { items: filtered, scanned_count: result.scanned_count, count })
    }

    /// The items of the global index `index_name` that meet the key
    /// condition, ordered and cut to the limit, that pass the filter.
    pub fn query_gsi<R: IntoQueryRequest>(&self, index_name: &str, request: R) -> (r: TableResult<
        QueryResult,
    >)
        ensures
            match r {
                Ok(res) => named_index_query(
                    self@.gsis,
                    index_name@,
                    request.query_condition(),
                    request.query_filter(),
                    request.query_options(),
                ) == Ok::<_, TableErrorView>(items_view(res.items@)) && res.count
                    == res.items@.len() && res.scanned_count == named_index_scanned(
                    self@.gsis,
                    index_name@,
                ),
                Err(e) => named_index_query(
                    self@.gsis,
                    index_name@,
                    request.query_condition(),
                    request.query_filter(),
                    request.query_options(),
                ) == Err::<Seq<ItemView>, _>(e@),
            },
    {
        let request = request.into_query_request();
        let gsi = match self.gsi(index_name) {
            Some(g) => g,
            None => {
                return Err(TableError::index_not_found(index_name));
            },
        };
        let result = match gsi.query_with_options(request.key_condition, request.options) {
            Ok(r) => r,
            Err(e) => {
                return Err(e);
            },
        };
        let filtered = filter_items(result.items, &request.filter);
        let count = filtered.len();
        proof {
            assert(items_view(filtered@).len() == filtered@.len());
        }
        Ok(QueryResult { items: filtered, scanned_count: result.scanned_count, count })
    }

    /// The items of the local index `index_name` that meet the key condition,
    /// ordered and cut to the limit, that pass the filter.
    pub fn query_lsi<R: IntoQueryRequest>(&self, index_name: &str, request: R) -> (r: TableResult<
        QueryResult,
    >)
        ensures
            match r {
                Ok(res) => named_index_query(
                    self@.lsis,
                    index_name@,
                    request.query_condition(),
                    request.query_filter(),
                    request.query_options(),
                ) == Ok::<_, TableErrorView>(items_view(res.items@)) && res.count
                    == res.items@.len() && res.scanned_count == named_index_scanned(
                    self@.lsis,
                    index_name@,
                ),
                Err(e) => named_index_query(
                    self@.lsis,
                    index_name@,
                    request.query_condition(),
                    request.query_filter(),
                    request.query_options(),
                ) == Err::<Seq<ItemView>, _>(e@),
            },
    {
        let request = request.into_query_request();
        let lsi = match self.lsi(index_name) {
            Some(l) => l,
            None => {
                return Err(TableError::index_not_found(index_name));
            },
        };
        let result = match lsi.query_with_options(request.key_condition, request.options) {
            Ok(r) => r,
            Err(e) => {
                return Err(e);
            },
        };
        let filtered = filter_items(result.items, &request.filter);
        let count = filtered.len();
        proof {
            assert(items_view(filtered@).len() == filtered@.len());
        }
        Ok(QueryResult { items: filtered, scanned_count: result.scanned_count, count })
    }

    /// Puts an item, without condition.
    pub fn put_item(&mut self, item: Item) -> (r: TableResult<()>)
        ensures
            final(self).name == old(self).name,
            match r {
                Ok(_) => put_plan(old(self)@, item@, None, false) matches Ok(plan) && final(self)@
                    == after_put(old(self)@, plan.key, plan.bytes, item@),
                Err(e) => put_plan(old(self)@, item@, None, false) == Err::<PutPlan, _>(e@)
                    && final(self)@ == old(self)@,
            },
    {
        match self.put(PutRequest::new(item)) {
            Ok(_) => Ok(()),
            Err(e) => Err(e),
        }
    }

    /// The item of a key.
    pub fn get_item(&self, key: &PrimaryKey) -> (r: TableResult<Option<Item>>)
        ensures
            match r {
                Ok(item) => item_at(self@.stored, storage_key_text(key@)) == Ok::<
                    _,
                    TableErrorView,
                >(item_view(item)),
                Err(e) => item_at(self@.stored, storage_key_text(key@)) == Err::<
                    Option<ItemView>,
                    _,
                >(e@),
            },
    {
        self.get(GetRequest::new(key.duplicate()))
    }

    /// Deletes the item of a key, without condition, and hands it back.
    pub fn delete_item(&mut self, key: &PrimaryKey) -> (r: TableResult<Option<Item>>)
        ensures
            final(self).name == old(self).name,
            match r {
                Ok(prev) => delete_plan(old(self)@, key@, None) == Ok::<_, TableErrorView>(
                    item_view(prev),
                ) && final(self)@ == after_delete(old(self)@, key@, prev.is_some()),
                Err(e) => delete_plan(old(self)@, key@, None) == Err::<Option<ItemView>, _>(e@)
                    && final(self)@ == old(self)@,
            },
    {
        match self.delete(DeleteRequest::new(key.duplicate()).return_old()) {
            Ok(res) => Ok(res.attributes),
            Err(e) => Err(e),
        }
    }

    /// Updates the item of a key, without condition, and hands back the item
    /// as it is after the update.
    pub fn update_item(&mut self, key: &PrimaryKey, expression: UpdateExpression) -> (r: TableResult<
        Option<Item>,
    >)
        ensures
            final(self).name == old(self).name,
            match r {
                Ok(new) => update_plan(old(self)@, key@, expression@, None) matches Ok(plan)
                    && final(self)@ == after_put(old(self)@, key@, plan.bytes, plan.new)
                    && item_view(new) == Some(plan.new),
                Err(e) => update_plan(old(self)@, key@, expression@, None) == Err::<UpdatePlan, _>(
                    e@,
                ) && final(self)@ == old(self)@,
            },
    {
        match self.update(UpdateRequest::new(key.duplicate(), expression)) {
            Ok(res) => Ok(res.attributes),
            Err(e) => Err(e),
        }
    }
}

/// Once an entry does not decode, the items cannot be fed to a query.
pub proof fn lemma_feed_error(stored: Stored, schema: KeySchemaView, n: nat, m: nat)
    requires
        0 < n <= m <= stored.len(),
        table_feed(stored, schema, (n - 1) as nat) is Ok,
        decoded(stored[n - 1].1) is Err,
    ensures
        table_feed(stored, schema, m) == Err::<Seq<Entry>, _>(decoded(stored[n - 1].1)->Err_0),
    decreases m - n,
{
    if m > n {
        lemma_feed_error(stored, schema, n, (m - 1) as nat);
    }
}

/// Builds a table with its indexes.
#[derive(Debug)]
pub struct TableBuilder {
    /// The name of the table.
    pub name: String,
    /// The key schema of the table.
    pub schema: KeySchema,
    /// A hint at the number of items.
    pub initial_capacity: Option<usize>,
    /// The builders of the global indexes, in the order in which they were
    /// given.
    pub gsi_builders: Vec<GsiBuilder>,
    /// The builders of the local indexes, in the order in which they were
    /// given.
    pub lsi_builders: Vec<LsiBuilder>,
}

/// An empty index as a table sees it.
pub open spec fn empty_state(
    schema: KeySchemaView,
    table_schema: KeySchemaView,
    projection: ProjectionView,
) -> IndexState {
    IndexState {
        schema,
        table_schema,
        projection,
        index: IndexView { data: Seq::empty(), reverse: Seq::empty() },
    }
}

/// The empty global indexes of the first `n` builders, a later one in place of
/// an earlier one of the same name.
pub open spec fn built_gsis(builders: Seq<GsiBuilder>, table_schema: KeySchemaView, n: nat) -> IndexStates
    decreases n,
{
    if n == 0 || n > builders.len() {
        Seq::empty()
    } else {
        inserted::<String, IndexState>(
            built_gsis(builders, table_schema, (n - 1) as nat),
            builders[n - 1].name@,
            empty_state(builders[n - 1].schema@, table_schema, builders[n - 1].projection@),
        )
    }
}

/// The empty local indexes of the first `n` builders, a later one in place of
/// an earlier one of the same name.
pub open spec fn built_lsis(builders: Seq<LsiBuilder>, table_schema: KeySchemaView, n: nat) -> IndexStates
    decreases n,
{
    if n == 0 || n > builders.len() {
        Seq::empty()
    } else {
        inserted::<String, IndexState>(
            built_lsis(builders, table_schema, (n - 1) as nat),
            builders[n - 1].name@,
            empty_state(
                KeySchemaView {
                    partition_key: table_schema.partition_key,
                    sort_key: Some(builders[n - 1].sort_key@),
                },
                table_schema,
                builders[n - 1].projection@,
            ),
        )
    }
}

impl TableBuilder {
    /// A builder for a table without indexes.
    pub fn new<T: IntoText>(name: T, schema: KeySchema) -> (r: Self)
        ensures
            r.name@ == name.text(),
            r.schema@ == schema@,
            r.initial_capacity.is_none(),
            r.gsi_builders@.len() == 0,
            r.lsi_builders@.len() == 0,
    {
        TableBuilder {
            name: name.into_text(),
            schema,
            initial_capacity: None,
            gsi_builders: Vec::new(),
            lsi_builders: Vec::new(),
        }
    }

    /// The builder with a hint at the number of items.
    pub fn with_capacity(self, capacity: usize) -> (r: Self)
        ensures
            r.name == self.name,
            r.schema == self.schema,
            r.initial_capacity == Some(capacity),
            r.gsi_builders == self.gsi_builders,
            r.lsi_builders == self.lsi_builders,
    {
        TableBuilder {
            name: self.name,
            schema: self.schema,
            initial_capacity: Some(capacity),
            gsi_builders: self.gsi_builders,
            lsi_builders: self.lsi_builders,
        }
    }

    /// The builder with one more global index.
    pub fn with_gsi(self, builder: GsiBuilder) -> (r: Self)
        ensures
            r.name == self.name,
            r.schema == self.schema,
            r.initial_capacity == self.initial_capacity,
            r.gsi_builders@ == self.gsi_builders@.push(builder),
            r.lsi_builders == self.lsi_builders,
    {
        let mut gsi_builders = self.gsi_builders;
        gsi_builders.push(builder);
        TableBuilder {
            name: self.name,
            schema: self.schema,
            initial_capacity: self.initial_capacity,
            gsi_builders,
            lsi_builders: self.lsi_builders,
        }
    }

    /// The builder with one more local index.
    pub fn with_lsi(self, builder: LsiBuilder) -> (r: Self)
        ensures
            r.name == self.name,
            r.schema == self.schema,
            r.initial_capacity == self.initial_capacity,
            r.gsi_builders == self.gsi_builders,
            r.lsi_builders@ == self.lsi_builders@.push(builder),
    {
        let mut lsi_builders = self.lsi_builders;
        lsi_builders.push(builder);
        TableBuilder {
            name: self.name,
            schema: self.schema,
            initial_capacity: self.initial_capacity,
            gsi_builders: self.gsi_builders,
            lsi_builders,
        }
    }

    /// The empty table with its empty indexes.
    pub fn build(self) -> (r: Table)
        ensures
            r.name@ == self.name@,
            r@ == (TableView {
                schema: self.schema@,
                stored: Seq::empty(),
                gsis: built_gsis(self.gsi_builders@, self.schema@, self.gsi_builders@.len()),
                lsis: built_lsis(self.lsi_builders@, self.schema@, self.lsi_builders@.len()),
            }),
    {
        let mut table = Table::new(self.name, self.schema);
        let ghost schema = table@.schema;
        let ghost all_gsis = self.gsi_builders@;
        let ghost all_lsis = self.lsi_builders@;
        let mut gsi_builders = self.gsi_builders;
        let mut lsi_builders = self.lsi_builders;
        let ghost mut done: int = 0;
        proof {
            assert(fill_items(table@.stored) =~= Seq::<ItemView>::empty());
        }
        while gsi_builders.len() > 0
            invariant
                table.name@ == self.name@,
                0 <= done,
                done + gsi_builders@.len() == all_gsis.len(),
                gsi_builders@ == all_gsis.skip(done),
                table@ == (TableView {
                    schema,
                    stored: Seq::empty(),
                    gsis: built_gsis(all_gsis, schema, done as nat),
                    lsis: Seq::empty(),
                }),
            decreases gsi_builders.len(),
        {
            let ghost before = gsi_builders@;
            let b = gsi_builders.remove(0);
            proof {
                assert(b == all_gsis[done]);
                assert(gsi_builders@ =~= all_gsis.skip(done + 1));
                assert(fill_items(table@.stored) =~= Seq::<ItemView>::empty());
            }
            table.add_gsi(b);
            proof {
                done = done + 1;
            }
        }
        let ghost mut done_l: int = 0;
        while lsi_builders.len() > 0
            invariant
                table.name@ == self.name@,
                0 <= done_l,
                done_l + lsi_builders@.len() == all_lsis.len(),
                lsi_builders@ == all_lsis.skip(done_l),
                table@ == (TableView {
                    schema,
                    stored: Seq::empty(),
                    gsis: built_gsis(all_gsis, schema, all_gsis.len()),
                    lsis: built_lsis(all_lsis, schema, done_l as nat),
                }),
            decreases lsi_builders.len(),
        {
            let b = lsi_builders.remove(0);
            proof {
                assert(b == all_lsis[done_l]);
                assert(lsi_builders@ =~= all_lsis.skip(done_l + 1));
                assert(fill_items(table@.stored) =~= Seq::<ItemView>::empty());
            }
            table.add_lsi(b);
            proof {
                done_l = done_l + 1;
            }
        }
        table
    }
}

} // verus!
