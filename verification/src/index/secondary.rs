//! Secondary indexes, global and local.

use crate::error::{TableErrorView, TableResult};
use crate::index::projection::{projected, Projection, ProjectionView};
use crate::index::storage::{data_without, value_of, IndexStorage, ReverseView};
use crate::query::condition::{KeyCondition, KeyConditionView};
use crate::query::executor::{
    condition_checked, items_view, query_items, Entry, QueryExecutor, QueryOptions, QueryResult,
};
use crate::sorted::{
    inserted, lemma_mapped_inserted, lemma_mapped_lookup, lemma_mapped_removed, lookup, mapped,
    removed,
};
use crate::text::{push_char, text_bytes, IntoText};
use crate::types::item::{extract_key_part, extracted_key, Item, ItemView};
use crate::types::key::{
    storage_key_text, KeyAttribute, KeyAttributeView, KeySchema, KeySchemaView, KeyType,
    PrimaryKey, PrimaryKeyView,
};
use vstd::prelude::*;
use vstd::string::StringExecFns;

verus! {

/// The kind of an index.
#[derive(Debug)]
pub enum IndexKind {
    /// A global index has a key schema of its own.
    Global { schema: KeySchema },
    /// A local index has the table's partition key and a sort key of its own.
    Local { sort_key: KeyAttribute },
}

/// The content of an index kind.
pub ghost enum IndexKindView {
    Global { schema: KeySchemaView },
    Local { sort_key: KeyAttributeView },
}

impl View for IndexKind {
    type V = IndexKindView;

    open spec fn view(&self) -> IndexKindView {
        match self {
            IndexKind::Global { schema } => IndexKindView::Global { schema: schema@ },
            IndexKind::Local { sort_key } => IndexKindView::Local { sort_key: sort_key@ },
        }
    }
}

impl IndexKind {
    /// A global index with the given key schema.
    pub fn global(schema: KeySchema) -> (r: Self)
        ensures
            r@ == (IndexKindView::Global { schema: schema@ }),
    {
        IndexKind::Global { schema }
    }

    /// A local index with the given sort key.
    pub fn local<T: IntoText>(key_name: T, key_type: KeyType) -> (r: Self)
        ensures
            r@ == (IndexKindView::Local {
                sort_key: KeyAttributeView { name: key_name.text(), key_type },
            }),
    {
        IndexKind::Local { sort_key: KeyAttribute::new(key_name, key_type) }
    }

    /// A copy with the same content.
    pub fn duplicate(&self) -> (r: Self)
        ensures
            r@ == self@,
    {
        match self {
            IndexKind::Global { schema } => IndexKind::Global { schema: schema.duplicate() },
            IndexKind::Local { sort_key } => IndexKind::Local { sort_key: sort_key.duplicate() },
        }
    }
}

impl Clone for IndexKind {
    fn clone(&self) -> (r: Self)
        ensures
            r@ == self@,
    {
        self.duplicate()
    }
}

/// The key schema that an index of some kind follows over a table.
pub open spec fn effective_schema(kind: IndexKindView, table_schema: KeySchemaView) -> KeySchemaView {
    match kind {
        IndexKindView::Global { schema } => schema,
        IndexKindView::Local { sort_key } => KeySchemaView {
            partition_key: table_schema.partition_key,
            sort_key: Some(sort_key),
        },
    }
}

/// The key under which an index stores an item: the storage key of the index
/// key, a `|`, and the storage key of the table key.
pub open spec fn index_storage_key(index_key: PrimaryKeyView, table_key: PrimaryKeyView) -> Seq<char> {
    storage_key_text(index_key) + seq!['|'] + storage_key_text(table_key)
}

/// An entry of an index: the table key of an item and what the index keeps of
/// it.
pub type IndexEntry = (PrimaryKeyView, ItemView);

/// What an index holds.
pub ghost struct IndexView {
    /// The entries under their index storage keys, in ascending order.
    pub data: Seq<(Seq<char>, IndexEntry)>,
    /// For every table storage key the index storage key of its entry.
    pub reverse: ReverseView,
}

/// The content of a stored entry.
pub open spec fn entry_view() -> spec_fn((PrimaryKey, Item)) -> IndexEntry {
    |e: (PrimaryKey, Item)| (e.0@, e.1@)
}

/// The index without the entry of a table key.
pub open spec fn index_without(ix: IndexView, table_key: PrimaryKeyView) -> IndexView {
    let tk = storage_key_text(table_key);
    IndexView {
        data: data_without(ix.data, ix.reverse, tk),
        reverse: removed::<String, Seq<char>>(ix.reverse, text_bytes(tk)),
    }
}

/// The index after an item was put under a table key: the entry that the
/// table key had is gone; where the item holds the index key, its projection is
/// stored under the index storage key.
pub open spec fn index_put(
    ix: IndexView,
    schema: KeySchemaView,
    table_schema: KeySchemaView,
    projection: ProjectionView,
    table_key: PrimaryKeyView,
    item: ItemView,
) -> IndexView {
    let cleared = index_without(ix, table_key);
    match extracted_key(item, schema) {
        None => cleared,
        Some(ik) => IndexView {
            data: inserted::<String, IndexEntry>(
                cleared.data,
                index_storage_key(ik, table_key),
                (table_key, projected(item, projection, table_schema, schema)),
            ),
            reverse: inserted::<String, Seq<char>>(
                cleared.reverse,
                storage_key_text(table_key),
                index_storage_key(ik, table_key),
            ),
        },
    }
}

/// What the index keeps of the item of a table key.
pub open spec fn index_item_of(ix: IndexView, table_key: PrimaryKeyView) -> Option<ItemView> {
    match value_of(ix.data, ix.reverse, storage_key_text(table_key)) {
        Some(e) => Some(e.1),
        None => None,
    }
}

/// The items of the first `n` entries with their index keys, as a query sees
/// them; an entry whose item does not hold the index key is left out.
pub open spec fn index_feed(data: Seq<(Seq<char>, IndexEntry)>, schema: KeySchemaView, n: nat) -> Seq<
    Entry,
>
    decreases n,
{
    if n == 0 || n > data.len() {
        Seq::empty()
    } else {
        let before = index_feed(data, schema, (n - 1) as nat);
        match extracted_key(data[n - 1].1.1, schema) {
            Some(ik) => before.push((ik, data[n - 1].1.1)),
            None => before,
        }
    }
}

/// The number of items that a query on an index looks at: all that the query
/// is fed.
pub open spec fn index_scanned(ix: IndexView, schema: KeySchemaView) -> nat {
    index_feed(ix.data, schema, ix.data.len()).len()
}

/// What a query on an index hands back: an error where the condition does not
/// fit the index schema, else the items selected.
pub open spec fn index_query(
    ix: IndexView,
    schema: KeySchemaView,
    cond: KeyConditionView,
    options: QueryOptions,
) -> Result<Seq<ItemView>, TableErrorView> {
    match condition_checked(schema, cond) {
        Err(e) => Err(e),
        Ok(_) => Ok(query_items(index_feed(ix.data, schema, ix.data.len()), cond, options)),
    }
}

/// A secondary index over a table.
#[derive(Debug)]
pub struct SecondaryIndex {
    /// The name of the index.
    pub name: String,
    /// The kind of the index, with its keys.
    pub kind: IndexKind,
    /// What the index keeps of every item.
    pub projection: Projection,
    /// The key schema of the table.
    pub table_schema: KeySchema,
    /// The entries.
    pub storage: IndexStorage<(PrimaryKey, Item)>,
}

impl View for SecondaryIndex {
    type V = IndexView;

    open spec fn view(&self) -> IndexView {
        IndexView {
            data: mapped::<String, (PrimaryKey, Item), IndexEntry>(
                self.storage.entries(),
                entry_view(),
            ),
            reverse: self.storage.reverse(),
        }
    }
}

impl SecondaryIndex {
    /// The key schema that the index follows.
    pub open spec fn schema_view(&self) -> KeySchemaView {
        effective_schema(self.kind@, self.table_schema@)
    }

    /// An empty index.
    pub fn new<T: IntoText>(
        name: T,
        kind: IndexKind,
        projection: Projection,
        table_schema: KeySchema,
    ) -> (r: Self)
        ensures
            r.name@ == name.text(),
            r.kind@ == kind@,
            r.projection@ == projection@,
            r.table_schema@ == table_schema@,
            r@.data == Seq::<(Seq<char>, IndexEntry)>::empty(),
            r@.reverse == Seq::<(Seq<char>, Seq<char>)>::empty(),
    {
        let r = SecondaryIndex {
            name: name.into_text(),
            kind,
            projection,
            table_schema,
            storage: IndexStorage::new(),
        };
        proof {
            assert(r@.data =~= Seq::<(Seq<char>, IndexEntry)>::empty());
        }
        r
    }

    /// The name of the index.
    pub fn name(&self) -> (r: &str)
        ensures
            r@ == self.name@,
    {
        self.name.as_str()
    }

    /// What the index keeps of every item.
    pub fn projection(&self) -> (r: &Projection)
        ensures
            r@ == self.projection@,
    {
        &self.projection
    }

    /// Whether the index is global.
    pub fn is_global(&self) -> (r: bool)
        ensures
            r == (self.kind@ is Global),
    {
        match &self.kind {
            IndexKind::Global { .. } => true,
            IndexKind::Local { .. } => false,
        }
    }

    /// Whether the index is local.
    pub fn is_local(&self) -> (r: bool)
        ensures
            r == (self.kind@ is Local),
    {
        match &self.kind {
            IndexKind::Global { .. } => false,
            IndexKind::Local { .. } => true,
        }
    }

    /// The number of entries.
    pub fn len(&self) -> (r: usize)
        ensures
            r == self@.data.len(),
    {
        self.storage.len()
    }

    /// Whether the index has no entry.
    pub fn is_empty(&self) -> (r: bool)
        ensures
            r == (self@.data.len() == 0),
    {
        self.storage.is_empty()
    }

    /// Removes every entry.
    pub fn clear(&mut self)
        ensures
            final(self)@.data == Seq::<(Seq<char>, IndexEntry)>::empty(),
            final(self)@.reverse == Seq::<(Seq<char>, Seq<char>)>::empty(),
            final(self).name == old(self).name,
            final(self).kind == old(self).kind,
            final(self).projection == old(self).projection,
            final(self).table_schema == old(self).table_schema,
    {
        self.storage.clear();
        proof {
            assert(self@.data =~= Seq::<(Seq<char>, IndexEntry)>::empty());
        }
    }

    /// The key schema that the index follows: its own where it is global, the
    /// table's partition key with its own sort key where it is local.
    pub fn schema(&self) -> (r: KeySchema)
        ensures
            r@ == self.schema_view(),
    {
        match &self.kind {
            IndexKind::Global { schema } => schema.duplicate(),
            IndexKind::Local { sort_key } => KeySchema {
                partition_key: self.table_schema.partition_key.duplicate(),
                sort_key: Some(sort_key.duplicate()),
            },
        }
    }

    /// The key under which the index stores an item.
    pub fn make_storage_key(index_key: &PrimaryKey, table_key: &PrimaryKey) -> (r: String)
        ensures
            r@ == index_storage_key(index_key@, table_key@),
    {
        let mut out = index_key.to_storage_key();
        push_char(&mut out, '|');
        out.append(table_key.to_storage_key().as_str());
        out
    }

    /// The key that `item` holds under the schema of the index: for a global
    /// index the key of its own schema, for a local one the partition key of
    /// the table and the sort key of the index. `None` where a key attribute
    /// is absent or of another type.
    fn extract_key_index(&self, item: &Item) -> (r: Option<PrimaryKey>)
        ensures
            match r {
                Some(k) => extracted_key(item@, self.schema_view()) == Some(k@),
                None => extracted_key(item@, self.schema_view()).is_none(),
            },
    {
        match &self.kind {
            IndexKind::Global { schema } => item.extract_key(schema),
            IndexKind::Local { sort_key } => {
                let pk = match extract_key_part(item, &self.table_schema.partition_key) {
                    Some(k) => k,
                    None => {
                        return None;
                    },
                };
                match extract_key_part(item, sort_key) {
                    Some(sk) => Some(PrimaryKey { pk, sk: Some(sk) }),
                    None => None,
                }
            },
        }
    }

    /// Puts `item` under `table_key`. The entry that the table key had is
    /// removed; where the item holds the index key, its projection is stored.
    /// Hands back what the index kept of the item before.
    pub fn put(&mut self, table_key: PrimaryKey, item: &Item) -> (prev: Option<Item>)
        ensures
            final(self)@ == index_put(
                old(self)@,
                old(self).schema_view(),
                old(self).table_schema@,
                old(self).projection@,
                table_key@,
                item@,
            ),
            match prev {
                Some(p) => index_item_of(old(self)@, table_key@) == Some(p@),
                None => index_item_of(old(self)@, table_key@).is_none(),
            },
            final(self).name == old(self).name,
            final(self).kind == old(self).kind,
            final(self).projection == old(self).projection,
            final(self).table_schema == old(self).table_schema,
    {
        let schema = self.schema();
        let table_text = table_key.to_storage_key();
        proof {
            lemma_mapped_lookup::<String, (PrimaryKey, Item), IndexEntry>(
                self.storage.entries(),
                entry_view(),
                text_bytes(
                    match lookup::<String, Seq<char>>(self.storage.reverse(), text_bytes(table_text@)) {
                        Some(k) => k,
                        None => Seq::empty(),
                    },
                ),
            );
            lemma_mapped_removed::<String, (PrimaryKey, Item), IndexEntry>(
                self.storage.entries(),
                entry_view(),
                text_bytes(
                    match lookup::<String, Seq<char>>(self.storage.reverse(), text_bytes(table_text@)) {
                        Some(k) => k,
                        None => Seq::empty(),
                    },
                ),
            );
        }
        let prev = match self.extract_key_index(item) {
            None => self.storage.remove_by_table_key(table_text.as_str()),
            Some(index_key) => {
                let storage_key = SecondaryIndex::make_storage_key(&index_key, &table_key);
                let kept = self.projection.project_item(item, &self.table_schema, &schema);
                proof {
                    lemma_mapped_inserted::<String, (PrimaryKey, Item), IndexEntry>(
                        data_without(
                            self.storage.entries(),
                            self.storage.reverse(),
                            table_text@,
                        ),
                        entry_view(),
                        storage_key@,
                        (table_key, kept),
                    );
                }
                self.storage.put(table_text, storage_key, (table_key, kept))
            },
        };
        match prev {
            Some((_, old_item)) => Some(old_item),
            None => None,
        }
    }

    /// Removes the entry of `table_key` and hands back what the index kept of
    /// its item.
    pub fn delete(&mut self, table_key: &PrimaryKey) -> (prev: Option<Item>)
        ensures
            final(self)@ == index_without(old(self)@, table_key@),
            match prev {
                Some(p) => index_item_of(old(self)@, table_key@) == Some(p@),
                None => index_item_of(old(self)@, table_key@).is_none(),
            },
            final(self).name == old(self).name,
            final(self).kind == old(self).kind,
            final(self).projection == old(self).projection,
            final(self).table_schema == old(self).table_schema,
    {
        let table_text = table_key.to_storage_key();
        proof {
            lemma_mapped_lookup::<String, (PrimaryKey, Item), IndexEntry>(
                self.storage.entries(),
                entry_view(),
                text_bytes(
                    match lookup::<String, Seq<char>>(self.storage.reverse(), text_bytes(table_text@)) {
                        Some(k) => k,
                        None => Seq::empty(),
                    },
                ),
            );
            lemma_mapped_removed::<String, (PrimaryKey, Item), IndexEntry>(
                self.storage.entries(),
                entry_view(),
                text_bytes(
                    match lookup::<String, Seq<char>>(self.storage.reverse(), text_bytes(table_text@)) {
                        Some(k) => k,
                        None => Seq::empty(),
                    },
                ),
            );
        }
        match self.storage.remove_by_table_key(table_text.as_str()) {
            Some((_, old_item)) => Some(old_item),
            None => None,
        }
    }

    /// The items that meet `condition`, in ascending order, without limit.
    pub fn query(&self, condition: KeyCondition) -> (r: TableResult<QueryResult>)
        ensures
            match r {
                Ok(res) => index_query(self@, self.schema_view(), condition@, QueryOptions {
                    limit: None,
                    scan_forward: true,
                }) == Ok::<_, TableErrorView>(items_view(res.items@)) && res.count
                    == res.items@.len() && res.scanned_count == index_scanned(
                    self@,
                    self.schema_view(),
                ),
                Err(e) => index_query(self@, self.schema_view(), condition@, QueryOptions {
                    limit: None,
                    scan_forward: true,
                }) == Err::<Seq<ItemView>, _>(e@),
            },
    {
        self.query_with_options(condition, QueryOptions::new())
    }

    /// The items that meet `condition`, in the order and number that
    /// `options` ask for. The condition is checked against the index schema
    /// first.
    pub fn query_with_options(&self, condition: KeyCondition, options: QueryOptions) -> (r: TableResult<
        QueryResult,
    >)
        ensures
            match r {
                Ok(res) => index_query(self@, self.schema_view(), condition@, options) == Ok::<
                    _,
                    TableErrorView,
                >(items_view(res.items@)) && res.count == res.items@.len() && res.scanned_count
                    == index_scanned(self@, self.schema_view()),
                Err(e) => index_query(self@, self.schema_view(), condition@, options) == Err::<
                    Seq<ItemView>,
                    _,
                >(e@),
            },
    {
        let schema = self.schema();
        let executor = QueryExecutor::new(&schema);
        match executor.validate_condition(&condition) {
            Err(e) => {
                return Err(e);
            },
            Ok(_) => {},
        }
        let mut feed: Vec<(PrimaryKey, Item)> = Vec::new();
        let mut i: usize = 0;
        let ghost data = self@.data;
        proof {
            assert(crate::query::executor::entries_of_pairs(feed@) =~= index_feed(
                data,
                schema@,
                0,
            ));
        }
        while i < self.storage.data.len()
            invariant
                i <= self.storage.data@.len(),
                data == self@.data,
                data.len() == self.storage.data@.len(),
                schema@ == self.schema_view(),
                feed@.len() <= i,
                crate::query::executor::entries_of_pairs(feed@) == index_feed(
                    data,
                    schema@,
                    i as nat,
                ),
            decreases self.storage.data@.len() - i,
        {
            let entry = self.storage.data.value_at(i);
            let ghost before = feed@;
            proof {
                assert(data[i as int].1 == (entry.0@, entry.1@));
            }
            match self.extract_key_index(&entry.1) {
                Some(ik) => {
                    feed.push((ik, entry.1.duplicate()));
                    proof {
                        assert(crate::query::executor::entries_of_pairs(feed@)
                            =~= crate::query::executor::entries_of_pairs(before).push(
                            (ik@, entry.1@),
                        ));
                    }
                },
                None => {},
            }
            i += 1;
        }
        executor.execute(feed, &condition, &options)
    }
}

/// Builds a secondary index.
#[derive(Debug)]
pub struct IndexBuilder {
    /// The name of the index.
    pub name: String,
    /// The kind of the index.
    pub kind: IndexKind,
    /// What the index keeps of every item.
    pub projection: Projection,
}

impl IndexBuilder {
    /// A builder for a global index that keeps every attribute.
    pub fn global<T: IntoText>(name: T, schema: KeySchema) -> (r: Self)
        ensures
            r.name@ == name.text(),
            r.kind@ == (IndexKindView::Global { schema: schema@ }),
            r.projection@ == ProjectionView::All,
    {
        IndexBuilder { name: name.into_text(), kind: IndexKind::global(schema), projection: Projection::All }
    }

    /// A builder for a local index that keeps every attribute.
    pub fn local<T: IntoText, U: IntoText>(name: T, key_name: U, key_type: KeyType) -> (r: Self)
        ensures
            r.name@ == name.text(),
            r.kind@ == (IndexKindView::Local {
                sort_key: KeyAttributeView { name: key_name.text(), key_type },
            }),
            r.projection@ == ProjectionView::All,
    {
        IndexBuilder {
            name: name.into_text(),
            kind: IndexKind::local(key_name, key_type),
            projection: Projection::All,
        }
    }

    /// The builder with the given projection.
    pub fn projection(self, projection: Projection) -> (r: Self)
        ensures
            r.name@ == self.name@,
            r.kind@ == self.kind@,
            r.projection@ == projection@,
    {
        IndexBuilder { name: self.name, kind: self.kind, projection }
    }

    /// The builder with the projection that keeps the key attributes only.
    pub fn keys_only(self) -> (r: Self)
        ensures
            r.name@ == self.name@,
            r.kind@ == self.kind@,
            r.projection@ == ProjectionView::KeysOnly,
    {
        IndexBuilder { name: self.name, kind: self.kind, projection: Projection::KeysOnly }
    }

    /// The builder with the projection that keeps the key attributes and the
    /// named ones.
    pub fn including<T: IntoText>(self, attrs: Vec<T>) -> (r: Self)
        ensures
            r.name@ == self.name@,
            r.kind@ == self.kind@,
            r.projection@ == ProjectionView::Include(
                crate::index::projection::collected(
                    crate::index::projection::texts_of(attrs@),
                    Seq::empty(),
                ),
            ),
    {
        IndexBuilder { name: self.name, kind: self.kind, projection: Projection::including(attrs) }
    }

    /// The index over a table of the given key schema.
    pub fn build(self, table_schema: KeySchema) -> (r: SecondaryIndex)
        ensures
            r.name@ == self.name@,
            r.kind@ == self.kind@,
            r.projection@ == self.projection@,
            r.table_schema@ == table_schema@,
            r@.data == Seq::<(Seq<char>, IndexEntry)>::empty(),
            r@.reverse == Seq::<(Seq<char>, Seq<char>)>::empty(),
    {
        SecondaryIndex::new(self.name, self.kind, self.projection, table_schema)
    }
}

} // verus!
