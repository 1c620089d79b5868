//! Local secondary indexes: the partition key of the table with another sort
//! key.

use crate::error::{TableErrorView, TableResult};
use crate::index::projection::{collected, texts_of, Projection, ProjectionView};
use crate::index::secondary::{
    index_item_of, index_put, index_query, index_scanned, index_without, IndexEntry, IndexKind,
    IndexKindView, IndexView, SecondaryIndex,
};
use crate::query::condition::KeyCondition;
use crate::query::executor::{items_view, QueryOptions, QueryResult};
use crate::text::IntoText;
use crate::types::item::{Item, ItemView};
use crate::types::key::{
    KeyAttribute, KeyAttributeView, KeySchema, KeySchemaView, KeyType, PrimaryKey,
};
use vstd::prelude::*;

verus! {

/// A local secondary index.
#[derive(Debug)]
pub struct LocalSecondaryIndex {
    /// The sort key of the index.
    pub sort_key: KeyAttribute,
    /// The index.
    pub inner: SecondaryIndex,
}

impl View for LocalSecondaryIndex {
    type V = IndexView;

    open spec fn view(&self) -> IndexView {
        self.inner@
    }
}

impl LocalSecondaryIndex {
    /// The key schema of the index.
    pub open spec fn schema_view(&self) -> KeySchemaView {
        self.inner.schema_view()
    }

    /// An empty index with the given sort key.
    pub fn new<T: IntoText>(
        name: T,
        sort_key: KeyAttribute,
        projection: Projection,
        table_schema: KeySchema,
    ) -> (r: Self)
        ensures
            r.inner.name@ == name.text(),
            r.sort_key@ == sort_key@,
            r.inner.kind@ == (IndexKindView::Local { sort_key: sort_key@ }),
            r.schema_view() == (KeySchemaView {
                partition_key: table_schema@.partition_key,
                sort_key: Some(sort_key@),
            }),
            r.inner.projection@ == projection@,
            r.inner.table_schema@ == table_schema@,
            r@.data == Seq::<(Seq<char>, IndexEntry)>::empty(),
            r@.reverse == Seq::<(Seq<char>, Seq<char>)>::empty(),
    {
        let kind = IndexKind::Local { sort_key: sort_key.duplicate() };
        LocalSecondaryIndex {
            sort_key,
            inner: SecondaryIndex::new(name, kind, projection, table_schema),
        }
    }

    /// The name of the sort key attribute of the index.
    pub fn sort_key_name(&self) -> (r: &str)
        ensures
            r@ == self.sort_key@.name,
    {
        self.sort_key.name.as_str()
    }

    /// The type of the sort key of the index.
    pub fn sort_key_type(&self) -> (r: KeyType)
        ensures
            r == self.sort_key@.key_type,
    {
        self.sort_key.key_type
    }

    /// The name of the index.
    pub fn name(&self) -> (r: &str)
        ensures
            r@ == self.inner.name@,
    {
        self.inner.name()
    }

    /// The key schema of the index: the table's partition key and the sort
    /// key of the index.
    pub fn schema(&self) -> (r: KeySchema)
        ensures
            r@ == self.schema_view(),
    {
        self.inner.schema()
    }

    /// What the index keeps of every item.
    pub fn projection(&self) -> (r: &Projection)
        ensures
            r@ == self.inner.projection@,
    {
        self.inner.projection()
    }

    /// The number of entries.
    pub fn len(&self) -> (r: usize)
        ensures
            r == self@.data.len(),
    {
        self.inner.len()
    }

    /// Whether the index has no entry.
    pub fn is_empty(&self) -> (r: bool)
        ensures
            r == (self@.data.len() == 0),
    {
        self.inner.is_empty()
    }

    /// Puts `item` under `table_key`. The entry that the table key had is
    /// removed; where the item holds the index key, its projection is stored.
    /// Hands back what the index kept of the item before.
    pub fn put(&mut self, table_key: &PrimaryKey, item: &Item) -> (prev: Option<Item>)
        ensures
            final(self)@ == index_put(
                old(self)@,
                old(self).schema_view(),
                old(self).inner.table_schema@,
                old(self).inner.projection@,
                table_key@,
                item@,
            ),
            match prev {
                Some(p) => index_item_of(old(self)@, table_key@) == Some(p@),
                None => index_item_of(old(self)@, table_key@).is_none(),
            },
            final(self).inner.name == old(self).inner.name,
            final(self).inner.kind == old(self).inner.kind,
            final(self).inner.projection == old(self).inner.projection,
            final(self).inner.table_schema == old(self).inner.table_schema,
            final(self).sort_key == old(self).sort_key,
    {
        self.inner.put(table_key.duplicate(), item)
    }

    /// Removes the entry of `table_key` and hands back what the index kept of
    /// its item.
    pub fn delete(&mut self, table_key: &PrimaryKey) -> (prev: Option<Item>)
        ensures
            final(self)@ == index_without(old(self)@, table_key@),
            match prev {
                Some(p) => index_item_of(old(self)@, table_key@) == Some(p@),
                None => index_item_of(old(self)@, table_key@).is_none(),
            },
            final(self).inner.name == old(self).inner.name,
            final(self).inner.kind == old(self).inner.kind,
            final(self).inner.projection == old(self).inner.projection,
            final(self).inner.table_schema == old(self).inner.table_schema,
            final(self).sort_key == old(self).sort_key,
    {
        self.inner.delete(table_key)
    }

    /// The items that meet `condition`, in ascending order, without limit.
    pub fn query(&self, condition: KeyCondition) -> (r: TableResult<QueryResult>)
        ensures
            match r {
                Ok(res) => index_query(self@, self.schema_view(), condition@, QueryOptions {
                    limit: None,
                    scan_forward: true,
                }) == Ok::<_, TableErrorView>(items_view(res.items@)) && res.count
                    == res.items@.len() && res.scanned_count == index_scanned(
                    self@,
                    self.schema_view(),
                ),
                Err(e) => index_query(self@, self.schema_view(), condition@, QueryOptions {
                    limit: None,
                    scan_forward: true,
                }) == Err::<Seq<ItemView>, _>(e@),
            },
    {
        self.inner.query(condition)
    }

    /// The items that meet `condition`, in the order and number that
    /// `options` ask for.
    pub fn query_with_options(&self, condition: KeyCondition, options: QueryOptions) -> (r: TableResult<
        QueryResult,
    >)
        ensures
            match r {
                Ok(res) => index_query(self@, self.schema_view(), condition@, options) == Ok::<
                    _,
                    TableErrorView,
                >(items_view(res.items@)) && res.count == res.items@.len() && res.scanned_count
                    == index_scanned(self@, self.schema_view()),
                Err(e) => index_query(self@, self.schema_view(), condition@, options) == Err::<
                    Seq<ItemView>,
                    _,
                >(e@),
            },
    {
        self.inner.query_with_options(condition, options)
    }

    /// Removes every entry.
    pub fn clear(&mut self)
        ensures
            final(self)@.data == Seq::<(Seq<char>, IndexEntry)>::empty(),
            final(self)@.reverse == Seq::<(Seq<char>, Seq<char>)>::empty(),
            final(self).inner.name == old(self).inner.name,
            final(self).inner.kind == old(self).inner.kind,
            final(self).inner.projection == old(self).inner.projection,
            final(self).inner.table_schema == old(self).inner.table_schema,
            final(self).sort_key == old(self).sort_key,
    {
        self.inner.clear()
    }
}

/// Builds a local secondary index.
#[derive(Debug)]
pub struct LsiBuilder {
    /// The name of the index.
    pub name: String,
    /// The sort key of the index.
    pub sort_key: KeyAttribute,
    /// What the index keeps of every item.
    pub projection: Projection,
}

impl LsiBuilder {
    /// A builder for an index that keeps every attribute.
    pub fn new<T: IntoText, U: IntoText>(name: T, sort_key_name: U, sort_key_type: KeyType) -> (r:
        Self)
        ensures
            r.name@ == name.text(),
            r.sort_key@ == (KeyAttributeView { name: sort_key_name.text(), key_type: sort_key_type }),
            r.projection@ == ProjectionView::All,
    {
        LsiBuilder {
            name: name.into_text(),
            sort_key: KeyAttribute::new(sort_key_name, sort_key_type),
            projection: Projection::All,
        }
    }

    /// The builder with the given projection.
    pub fn projection(self, projection: Projection) -> (r: Self)
        ensures
            r.name@ == self.name@,
            r.sort_key@ == self.sort_key@,
            r.projection@ == projection@,
    {
        LsiBuilder { name: self.name, sort_key: self.sort_key, projection }
    }

    /// The builder with the projection that keeps the key attributes only.
    pub fn keys_only(self) -> (r: Self)
        ensures
            r.name@ == self.name@,
            r.sort_key@ == self.sort_key@,
            r.projection@ == ProjectionView::KeysOnly,
    {
        LsiBuilder { name: self.name, sort_key: self.sort_key, projection: Projection::KeysOnly }
    }

    /// The builder with the projection that keeps the key attributes and the
    /// named ones.
    pub fn including<T: IntoText>(self, attrs: Vec<T>) -> (r: Self)
        ensures
            r.name@ == self.name@,
            r.sort_key@ == self.sort_key@,
            r.projection@ == ProjectionView::Include(collected(texts_of(attrs@), Seq::empty())),
    {
        LsiBuilder {
            name: self.name,
            sort_key: self.sort_key,
            projection: Projection::including(attrs),
        }
    }

    /// The index over a table of the given key schema.
    pub fn build(self, table_schema: KeySchema) -> (r: LocalSecondaryIndex)
        ensures
            r.inner.name@ == self.name@,
            r.sort_key@ == self.sort_key@,
            r.schema_view() == (KeySchemaView {
                partition_key: table_schema@.partition_key,
                sort_key: Some(self.sort_key@),
            }),
            r.inner.projection@ == self.projection@,
            r.inner.table_schema@ == table_schema@,
            r@.data == Seq::<(Seq<char>, IndexEntry)>::empty(),
            r@.reverse == Seq::<(Seq<char>, Seq<char>)>::empty(),
    {
        LocalSecondaryIndex::new(self.name, self.sort_key, self.projection, table_schema)
    }
}

} // verus!
