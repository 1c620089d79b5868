//! The two maps of an index: the entries under their index keys, and for
//! every table key the index key of its entry.

use crate::sorted::{
    inserted, lemma_mapped_inserted, lemma_mapped_lookup, lemma_mapped_removed, lookup, mapped,
    removed, sorted, SortedMap,
};
use crate::text::text_bytes;
use vstd::prelude::*;
use vstd::string::StringSliceAdditionalSpecFns;

verus! {

/// The characters that a string holds.
pub open spec fn text_view() -> spec_fn(String) -> Seq<char> {
    |s: String| s@
}

/// The index key that every table key points at.
pub type ReverseView = Seq<(Seq<char>, Seq<char>)>;

/// The data that is left when the entry of a table key is removed.
pub open spec fn data_without<V>(
    data: Seq<(Seq<char>, V)>,
    reverse: ReverseView,
    table_key: Seq<char>,
) -> Seq<(Seq<char>, V)> {
    match lookup::<String, Seq<char>>(reverse, text_bytes(table_key)) {
        Some(index_key) => removed::<String, V>(data, text_bytes(index_key)),
        None => data,
    }
}

/// The value that the entry of a table key holds.
pub open spec fn value_of<V>(
    data: Seq<(Seq<char>, V)>,
    reverse: ReverseView,
    table_key: Seq<char>,
) -> Option<V> {
    match lookup::<String, Seq<char>>(reverse, text_bytes(table_key)) {
        Some(index_key) => lookup::<String, V>(data, text_bytes(index_key)),
        None => None,
    }
}

/// The storage of an index.
#[derive(Debug)]
pub struct IndexStorage<V> {
    /// The entries under their index keys.
    pub data: SortedMap<String, V>,
    /// For every table key the index key of its entry.
    pub reverse_index: SortedMap<String, String>,
}

impl<V> IndexStorage<V> {
    /// The entries under their index keys, in ascending order.
    pub open spec fn entries(&self) -> Seq<(Seq<char>, V)> {
        self.data@
    }

    /// For every table key the index key of its entry, in ascending order of
    /// the table keys.
    pub open spec fn reverse(&self) -> ReverseView {
        mapped::<String, String, Seq<char>>(self.reverse_index@, text_view())
    }

    /// Both maps have their keys in strictly ascending order.
    pub open spec fn wf(&self) -> bool {
        sorted::<String, V>(self.entries()) && sorted::<String, Seq<char>>(self.reverse())
    }

    /// An empty storage.
    pub fn new() -> (r: Self)
        ensures
            r.entries() == Seq::<(Seq<char>, V)>::empty(),
            r.reverse() == Seq::<(Seq<char>, Seq<char>)>::empty(),
            r.wf(),
    {
        let r = IndexStorage { data: SortedMap::new(), reverse_index: SortedMap::new() };
        proof {
            assert(r.reverse() =~= Seq::<(Seq<char>, Seq<char>)>::empty());
        }
        r
    }

    /// Stores `value` under `index_key` as the entry of `table_key`, in place
    /// of the entry that the table key had; hands back the value of that
    /// entry.
    pub fn put(&mut self, table_key: String, index_key: String, value: V) -> (prev: Option<V>)
        ensures
            prev == value_of(old(self).entries(), old(self).reverse(), table_key@),
            final(self).entries() == inserted::<String, V>(
                data_without(old(self).entries(), old(self).reverse(), table_key@),
                index_key@,
                value,
            ),
            final(self).reverse() == inserted::<String, Seq<char>>(
                removed::<String, Seq<char>>(old(self).reverse(), text_bytes(table_key@)),
                table_key@,
                index_key@,
            ),
            old(self).wf() ==> final(self).wf(),
    {
        let prev = self.remove_by_table_key(table_key.as_str());
        proof {
            lemma_mapped_inserted::<String, String, Seq<char>>(
                self.reverse_index@,
                text_view(),
                table_key@,
                index_key,
            );
            if self.wf() {
                crate::sorted::lemma_inserted_sorted::<String, Seq<char>>(
                    self.reverse(),
                    table_key@,
                    index_key@,
                );
            }
        }
        let data_key = index_key.clone();
        self.reverse_index.insert(table_key, index_key);
        self.data.insert(data_key, value);
        prev
    }

    /// The value under `index_key`.
    pub fn get(&self, index_key: &str) -> (r: Option<&V>)
        ensures
            match r {
                Some(v) => lookup::<String, V>(self.entries(), text_bytes(index_key@)) == Some(*v),
                None => lookup::<String, V>(self.entries(), text_bytes(index_key@)).is_none(),
            },
    {
        self.data.get(index_key.as_bytes())
    }

    /// Removes the entry of `table_key` and hands back its value.
    pub fn remove_by_table_key(&mut self, table_key: &str) -> (prev: Option<V>)
        ensures
            prev == value_of(old(self).entries(), old(self).reverse(), table_key@),
            final(self).entries() == data_without(
                old(self).entries(),
                old(self).reverse(),
                table_key@,
            ),
            final(self).reverse() == removed::<String, Seq<char>>(
                old(self).reverse(),
                text_bytes(table_key@),
            ),
            old(self).wf() ==> final(self).wf(),
    {
        proof {
            lemma_mapped_lookup::<String, String, Seq<char>>(
                self.reverse_index@,
                text_view(),
                text_bytes(table_key@),
            );
            lemma_mapped_removed::<String, String, Seq<char>>(
                self.reverse_index@,
                text_view(),
                text_bytes(table_key@),
            );
            if self.wf() {
                crate::sorted::lemma_removed_sorted::<String, Seq<char>>(
                    self.reverse(),
                    text_bytes(table_key@),
                );
            }
        }
        match self.reverse_index.remove(table_key.as_bytes()) {
            Some(index_key) => self.data.remove(index_key.as_str().as_bytes()),
            None => None,
        }
    }

    /// Removes everything.
    pub fn clear(&mut self)
        ensures
            final(self).entries() == Seq::<(Seq<char>, V)>::empty(),
            final(self).reverse() == Seq::<(Seq<char>, Seq<char>)>::empty(),
            final(self).wf(),
    {
        self.data.clear();
        self.reverse_index.clear();
        proof {
            assert(self.reverse() =~= Seq::<(Seq<char>, Seq<char>)>::empty());
        }
    }

    /// The values, in ascending order of their index keys.
    pub fn values(&self) -> (r: Vec<&V>)
        ensures
            r@.len() == self.entries().len(),
            forall|i: int| 0 <= i < r@.len() ==> *(#[trigger] r@[i]) == self.entries()[i].1,
    {
        let mut out: Vec<&V> = Vec::new();
        let mut i: usize = 0;
        while i < self.data.len()
            invariant
                i <= self.data@.len(),
                out@.len() == i,
                forall|j: int| 0 <= j < i ==> *(#[trigger] out@[j]) == self.entries()[j].1,
            decreases self.data@.len() - i,
        {
            out.push(self.data.value_at(i));
            i += 1;
        }
        out
    }

    /// The number of entries.
    pub fn len(&self) -> (r: usize)
        ensures
            r == self.entries().len(),
    {
        self.data.len()
    }

    /// Whether there is no entry.
    pub fn is_empty(&self) -> (r: bool)
        ensures
            r == (self.entries().len() == 0),
    {
        self.data.is_empty()
    }

    /// The entries, in ascending order of their index keys.
    pub fn iter(&self) -> (r: Vec<(&String, &V)>)
        ensures
            r@.len() == self.entries().len(),
            forall|i: int|
                0 <= i < r@.len() ==> (#[trigger] r@[i]).0@ == self.entries()[i].0 && *r@[i].1
                    == self.entries()[i].1,
    {
        let mut out: Vec<(&String, &V)> = Vec::new();
        let mut i: usize = 0;
        while i < self.data.len()
            invariant
                i <= self.data@.len(),
                out@.len() == i,
                forall|j: int|
                    0 <= j < i ==> (#[trigger] out@[j]).0@ == self.entries()[j].0 && *out@[j].1
                        == self.entries()[j].1,
            decreases self.data@.len() - i,
        {
            out.push((self.data.key_at(i), self.data.value_at(i)));
            i += 1;
        }
        out
    }

    /// The number of table keys that have an entry.
    pub fn reverse_index_len(&self) -> (r: usize)
        ensures
            r == self.reverse().len(),
    {
        self.reverse_index.len()
    }
}

impl<V> Default for IndexStorage<V> {
    fn default() -> (r: Self)
        ensures
            r.entries() == Seq::<(Seq<char>, V)>::empty(),
            r.wf(),
    {
        IndexStorage::new()
    }
}

} // verus!
