//! A storage backend that keeps everything in memory.

use crate::bytes::{bytes_start_with, copy_bytes};
use crate::error::StorageResult;
use crate::sorted::{
    as_map, inserted, lemma_as_map_inserted, lemma_as_map_len, lemma_as_map_removed,
    lemma_mapped_inserted, lemma_mapped_lookup, lemma_mapped_removed, lemma_inserted_sorted,
    lemma_removed_sorted, lookup, mapped, present, removed, sorted, SortedMap,
};
use crate::storage::traits::Storage;
use crate::text::{owned, text_bytes, text_starts_with};
use vstd::prelude::*;
use vstd::string::StringSliceAdditionalSpecFns;

verus! {

/// What a store holds: its keys in ascending order, each with its value.
pub type Stored = Seq<(Seq<char>, Seq<u8>)>;

/// The bytes that a vector holds.
pub open spec fn bytes_view() -> spec_fn(Vec<u8>) -> Seq<u8> {
    |v: Vec<u8>| v@
}

/// The sum of the lengths of the values from index `i` on, or the largest
/// number where the sum is larger.
pub open spec fn total_bytes(s: Stored, i: nat) -> nat
    decreases s.len() - i,
{
    if i >= s.len() {
        0
    } else {
        let rest = total_bytes(s, i + 1);
        if s[i as int].1.len() + rest > usize::MAX {
            usize::MAX as nat
        } else {
            s[i as int].1.len() + rest
        }
    }
}

/// The content of a list of keys.
pub open spec fn keys_view(keys: Seq<String>) -> Seq<Seq<char>> {
    Seq::new(keys.len(), |i: int| keys[i]@)
}

/// The keys that start with `prefix` among the first `n` entries, in their
/// order.
pub open spec fn prefix_keys(s: Stored, prefix: Seq<char>, n: nat) -> Seq<Seq<char>>
    decreases n,
{
    if n == 0 || n > s.len() {
        Seq::empty()
    } else {
        let before = prefix_keys(s, prefix, (n - 1) as nat);
        if text_starts_with(s[n - 1].0, prefix) {
            before.push(s[n - 1].0)
        } else {
            before
        }
    }
}

/// A store in memory. It is not made for several threads at once.
#[derive(Debug)]
pub struct MemoryStorage {
    /// The values under their keys, in ascending order of the keys.
    pub data: SortedMap<String, Vec<u8>>,
}

impl MemoryStorage {
    /// What the store holds, in ascending order of the keys.
    pub open spec fn entries(&self) -> Stored {
        mapped::<String, Vec<u8>, Seq<u8>>(self.data@, bytes_view())
    }

    /// The keys ascend strictly, so no key occurs twice.
    pub open spec fn wf(&self) -> bool {
        sorted::<String, Seq<u8>>(self.entries())
    }

    /// An empty store.
    pub fn new() -> (r: Self)
        ensures
            r.entries() == Seq::<(Seq<char>, Seq<u8>)>::empty(),
            r.wf(),
    {
        let r = MemoryStorage { data: SortedMap::new() };
        proof {
            assert(r.entries() =~= Seq::<(Seq<char>, Seq<u8>)>::empty());
        }
        r
    }

    /// An empty store; the capacity is a hint only.
    pub fn with_capacity(capacity: usize) -> (r: Self)
        ensures
            r.entries() == Seq::<(Seq<char>, Seq<u8>)>::empty(),
            r.wf(),
    {
        MemoryStorage::new()
    }

    /// Removes everything.
    pub fn clear(&mut self)
        ensures
            final(self).entries() == Seq::<(Seq<char>, Seq<u8>)>::empty(),
            final(self).wf(),
    {
        self.data.clear();
        proof {
            assert(self.entries() =~= Seq::<(Seq<char>, Seq<u8>)>::empty());
        }
    }

    /// The number of entries.
    pub fn entry_count(&self) -> (r: usize)
        ensures
            r == self.entries().len(),
    {
        self.data.len()
    }

    /// The key of the entry at `i`, counted in ascending order of the keys.
    pub fn key_at(&self, i: usize) -> (r: &str)
        requires
            i < self.entries().len(),
        ensures
            r@ == self.entries()[i as int].0,
    {
        self.data.key_at(i).as_str()
    }

    /// The value of the entry at `i`, counted in ascending order of the keys.
    pub fn value_at(&self, i: usize) -> (r: &Vec<u8>)
        requires
            i < self.entries().len(),
        ensures
            r@ == self.entries()[i as int].1,
    {
        self.data.value_at(i)
    }

    /// The value under `key`.
    pub fn read(&self, key: &str) -> (r: Option<&Vec<u8>>)
        ensures
            match r {
                Some(v) => lookup::<String, Seq<u8>>(self.entries(), text_bytes(key@)) == Some(v@),
                None => lookup::<String, Seq<u8>>(self.entries(), text_bytes(key@)).is_none(),
            },
    {
        proof {
            lemma_mapped_lookup::<String, Vec<u8>, Seq<u8>>(
                self.data@,
                bytes_view(),
                text_bytes(key@),
            );
        }
        self.data.get(key.as_bytes())
    }

    /// Whether a value is stored under `key`.
    pub fn holds(&self, key: &str) -> (r: bool)
        ensures
            r == present::<String, Seq<u8>>(self.entries(), text_bytes(key@)),
    {
        proof {
            lemma_mapped_lookup::<String, Vec<u8>, Seq<u8>>(
                self.data@,
                bytes_view(),
                text_bytes(key@),
            );
        }
        self.data.contains_key(key.as_bytes())
    }

    /// Stores `value` under `key`, in place of what was there.
    pub fn write(&mut self, key: &str, value: Vec<u8>)
        ensures
            final(self).entries() == inserted::<String, Seq<u8>>(
                old(self).entries(),
                key@,
                value@,
            ),
            old(self).wf() ==> final(self).wf(),
    {
        proof {
            lemma_mapped_inserted::<String, Vec<u8>, Seq<u8>>(
                self.data@,
                bytes_view(),
                key@,
                value,
            );
            if self.wf() {
                lemma_inserted_sorted::<String, Seq<u8>>(self.entries(), key@, value@);
            }
        }
        self.data.insert(owned(key), value);
    }

    /// Removes the value under `key`.
    pub fn erase(&mut self, key: &str)
        ensures
            final(self).entries() == removed::<String, Seq<u8>>(
                old(self).entries(),
                text_bytes(key@),
            ),
            old(self).wf() ==> final(self).wf(),
    {
        proof {
            lemma_mapped_removed::<String, Vec<u8>, Seq<u8>>(
                self.data@,
                bytes_view(),
                text_bytes(key@),
            );
            if self.wf() {
                lemma_removed_sorted::<String, Seq<u8>>(self.entries(), text_bytes(key@));
            }
        }
        self.data.remove(key.as_bytes());
    }

    /// The keys, in ascending order.
    pub fn keys(&self) -> (r: Vec<String>)
        ensures
            r@.len() == self.entries().len(),
            forall|i: int| 0 <= i < r@.len() ==> (#[trigger] r@[i])@ == self.entries()[i].0,
    {
        let mut out: Vec<String> = Vec::new();
        let mut i: usize = 0;
        while i < self.data.len()
            invariant
                i <= self.data@.len(),
                out@.len() == i,
                forall|j: int| 0 <= j < i ==> (#[trigger] out@[j])@ == self.entries()[j].0,
            decreases self.data@.len() - i,
        {
            out.push(self.data.key_at(i).clone());
            i += 1;
        }
        out
    }

    /// The entries, in ascending order of the keys.
    pub fn iter(&self) -> (r: Vec<(String, Vec<u8>)>)
        ensures
            r@.len() == self.entries().len(),
            forall|i: int|
                0 <= i < r@.len() ==> (#[trigger] r@[i]).0@ == self.entries()[i].0 && r@[i].1@
                    == self.entries()[i].1,
    {
        let mut out: Vec<(String, Vec<u8>)> = Vec::new();
        let mut i: usize = 0;
        while i < self.data.len()
            invariant
                i <= self.data@.len(),
                out@.len() == i,
                forall|j: int|
                    0 <= j < i ==> (#[trigger] out@[j]).0@ == self.entries()[j].0 && out@[j].1@
                        == self.entries()[j].1,
            decreases self.data@.len() - i,
        {
            out.push((self.data.key_at(i).clone(), copy_bytes(self.data.value_at(i).as_slice())));
            i += 1;
        }
        out
    }

    /// The keys that start with `prefix`, in ascending order.
    pub fn keys_with_prefix(&self, prefix: &str) -> (r: Vec<String>)
        ensures
            keys_view(r@) == prefix_keys(self.entries(), prefix@, self.entries().len()),
    {
        let mut out: Vec<String> = Vec::new();
        let mut i: usize = 0;
        proof {
            assert(keys_view(out@) =~= prefix_keys(self.entries(), prefix@, 0));
        }
        while i < self.data.len()
            invariant
                i <= self.data@.len(),
                keys_view(out@) == prefix_keys(self.entries(), prefix@, i as nat),
            decreases self.data@.len() - i,
        {
            let k = self.data.key_at(i);
            let ghost before = out@;
            if bytes_start_with(k.as_str().as_bytes(), prefix.as_bytes()) {
                out.push(k.clone());
                proof {
                    assert(keys_view(out@) =~= keys_view(before).push(self.entries()[i as int].0));
                }
            }
            i += 1;
        }
        out
    }

    /// The number of keys that start with `prefix`.
    pub fn count_with_prefix(&self, prefix: &str) -> (r: usize)
        ensures
            r == prefix_keys(self.entries(), prefix@, self.entries().len()).len(),
    {
        let keys = self.keys_with_prefix(prefix);
        proof {
            assert(keys_view(keys@).len() == keys@.len());
        }
        keys.len()
    }

    /// The sum of the lengths of all values, or the largest number where the
    /// sum is larger.
    pub fn total_value_bytes(&self) -> (r: usize)
        ensures
            r == total_bytes(self.entries(), 0),
    {
        let mut sum: usize = 0;
        let mut i: usize = self.data.len();
        while i > 0
            invariant
                i <= self.data@.len(),
                sum == total_bytes(self.entries(), i as nat),
            decreases i,
        {
            i -= 1;
            let n = self.data.value_at(i).len();
            sum = if n > usize::MAX - sum {
                usize::MAX
            } else {
                n + sum
            };
        }
        sum
    }

    /// A copy with the same content.
    pub fn duplicate(&self) -> (r: Self)
        ensures
            r.entries() == self.entries(),
    {
        let mut out: Vec<(String, Vec<u8>)> = Vec::new();
        let mut i: usize = 0;
        while i < self.data.len()
            invariant
                i <= self.data@.len(),
                out@.len() == i,
                forall|j: int|
                    0 <= j < i ==> (#[trigger] out@[j]).0@ == self.entries()[j].0 && out@[j].1@
                        == self.entries()[j].1,
            decreases self.data@.len() - i,
        {
            out.push((self.data.key_at(i).clone(), copy_bytes(self.data.value_at(i).as_slice())));
            i += 1;
        }
        let r = MemoryStorage { data: SortedMap { entries: out } };
        proof {
            assert(r.entries() =~= self.entries());
        }
        r
    }
}

impl Clone for MemoryStorage {
    fn clone(&self) -> (r: Self)
        ensures
            r.entries() == self.entries(),
    {
        self.duplicate()
    }
}

impl Default for MemoryStorage {
    fn default() -> (r: Self)
        ensures
            r.entries() == Seq::<(Seq<char>, Seq<u8>)>::empty(),
            r.wf(),
    {
        MemoryStorage::new()
    }
}

impl Storage for MemoryStorage {
    open spec fn contents(&self) -> Map<Seq<char>, Seq<u8>> {
        as_map::<String, Seq<u8>>(self.entries())
    }

    open spec fn inv(&self) -> bool {
        self.wf()
    }

    fn put(&mut self, key: &str, value: Vec<u8>) -> (r: StorageResult<()>)
        ensures
            r is Ok,
    {
        proof {
            lemma_as_map_inserted::<String, Seq<u8>>(self.entries(), key@, value@);
        }
        self.write(key, value);
        Ok(())
    }

    fn get(&self, key: &str) -> (r: StorageResult<Option<Vec<u8>>>)
        ensures
            r is Ok,
    {
        match self.read(key) {
            Some(v) => Ok(Some(copy_bytes(v.as_slice()))),
            None => Ok(None),
        }
    }

    fn delete(&mut self, key: &str) -> (r: StorageResult<()>)
        ensures
            r is Ok,
    {
        proof {
            lemma_as_map_removed::<String, Seq<u8>>(self.entries(), key@);
        }
        self.erase(key);
        Ok(())
    }

    fn has_key(&self, key: &str) -> (r: StorageResult<bool>)
        ensures
            r is Ok,
    {
        Ok(self.holds(key))
    }

    fn len(&self) -> (r: usize) {
        proof {
            lemma_as_map_len::<String, Seq<u8>>(self.entries());
        }
        self.data.len()
    }

    fn is_empty(&self) -> (r: bool) {
        proof {
            lemma_as_map_len::<String, Seq<u8>>(self.entries());
        }
        self.data.len() == 0
    }
}

} // verus!
