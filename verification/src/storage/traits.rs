//! The storage backend that a table keeps its encoded items in.

use crate::error::{StorageError, StorageResult};
use vstd::prelude::*;

verus! {

/// The content of a list of optional values.
pub open spec fn optional_bytes_view(v: Seq<Option<Vec<u8>>>) -> Seq<Option<Seq<u8>>> {
    Seq::new(
        v.len(),
        |i: int|
            match v[i] {
                Some(b) => Some(b@),
                None => None,
            },
    )
}

/// A store of bytes under text keys.
pub trait Storage {
    /// What the store holds: the value under every key. A store whose code is
    /// not verified need not say; it then counts as holding nothing.
    open spec fn contents(&self) -> Map<Seq<char>, Seq<u8>> {
        Map::empty()
    }

    /// The store is in a state that its operations can work on.
    open spec fn inv(&self) -> bool {
        true
    }

    /// Stores `value` under `key`, in place of what was there. A store that
    /// fails holds what it held.
    fn put(&mut self, key: &str, value: Vec<u8>) -> (r: StorageResult<()>)
        requires
            old(self).inv(),
        ensures
            final(self).inv(),
            r is Ok ==> final(self).contents() == old(self).contents().insert(key@, value@),
            r is Err ==> final(self).contents() == old(self).contents(),
    ;

    /// The value under `key`.
    fn get(&self, key: &str) -> (r: StorageResult<Option<Vec<u8>>>)
        requires
            self.inv(),
        ensures
            match r {
                Ok(Some(v)) => self.contents().contains_key(key@) && self.contents()[key@] == v@,
                Ok(None) => !self.contents().contains_key(key@),
                Err(_) => true,
            },
    ;

    /// Removes the value under `key`; succeeds where there is none.
    fn delete(&mut self, key: &str) -> (r: StorageResult<()>)
        requires
            old(self).inv(),
        ensures
            final(self).inv(),
            r is Ok ==> final(self).contents() == old(self).contents().remove(key@),
            r is Err ==> final(self).contents() == old(self).contents(),
    ;

    /// Whether a value is stored under `key`.
    fn has_key(&self, key: &str) -> (r: StorageResult<bool>)
        requires
            self.inv(),
        ensures
            r matches Ok(b) ==> b == self.contents().contains_key(key@),
    ;

    /// The number of values stored.
    fn len(&self) -> (r: usize)
        requires
            self.inv(),
        ensures
            r == self.contents().len(),
    ;

    /// Whether nothing is stored.
    fn is_empty(&self) -> (r: bool)
        requires
            self.inv(),
        ensures
            r == (self.contents().len() == 0),
    ;
}

/// Operations that every store has, built from the basic ones.
pub trait StorageExt: Storage {
    /// Stores `value` under `key` where nothing is stored there; fails with
    /// `KeyAlreadyExists` where something is.
    fn put_if_not_exists(&mut self, key: &str, value: Vec<u8>) -> (r: StorageResult<()>)
        requires
            old(self).inv(),
        ensures
            final(self).inv(),
            r is Ok ==> !old(self).contents().contains_key(key@) && final(self).contents() == old(
                self,
            ).contents().insert(key@, value@),
            r is Err ==> final(self).contents() == old(self).contents(),
            old(self).contents().contains_key(key@) ==> r is Err,
    ;

    /// The value under `key`; fails with `KeyNotFound` where there is none.
    fn get_or_error(&self, key: &str) -> (r: StorageResult<Vec<u8>>)
        requires
            self.inv(),
        ensures
            r matches Ok(v) ==> self.contents().contains_key(key@) && self.contents()[key@] == v@,
            !self.contents().contains_key(key@) ==> r is Err,
    ;

    /// Replaces the value under `key`; fails with `KeyNotFound` where there is
    /// none.
    fn update(&mut self, key: &str, value: Vec<u8>) -> (r: StorageResult<()>)
        requires
            old(self).inv(),
        ensures
            final(self).inv(),
            r is Ok ==> old(self).contents().contains_key(key@) && final(self).contents() == old(
                self,
            ).contents().insert(key@, value@),
            r is Err ==> final(self).contents() == old(self).contents(),
            !old(self).contents().contains_key(key@) ==> r is Err,
    ;

    /// The values under several keys, in the order of the keys.
    fn get_many(&self, keys: &Vec<&str>) -> (r: StorageResult<Vec<Option<Vec<u8>>>>)
        requires
            self.inv(),
        ensures
            r matches Ok(v) ==> v@.len() == keys@.len() && forall|i: int|
                0 <= i < keys@.len() ==> (#[trigger] optional_bytes_view(v@)[i]) == (if self.contents().contains_key(
                    keys@[i]@,
                ) {
                    Some(self.contents()[keys@[i]@])
                } else {
                    None
                }),
    ;

    /// Removes the value under `key` and hands it back.
    fn delete_and_get_old(&mut self, key: &str) -> (r: StorageResult<Option<Vec<u8>>>)
        requires
            old(self).inv(),
        ensures
            final(self).inv(),
            match r {
                Ok(Some(v)) => old(self).contents().contains_key(key@) && old(self).contents()[key@]
                    == v@ && final(self).contents() == old(self).contents().remove(key@),
                Ok(None) => !old(self).contents().contains_key(key@) && final(self).contents()
                    == old(self).contents().remove(key@),
                Err(_) => final(self).contents() == old(self).contents(),
            },
    ;
}

impl<T: Storage> StorageExt for T {
    fn put_if_not_exists(&mut self, key: &str, value: Vec<u8>) -> (r: StorageResult<()>) {
        match self.has_key(key) {
            Ok(true) => {
                return Err(StorageError::already_exists(key));
            },
            Ok(false) => {},
            Err(e) => {
                return Err(e);
            },
        }
        self.put(key, value)
    }

    fn get_or_error(&self, key: &str) -> (r: StorageResult<Vec<u8>>) {
        match self.get(key) {
            Ok(Some(v)) => Ok(v),
            Ok(None) => Err(StorageError::not_found(key)),
            Err(e) => Err(e),
        }
    }

    fn update(&mut self, key: &str, value: Vec<u8>) -> (r: StorageResult<()>) {
        match self.has_key(key) {
            Ok(false) => {
                return Err(StorageError::not_found(key));
            },
            Ok(true) => {},
            Err(e) => {
                return Err(e);
            },
        }
        self.put(key, value)
    }

    fn get_many(&self, keys: &Vec<&str>) -> (r: StorageResult<Vec<Option<Vec<u8>>>>) {
        let mut out: Vec<Option<Vec<u8>>> = Vec::new();
        let mut i: usize = 0;
        while i < keys.len()
            invariant
                i <= keys.len(),
                self.inv(),
                out@.len() == i,
                forall|j: int|
                    0 <= j < i ==> (#[trigger] optional_bytes_view(out@)[j]) == (if self.contents().contains_key(
                        keys@[j]@,
                    ) {
                        Some(self.contents()[keys@[j]@])
                    } else {
                        None
                    }),
            decreases keys.len() - i,
        {
            let v = match self.get(keys[i]) {
                Ok(v) => v,
                Err(e) => {
                    return Err(e);
                },
            };
            let ghost before = out@;
            out.push(v);
            proof {
                assert forall|j: int| 0 <= j < i + 1 implies (#[trigger] optional_bytes_view(
                    out@,
                )[j]) == (if self.contents().contains_key(keys@[j]@) {
                    Some(self.contents()[keys@[j]@])
                } else {
                    None
                }) by {
                    if j < i {
                        assert(optional_bytes_view(out@)[j] == optional_bytes_view(before)[j]);
                    }
                }
            }
            i += 1;
        }
        Ok(out)
    }

    fn delete_and_get_old(&mut self, key: &str) -> (r: StorageResult<Option<Vec<u8>>>) {
        let value = match self.get(key) {
            Ok(v) => v,
            Err(e) => {
                return Err(e);
            },
        };
        match self.delete(key) {
            Ok(_) => Ok(value),
            Err(e) => Err(e),
        }
    }
}

} // verus!
