//! Maps and sets that keep their entries in ascending key order.
//!
//! A key is ordered by its bytes (a string by its UTF-8 encoding), so walking
//! a container from front to back always yields the same, canonical order.

use crate::bytes::{
    compare_bytes, copy_bytes, lemma_lex_asymmetric, lemma_lex_irreflexive, lemma_lex_total,
    lemma_lex_transitive, lex_lt, Rank,
};
use crate::text::{lemma_text_bytes_injective, text_bytes};
use vstd::prelude::*;
use vstd::string::StringSliceAdditionalSpecFns;

verus! {

/// A key that is ordered by a byte string.
pub trait ByteKey: View + Sized {
    /// The bytes that order a key, given by the key's view.
    spec fn bytes_of(v: Self::V) -> Seq<u8>;

    /// Keys with the same bytes are the same key.
    proof fn lemma_bytes_injective(a: Self::V, b: Self::V)
        requires
            Self::bytes_of(a) == Self::bytes_of(b),
        ensures
            a == b,
    ;

    /// The bytes of this key.
    fn key_bytes(&self) -> (r: &[u8])
        ensures
            r@ == Self::bytes_of(self@),
    ;

    /// A copy of this key.
    fn duplicate(&self) -> (r: Self)
        ensures
            r@ == self@,
    ;
}

impl ByteKey for String {
    open spec fn bytes_of(v: Seq<char>) -> Seq<u8> {
        text_bytes(v)
    }

    proof fn lemma_bytes_injective(a: Seq<char>, b: Seq<char>) {
        lemma_text_bytes_injective(a, b);
    }

    fn key_bytes(&self) -> (r: &[u8]) {
        self.as_str().as_bytes()
    }

    fn duplicate(&self) -> (r: Self) {
        self.clone()
    }
}

impl ByteKey for Vec<u8> {
    open spec fn bytes_of(v: Seq<u8>) -> Seq<u8> {
        v
    }

    proof fn lemma_bytes_injective(a: Seq<u8>, b: Seq<u8>) {
    }

    fn key_bytes(&self) -> (r: &[u8]) {
        self.as_slice()
    }

    fn duplicate(&self) -> (r: Self) {
        copy_bytes(self.as_slice())
    }
}

/// What names a key when a map or a set is searched: a text, or bytes.
pub trait KeyName {
    /// The bytes of the key that is meant.
    spec fn name_bytes(&self) -> Seq<u8>;

    /// The bytes of the key that is meant.
    fn as_name_bytes(&self) -> (r: &[u8])
        ensures
            r@ == self.name_bytes(),
    ;
}

impl KeyName for &str {
    open spec fn name_bytes(&self) -> Seq<u8> {
        text_bytes(self@)
    }

    fn as_name_bytes(&self) -> (r: &[u8]) {
        self.as_bytes()
    }
}

impl KeyName for &String {
    open spec fn name_bytes(&self) -> Seq<u8> {
        text_bytes(self@)
    }

    fn as_name_bytes(&self) -> (r: &[u8]) {
        self.as_str().as_bytes()
    }
}

impl KeyName for &[u8] {
    open spec fn name_bytes(&self) -> Seq<u8> {
        self@
    }

    fn as_name_bytes(&self) -> (r: &[u8]) {
        self
    }
}

impl KeyName for &Vec<u8> {
    open spec fn name_bytes(&self) -> Seq<u8> {
        self@
    }

    fn as_name_bytes(&self) -> (r: &[u8]) {
        self.as_slice()
    }
}

/// The keys of `s` ascend strictly.
pub open spec fn sorted<K: ByteKey, V>(s: Seq<(K::V, V)>) -> bool {
    forall|i: int, j: int|
        0 <= i < j < s.len() ==> lex_lt(K::bytes_of(#[trigger] s[i].0), K::bytes_of(#[trigger] s[j].0))
}

/// The number of leading entries of `s` whose key is below `key`.
pub open spec fn position<K: ByteKey, V>(s: Seq<(K::V, V)>, key: Seq<u8>) -> int
    decreases s.len(),
{
    if s.len() == 0 || !lex_lt(K::bytes_of(s[0].0), key) {
        0
    } else {
        1 + position::<K, V>(s.skip(1), key)
    }
}

/// The entry at the position of `key` has that key.
pub open spec fn present<K: ByteKey, V>(s: Seq<(K::V, V)>, key: Seq<u8>) -> bool {
    let p = position::<K, V>(s, key);
    0 <= p < s.len() && K::bytes_of(s[p].0) == key
}

/// The value stored under `key`, if any.
pub open spec fn lookup<K: ByteKey, V>(s: Seq<(K::V, V)>, key: Seq<u8>) -> Option<V> {
    if present::<K, V>(s, key) {
        Some(s[position::<K, V>(s, key)].1)
    } else {
        None
    }
}

/// `s` with `value` stored under `key`: in place of the old value where the key
/// is present, else at the key's position.
pub open spec fn inserted<K: ByteKey, V>(s: Seq<(K::V, V)>, key: K::V, value: V) -> Seq<(K::V, V)> {
    let p = position::<K, V>(s, K::bytes_of(key));
    if present::<K, V>(s, K::bytes_of(key)) {
        s.update(p, (key, value))
    } else {
        s.insert(p, (key, value))
    }
}

/// `s` without the entry of `key`.
pub open spec fn removed<K: ByteKey, V>(s: Seq<(K::V, V)>, key: Seq<u8>) -> Seq<(K::V, V)> {
    if present::<K, V>(s, key) {
        s.remove(position::<K, V>(s, key))
    } else {
        s
    }
}

/// The entries of `s` as a map from key to value.
pub open spec fn as_map<K: ByteKey, V>(s: Seq<(K::V, V)>) -> Map<K::V, V> {
    Map::new(
        |k: K::V| present::<K, V>(s, K::bytes_of(k)),
        |k: K::V| s[position::<K, V>(s, K::bytes_of(k))].1,
    )
}

/// The position lies within the sequence, everything before it is below the
/// key and the entry at it is not.
pub proof fn lemma_position_bounds<K: ByteKey, V>(s: Seq<(K::V, V)>, key: Seq<u8>)
    ensures
        0 <= position::<K, V>(s, key) <= s.len(),
        forall|i: int|
            0 <= i < position::<K, V>(s, key) ==> lex_lt(K::bytes_of((#[trigger] s[i]).0), key),
        position::<K, V>(s, key) < s.len() ==> !lex_lt(
            K::bytes_of(s[position::<K, V>(s, key)].0),
            key,
        ),
    decreases s.len(),
{
    if s.len() == 0 || !lex_lt(K::bytes_of(s[0].0), key) {
    } else {
        let t = s.skip(1);
        lemma_position_bounds::<K, V>(t, key);
        let p = position::<K, V>(s, key);
        assert forall|i: int| 0 <= i < p implies lex_lt(K::bytes_of((#[trigger] s[i]).0), key) by {
            if i > 0 {
                assert(s[i] == t[i - 1]);
            }
        }
        if p < s.len() {
            assert(s[p] == t[p - 1]);
        }
    }
}

/// The position is the one index with everything before it below the key and
/// the entry at it not below.
pub proof fn lemma_position_is<K: ByteKey, V>(s: Seq<(K::V, V)>, key: Seq<u8>, p: int)
    requires
        0 <= p <= s.len(),
        forall|i: int| 0 <= i < p ==> lex_lt(K::bytes_of((#[trigger] s[i]).0), key),
        p < s.len() ==> !lex_lt(K::bytes_of(s[p].0), key),
    ensures
        position::<K, V>(s, key) == p,
    decreases p,
{
    if p > 0 {
        let t = s.skip(1);
        assert(lex_lt(K::bytes_of(s[0].0), key));
        assert forall|i: int| 0 <= i < p - 1 implies lex_lt(
            K::bytes_of((#[trigger] t[i]).0),
            key,
        ) by {
            assert(t[i] == s[i + 1]);
        }
        if p < s.len() {
            assert(t[p - 1] == s[p]);
        }
        lemma_position_is::<K, V>(t, key, p - 1);
    }
}

/// In a sorted sequence every entry sits at the position of its own key.
pub proof fn lemma_sorted_position<K: ByteKey, V>(s: Seq<(K::V, V)>, i: int)
    requires
        sorted::<K, V>(s),
        0 <= i < s.len(),
    ensures
        position::<K, V>(s, K::bytes_of(s[i].0)) == i,
        present::<K, V>(s, K::bytes_of(s[i].0)),
        lookup::<K, V>(s, K::bytes_of(s[i].0)) == Some(s[i].1),
{
    lemma_lex_irreflexive(K::bytes_of(s[i].0));
    lemma_position_is::<K, V>(s, K::bytes_of(s[i].0), i);
}

/// Storing a value keeps the order.
pub proof fn lemma_inserted_sorted<K: ByteKey, V>(s: Seq<(K::V, V)>, key: K::V, value: V)
    requires
        sorted::<K, V>(s),
    ensures
        sorted::<K, V>(inserted::<K, V>(s, key, value)),
{
    let kb = K::bytes_of(key);
    let p = position::<K, V>(s, kb);
    let t = inserted::<K, V>(s, key, value);
    lemma_position_bounds::<K, V>(s, kb);
    if present::<K, V>(s, kb) {
        assert forall|i: int, j: int| 0 <= i < j < t.len() implies lex_lt(
            K::bytes_of(#[trigger] t[i].0),
            K::bytes_of(#[trigger] t[j].0),
        ) by {
            assert(K::bytes_of(t[i].0) == K::bytes_of(s[i].0));
            assert(K::bytes_of(t[j].0) == K::bytes_of(s[j].0));
        }
    } else {
        assert forall|i: int, j: int| 0 <= i < j < t.len() implies lex_lt(
            K::bytes_of(#[trigger] t[i].0),
            K::bytes_of(#[trigger] t[j].0),
        ) by {
            if j < p {
                assert(t[i] == s[i] && t[j] == s[j]);
            } else if j == p {
                assert(t[i] == s[i]);
            } else if i == p {
                assert(t[j] == s[j - 1]);
                lemma_lex_total(kb, K::bytes_of(s[p].0));
                if j - 1 > p {
                    lemma_lex_transitive(kb, K::bytes_of(s[p].0), K::bytes_of(s[j - 1].0));
                }
            } else if i < p {
                assert(t[i] == s[i] && t[j] == s[j - 1]);
            } else {
                assert(t[i] == s[i - 1] && t[j] == s[j - 1]);
            }
        }
    }
}

/// Removing an entry keeps the order.
pub proof fn lemma_removed_sorted<K: ByteKey, V>(s: Seq<(K::V, V)>, key: Seq<u8>)
    requires
        sorted::<K, V>(s),
    ensures
        sorted::<K, V>(removed::<K, V>(s, key)),
{
    let p = position::<K, V>(s, key);
    let t = removed::<K, V>(s, key);
    if present::<K, V>(s, key) {
        assert forall|i: int, j: int| 0 <= i < j < t.len() implies lex_lt(
            K::bytes_of(#[trigger] t[i].0),
            K::bytes_of(#[trigger] t[j].0),
        ) by {
            let si = if i < p { i } else { i + 1 };
            let sj = if j < p { j } else { j + 1 };
            assert(t[i] == s[si] && t[j] == s[sj]);
        }
    }
}

/// A stored value is found under its key.
pub proof fn lemma_lookup_inserted<K: ByteKey, V>(s: Seq<(K::V, V)>, key: K::V, value: V)
    ensures
        lookup::<K, V>(inserted::<K, V>(s, key, value), K::bytes_of(key)) == Some(value),
        present::<K, V>(inserted::<K, V>(s, key, value), K::bytes_of(key)),
{
    let kb = K::bytes_of(key);
    let p = position::<K, V>(s, kb);
    let t = inserted::<K, V>(s, key, value);
    lemma_position_bounds::<K, V>(s, kb);
    lemma_lex_irreflexive(kb);
    assert forall|i: int| 0 <= i < p implies lex_lt(K::bytes_of((#[trigger] t[i]).0), kb) by {
        assert(t[i] == s[i]);
    }
    assert(t[p] == (key, value));
    lemma_position_is::<K, V>(t, kb, p);
}

/// In a sorted sequence a key is present exactly if some entry has it.
pub proof fn lemma_sorted_has<K: ByteKey, V>(s: Seq<(K::V, V)>, key: Seq<u8>)
    requires
        sorted::<K, V>(s),
    ensures
        present::<K, V>(s, key) <==> exists|i: int| 0 <= i < s.len() && K::bytes_of((#[trigger] s[i]).0) == key,
{
    if exists|i: int| 0 <= i < s.len() && K::bytes_of((#[trigger] s[i]).0) == key {
        let i = choose|i: int| 0 <= i < s.len() && K::bytes_of((#[trigger] s[i]).0) == key;
        lemma_sorted_position::<K, V>(s, i);
    }
    if present::<K, V>(s, key) {
        let p = position::<K, V>(s, key);
        assert(0 <= p < s.len() && K::bytes_of(s[p].0) == key);
    }
}

/// Storing a value under one key leaves every other key as it was.
pub proof fn lemma_lookup_inserted_other<K: ByteKey, V>(
    s: Seq<(K::V, V)>,
    key: K::V,
    value: V,
    other: Seq<u8>,
)
    requires
        sorted::<K, V>(s),
        other != K::bytes_of(key),
    ensures
        lookup::<K, V>(inserted::<K, V>(s, key, value), other) == lookup::<K, V>(s, other),
        present::<K, V>(inserted::<K, V>(s, key, value), other) == present::<K, V>(s, other),
{
    let kb = K::bytes_of(key);
    let p = position::<K, V>(s, kb);
    let t = inserted::<K, V>(s, key, value);
    lemma_position_bounds::<K, V>(s, kb);
    lemma_inserted_sorted::<K, V>(s, key, value);
    lemma_sorted_has::<K, V>(s, other);
    lemma_sorted_has::<K, V>(t, other);
    let was = present::<K, V>(s, kb);
    if present::<K, V>(s, other) {
        let i = position::<K, V>(s, other);
        let ti = if was || i < p { i } else { i + 1 };
        assert(t[ti] == s[i]);
        lemma_sorted_position::<K, V>(t, ti);
    } else if present::<K, V>(t, other) {
        let ti = position::<K, V>(t, other);
        assert(ti != p);
        let i = if was || ti < p { ti } else { ti - 1 };
        assert(t[ti] == s[i]);
        assert(K::bytes_of(s[i].0) == other);
    }
}

/// After a removal the key is gone and every other key is as it was.
pub proof fn lemma_lookup_removed<K: ByteKey, V>(s: Seq<(K::V, V)>, key: Seq<u8>, other: Seq<u8>)
    requires
        sorted::<K, V>(s),
    ensures
        !present::<K, V>(removed::<K, V>(s, key), key),
        other != key ==> lookup::<K, V>(removed::<K, V>(s, key), other) == lookup::<K, V>(s, other),
        other != key ==> present::<K, V>(removed::<K, V>(s, key), other) == present::<K, V>(s, other),
{
    let p = position::<K, V>(s, key);
    let t = removed::<K, V>(s, key);
    lemma_removed_sorted::<K, V>(s, key);
    lemma_sorted_has::<K, V>(s, other);
    lemma_sorted_has::<K, V>(t, other);
    lemma_sorted_has::<K, V>(s, key);
    lemma_sorted_has::<K, V>(t, key);
    if present::<K, V>(s, key) {
        if present::<K, V>(t, key) {
            let ti = position::<K, V>(t, key);
            let i = if ti < p { ti } else { ti + 1 };
            assert(t[ti] == s[i]);
            lemma_sorted_position::<K, V>(s, i);
        }
        if other != key {
            if present::<K, V>(s, other) {
                let i = position::<K, V>(s, other);
                let ti = if i < p { i } else { i - 1 };
                assert(t[ti] == s[i]);
                lemma_sorted_position::<K, V>(t, ti);
            } else if present::<K, V>(t, other) {
                let ti = position::<K, V>(t, other);
                let i = if ti < p { ti } else { ti + 1 };
                assert(t[ti] == s[i]);
                assert(K::bytes_of(s[i].0) == other);
            }
        }
    }
}

/// A key above every key of `s` is stored at the end.
pub proof fn lemma_inserted_at_end<K: ByteKey, V>(s: Seq<(K::V, V)>, key: K::V, value: V)
    requires
        forall|i: int| 0 <= i < s.len() ==> lex_lt(K::bytes_of((#[trigger] s[i]).0), K::bytes_of(key)),
    ensures
        inserted::<K, V>(s, key, value) == s.push((key, value)),
{
    lemma_position_is::<K, V>(s, K::bytes_of(key), s.len() as int);
    assert(s.insert(s.len() as int, (key, value)) =~= s.push((key, value)));
}

/// Two sorted sequences with the same entries as maps are the same sequence.
pub proof fn lemma_sorted_unique<K: ByteKey, V>(a: Seq<(K::V, V)>, b: Seq<(K::V, V)>)
    requires
        sorted::<K, V>(a),
        sorted::<K, V>(b),
        as_map::<K, V>(a) == as_map::<K, V>(b),
    ensures
        a == b,
    decreases a.len(),
{
    if a.len() == 0 {
        if b.len() > 0 {
            lemma_sorted_position::<K, V>(b, 0);
            assert(as_map::<K, V>(b).dom().contains(b[0].0));
            assert(as_map::<K, V>(a).dom().contains(b[0].0));
        }
        assert(a =~= b);
    } else {
        let n = a.len() - 1;
        let last = a[n];
        lemma_sorted_position::<K, V>(a, n);
        assert(as_map::<K, V>(a).dom().contains(last.0));
        assert(as_map::<K, V>(b).dom().contains(last.0));
        let q = position::<K, V>(b, K::bytes_of(last.0));
        K::lemma_bytes_injective(b[q].0, last.0);
        assert(as_map::<K, V>(b)[last.0] == b[q].1);
        assert(as_map::<K, V>(a)[last.0] == last.1);
        assert(b[q] == last);
        // nothing of b lies behind q: it would be a key of a above a's last key
        if q + 1 < b.len() {
            let extra = b[q + 1];
            lemma_sorted_position::<K, V>(b, q + 1);
            assert(as_map::<K, V>(b).dom().contains(extra.0));
            assert(as_map::<K, V>(a).dom().contains(extra.0));
            let i = position::<K, V>(a, K::bytes_of(extra.0));
            assert(lex_lt(K::bytes_of(b[q].0), K::bytes_of(b[q + 1].0)));
            if i < n {
                assert(lex_lt(K::bytes_of(a[i].0), K::bytes_of(a[n].0)));
                lemma_lex_asymmetric(K::bytes_of(a[i].0), K::bytes_of(a[n].0));
            } else {
                lemma_lex_irreflexive(K::bytes_of(a[n].0));
            }
            assert(false);
        }
        let a0 = a.take(n);
        let b0 = b.take(q);
        assert(sorted::<K, V>(a0)) by {
            assert forall|i: int, j: int| 0 <= i < j < a0.len() implies lex_lt(
                K::bytes_of(#[trigger] a0[i].0),
                K::bytes_of(#[trigger] a0[j].0),
            ) by {
                assert(a0[i] == a[i] && a0[j] == a[j]);
            }
        }
        assert(sorted::<K, V>(b0)) by {
            assert forall|i: int, j: int| 0 <= i < j < b0.len() implies lex_lt(
                K::bytes_of(#[trigger] b0[i].0),
                K::bytes_of(#[trigger] b0[j].0),
            ) by {
                assert(b0[i] == b[i] && b0[j] == b[j]);
            }
        }
        lemma_take_as_map::<K, V>(a, n);
        lemma_take_as_map::<K, V>(b, q);
        assert(as_map::<K, V>(a0) =~= as_map::<K, V>(b0));
        lemma_sorted_unique::<K, V>(a0, b0);
        assert(a =~= a0.push(last));
        assert(b =~= b0.push(last));
    }
}

/// Without its last entry a sorted sequence is the same map without that key.
pub proof fn lemma_take_as_map<K: ByteKey, V>(s: Seq<(K::V, V)>, n: int)
    requires
        sorted::<K, V>(s),
        0 <= n,
        n + 1 == s.len(),
    ensures
        as_map::<K, V>(s.take(n)) == as_map::<K, V>(s).remove(s[n].0),
{
    let t = s.take(n);
    assert(t =~= removed::<K, V>(s, K::bytes_of(s[n].0))) by {
        lemma_sorted_position::<K, V>(s, n);
    }
    assert forall|k: K::V| #[trigger]
        as_map::<K, V>(t).dom().contains(k) == as_map::<K, V>(s).remove(s[n].0).dom().contains(
            k,
        ) by {
        lemma_lookup_removed::<K, V>(s, K::bytes_of(s[n].0), K::bytes_of(k));
        if K::bytes_of(k) == K::bytes_of(s[n].0) {
            K::lemma_bytes_injective(k, s[n].0);
        }
    }
    assert forall|k: K::V| #[trigger] as_map::<K, V>(t).dom().contains(k) implies as_map::<K, V>(
        t,
    )[k] == as_map::<K, V>(s).remove(s[n].0)[k] by {
        lemma_lookup_removed::<K, V>(s, K::bytes_of(s[n].0), K::bytes_of(k));
        if K::bytes_of(k) == K::bytes_of(s[n].0) {
            K::lemma_bytes_injective(k, s[n].0);
        }
    }
    assert(as_map::<K, V>(t) =~= as_map::<K, V>(s).remove(s[n].0));
}

/// The entries of `s` with every value replaced by its image under `f`.
pub open spec fn mapped<K: ByteKey, V, W>(s: Seq<(K::V, V)>, f: spec_fn(V) -> W) -> Seq<(K::V, W)> {
    Seq::new(s.len(), |i: int| (s[i].0, f(s[i].1)))
}

/// Replacing the values leaves every position as it was.
pub proof fn lemma_mapped_position<K: ByteKey, V, W>(
    s: Seq<(K::V, V)>,
    f: spec_fn(V) -> W,
    key: Seq<u8>,
)
    ensures
        position::<K, W>(mapped::<K, V, W>(s, f), key) == position::<K, V>(s, key),
    decreases s.len(),
{
    if s.len() > 0 {
        assert(mapped::<K, V, W>(s, f)[0].0 == s[0].0);
        assert(mapped::<K, V, W>(s, f).skip(1) =~= mapped::<K, V, W>(s.skip(1), f));
        lemma_mapped_position::<K, V, W>(s.skip(1), f, key);
    }
}

/// Looking a key up commutes with replacing the values.
pub proof fn lemma_mapped_lookup<K: ByteKey, V, W>(
    s: Seq<(K::V, V)>,
    f: spec_fn(V) -> W,
    key: Seq<u8>,
)
    ensures
        present::<K, W>(mapped::<K, V, W>(s, f), key) == present::<K, V>(s, key),
        lookup::<K, W>(mapped::<K, V, W>(s, f), key) == match lookup::<K, V>(s, key) {
            Some(v) => Some(f(v)),
            None => None,
        },
{
    lemma_mapped_position::<K, V, W>(s, f, key);
    lemma_position_bounds::<K, V>(s, key);
}

/// Storing a value commutes with replacing the values.
pub proof fn lemma_mapped_inserted<K: ByteKey, V, W>(
    s: Seq<(K::V, V)>,
    f: spec_fn(V) -> W,
    key: K::V,
    value: V,
)
    ensures
        mapped::<K, V, W>(inserted::<K, V>(s, key, value), f) == inserted::<K, W>(
            mapped::<K, V, W>(s, f),
            key,
            f(value),
        ),
{
    lemma_mapped_position::<K, V, W>(s, f, K::bytes_of(key));
    lemma_position_bounds::<K, V>(s, K::bytes_of(key));
    assert(mapped::<K, V, W>(inserted::<K, V>(s, key, value), f) =~= inserted::<K, W>(
        mapped::<K, V, W>(s, f),
        key,
        f(value),
    ));
}

/// Removing a key commutes with replacing the values.
pub proof fn lemma_mapped_removed<K: ByteKey, V, W>(
    s: Seq<(K::V, V)>,
    f: spec_fn(V) -> W,
    key: Seq<u8>,
)
    ensures
        mapped::<K, V, W>(removed::<K, V>(s, key), f) == removed::<K, W>(
            mapped::<K, V, W>(s, f),
            key,
        ),
{
    lemma_mapped_position::<K, V, W>(s, f, key);
    lemma_position_bounds::<K, V>(s, key);
    assert(mapped::<K, V, W>(removed::<K, V>(s, key), f) =~= removed::<K, W>(
        mapped::<K, V, W>(s, f),
        key,
    ));
}

/// Replacing the values keeps the order of the keys.
pub proof fn lemma_mapped_sorted<K: ByteKey, V, W>(s: Seq<(K::V, V)>, f: spec_fn(V) -> W)
    ensures
        sorted::<K, W>(mapped::<K, V, W>(s, f)) == sorted::<K, V>(s),
{
    let t = mapped::<K, V, W>(s, f);
    if sorted::<K, V>(s) {
        assert forall|i: int, j: int| 0 <= i < j < t.len() implies lex_lt(
            K::bytes_of(#[trigger] t[i].0),
            K::bytes_of(#[trigger] t[j].0),
        ) by {
            assert(t[i].0 == s[i].0 && t[j].0 == s[j].0);
        }
    }
    if sorted::<K, W>(t) {
        assert forall|i: int, j: int| 0 <= i < j < s.len() implies lex_lt(
            K::bytes_of(#[trigger] s[i].0),
            K::bytes_of(#[trigger] s[j].0),
        ) by {
            assert(t[i].0 == s[i].0 && t[j].0 == s[j].0);
        }
    }
}

/// A sorted sequence has as many entries as its map has keys.
pub proof fn lemma_as_map_len<K: ByteKey, V>(s: Seq<(K::V, V)>)
    requires
        sorted::<K, V>(s),
    ensures
        as_map::<K, V>(s).dom().finite(),
        as_map::<K, V>(s).dom().len() == s.len(),
    decreases s.len(),
{
    if s.len() == 0 {
        assert(as_map::<K, V>(s).dom() =~= Set::<K::V>::empty());
    } else {
        let n = s.len() - 1;
        let t = s.take(n);
        assert(sorted::<K, V>(t)) by {
            assert forall|i: int, j: int| 0 <= i < j < t.len() implies lex_lt(
                K::bytes_of(#[trigger] t[i].0),
                K::bytes_of(#[trigger] t[j].0),
            ) by {
                assert(t[i] == s[i] && t[j] == s[j]);
            }
        }
        lemma_as_map_len::<K, V>(t);
        lemma_take_as_map::<K, V>(s, n);
        lemma_sorted_position::<K, V>(s, n);
        assert(as_map::<K, V>(s).dom().contains(s[n].0));
        assert(as_map::<K, V>(s).dom() =~= as_map::<K, V>(t).dom().insert(s[n].0));
        assert(!as_map::<K, V>(t).dom().contains(s[n].0));
    }
}

/// Storing a value in a sorted sequence stores it in the map.
pub proof fn lemma_as_map_inserted<K: ByteKey, V>(s: Seq<(K::V, V)>, key: K::V, value: V)
    requires
        sorted::<K, V>(s),
    ensures
        as_map::<K, V>(inserted::<K, V>(s, key, value)) == as_map::<K, V>(s).insert(key, value),
{
    let t = inserted::<K, V>(s, key, value);
    lemma_lookup_inserted::<K, V>(s, key, value);
    assert forall|k: K::V| #[trigger]
        as_map::<K, V>(t).dom().contains(k) == as_map::<K, V>(s).insert(key, value).dom().contains(
            k,
        ) by {
        if K::bytes_of(k) == K::bytes_of(key) {
            K::lemma_bytes_injective(k, key);
        } else {
            lemma_lookup_inserted_other::<K, V>(s, key, value, K::bytes_of(k));
        }
    }
    assert forall|k: K::V| #[trigger] as_map::<K, V>(t).dom().contains(k) implies as_map::<K, V>(
        t,
    )[k] == as_map::<K, V>(s).insert(key, value)[k] by {
        if K::bytes_of(k) == K::bytes_of(key) {
            K::lemma_bytes_injective(k, key);
        } else {
            lemma_lookup_inserted_other::<K, V>(s, key, value, K::bytes_of(k));
        }
    }
    assert(as_map::<K, V>(t) =~= as_map::<K, V>(s).insert(key, value));
}

/// Removing a key from a sorted sequence removes it from the map.
pub proof fn lemma_as_map_removed<K: ByteKey, V>(s: Seq<(K::V, V)>, key: K::V)
    requires
        sorted::<K, V>(s),
    ensures
        as_map::<K, V>(removed::<K, V>(s, K::bytes_of(key))) == as_map::<K, V>(s).remove(key),
{
    let t = removed::<K, V>(s, K::bytes_of(key));
    assert forall|k: K::V| #[trigger]
        as_map::<K, V>(t).dom().contains(k) == as_map::<K, V>(s).remove(key).dom().contains(
            k,
        ) by {
        lemma_lookup_removed::<K, V>(s, K::bytes_of(key), K::bytes_of(k));
        if K::bytes_of(k) == K::bytes_of(key) {
            K::lemma_bytes_injective(k, key);
        }
    }
    assert forall|k: K::V| #[trigger] as_map::<K, V>(t).dom().contains(k) implies as_map::<K, V>(
        t,
    )[k] == as_map::<K, V>(s).remove(key)[k] by {
        lemma_lookup_removed::<K, V>(s, K::bytes_of(key), K::bytes_of(k));
        if K::bytes_of(k) == K::bytes_of(key) {
            K::lemma_bytes_injective(k, key);
        }
    }
    assert(as_map::<K, V>(t) =~= as_map::<K, V>(s).remove(key));
}

/// Every entry of a sequence after a value was stored is the new entry or an
/// entry of another key that was there before.
pub proof fn lemma_entry_of_inserted<K: ByteKey, V>(s: Seq<(K::V, V)>, key: K::V, value: V, j: int)
    requires
        sorted::<K, V>(s),
        0 <= j < inserted::<K, V>(s, key, value).len(),
    ensures
        inserted::<K, V>(s, key, value)[j] == (key, value) || exists|j0: int|
            0 <= j0 < s.len() && #[trigger] s[j0] == inserted::<K, V>(s, key, value)[j]
                && K::bytes_of(s[j0].0) != K::bytes_of(key),
{
    let kb = K::bytes_of(key);
    let t = inserted::<K, V>(s, key, value);
    let p = position::<K, V>(s, kb);
    lemma_position_bounds::<K, V>(s, kb);
    if j != p {
        let j0 = if present::<K, V>(s, kb) || j < p {
            j
        } else {
            j - 1
        };
        assert(s[j0] == t[j]);
        if K::bytes_of(s[j0].0) == kb {
            lemma_sorted_position::<K, V>(s, j0);
        }
    }
}

/// Every entry of a sequence after a key was removed is an entry of another
/// key that was there before.
pub proof fn lemma_entry_of_removed<K: ByteKey, V>(s: Seq<(K::V, V)>, key: Seq<u8>, j: int)
    requires
        sorted::<K, V>(s),
        0 <= j < removed::<K, V>(s, key).len(),
    ensures
        exists|j0: int|
            0 <= j0 < s.len() && #[trigger] s[j0] == removed::<K, V>(s, key)[j] && K::bytes_of(
                s[j0].0,
            ) != key,
{
    let t = removed::<K, V>(s, key);
    let p = position::<K, V>(s, key);
    lemma_position_bounds::<K, V>(s, key);
    let j0 = if present::<K, V>(s, key) && j >= p {
        j + 1
    } else {
        j
    };
    assert(s[j0] == t[j]);
    if K::bytes_of(s[j0].0) == key {
        lemma_sorted_position::<K, V>(s, j0);
    }
}

/// A value that is found stands in an entry of that key.
pub proof fn lemma_lookup_entry<K: ByteKey, V>(s: Seq<(K::V, V)>, key: Seq<u8>)
    requires
        lookup::<K, V>(s, key) is Some,
    ensures
        0 <= position::<K, V>(s, key) < s.len(),
        K::bytes_of(s[position::<K, V>(s, key)].0) == key,
        s[position::<K, V>(s, key)].1 == lookup::<K, V>(s, key)->0,
{
}

/// A map from keys to values, its entries in ascending key order.
#[derive(Debug)]
pub struct SortedMap<K, V> {
    /// The entries. The methods of this type keep them in ascending key order.
    pub entries: Vec<(K, V)>,
}

impl<K: ByteKey, V> View for SortedMap<K, V> {
    type V = Seq<(K::V, V)>;

    open spec fn view(&self) -> Seq<(K::V, V)> {
        Seq::new(self.entries@.len(), |i: int| (self.entries@[i].0@, self.entries@[i].1))
    }
}

impl<K: ByteKey, V> SortedMap<K, V> {
    /// The keys ascend strictly, so no key occurs twice.
    pub open spec fn wf(&self) -> bool {
        sorted::<K, V>(self@)
    }

    /// An empty map.
    pub fn new() -> (r: Self)
        ensures
            r@ == Seq::<(K::V, V)>::empty(),
            r.wf(),
    {
        let r = SortedMap { entries: Vec::new() };
        proof {
            assert(r@ =~= Seq::<(K::V, V)>::empty());
        }
        r
    }

    /// The number of entries.
    pub fn len(&self) -> (r: usize)
        ensures
            r == self@.len(),
    {
        self.entries.len()
    }

    /// Whether the map has no entry.
    pub fn is_empty(&self) -> (r: bool)
        ensures
            r == (self@.len() == 0),
    {
        self.entries.len() == 0
    }

    /// The position of `key` and whether the entry there has that key.
    pub fn search(&self, key: &[u8]) -> (r: (usize, bool))
        ensures
            r.0 == position::<K, V>(self@, key@),
            r.1 == present::<K, V>(self@, key@),
            r.0 <= self@.len(),
    {
        let mut i: usize = 0;
        proof {
            assert(self@.skip(0) =~= self@);
        }
        while i < self.entries.len()
            invariant
                i <= self.entries.len(),
                position::<K, V>(self@, key@) == i + position::<K, V>(self@.skip(i as int), key@),
            decreases self.entries.len() - i,
        {
            let rank = compare_bytes(self.entries[i].0.key_bytes(), key);
            proof {
                let t = self@.skip(i as int);
                assert(t[0] == self@[i as int]);
                assert(t.skip(1) =~= self@.skip(i + 1));
                lemma_lex_irreflexive(key@);
            }
            match rank {
                Rank::Less => {
                    i += 1;
                },
                Rank::Equal => {
                    return (i, true);
                },
                Rank::Greater => {
                    return (i, false);
                },
            }
        }
        (i, false)
    }

    /// The value stored under `key`.
    pub fn get<Q: KeyName>(&self, key: Q) -> (r: Option<&V>)
        ensures
            match r {
                Some(v) => lookup::<K, V>(self@, key.name_bytes()) == Some(*v),
                None => lookup::<K, V>(self@, key.name_bytes()).is_none(),
            },
    {
        let (i, found) = self.search(key.as_name_bytes());
        if found {
            Some(&self.entries[i].1)
        } else {
            None
        }
    }

    /// Whether a value is stored under `key`.
    pub fn contains_key<Q: KeyName>(&self, key: Q) -> (r: bool)
        ensures
            r == present::<K, V>(self@, key.name_bytes()),
    {
        let (_, found) = self.search(key.as_name_bytes());
        found
    }

    /// Stores `value` under `key` and returns the value that was there.
    pub fn insert(&mut self, key: K, value: V) -> (prev: Option<V>)
        ensures
            final(self)@ == inserted::<K, V>(old(self)@, key@, value),
            prev == lookup::<K, V>(old(self)@, K::bytes_of(key@)),
            old(self).wf() ==> final(self).wf(),
    {
        let (i, found) = self.search(key.key_bytes());
        let ghost before = self@;
        let prev = if found {
            let (_, v) = self.entries.remove(i);
            Some(v)
        } else {
            None
        };
        let ghost k = key@;
        self.entries.insert(i, (key, value));
        proof {
            assert(self@ =~= inserted::<K, V>(before, k, value));
            if sorted::<K, V>(before) {
                lemma_inserted_sorted::<K, V>(before, k, value);
            }
        }
        prev
    }

    /// Removes the entry of `key` and returns its value.
    pub fn remove<Q: KeyName>(&mut self, key: Q) -> (prev: Option<V>)
        ensures
            final(self)@ == removed::<K, V>(old(self)@, key.name_bytes()),
            prev == lookup::<K, V>(old(self)@, key.name_bytes()),
            old(self).wf() ==> final(self).wf(),
    {
        let (i, found) = self.search(key.as_name_bytes());
        let ghost before = self@;
        if found {
            let (_, v) = self.entries.remove(i);
            proof {
                assert(self@ =~= removed::<K, V>(before, key.name_bytes()));
                if sorted::<K, V>(before) {
                    lemma_removed_sorted::<K, V>(before, key.name_bytes());
                }
            }
            Some(v)
        } else {
            None
        }
    }

    /// Whether the keys ascend strictly.
    pub fn is_sorted(&self) -> (r: bool)
        ensures
            r == self.wf(),
    {
        if self.entries.len() < 2 {
            return true;
        }
        let mut i: usize = 1;
        while i < self.entries.len()
            invariant
                1 <= i <= self.entries.len(),
                forall|a: int, b: int|
                    0 <= a < b < i ==> lex_lt(
                        K::bytes_of(#[trigger] self@[a].0),
                        K::bytes_of(#[trigger] self@[b].0),
                    ),
            decreases self.entries.len() - i,
        {
            let rank = compare_bytes(
                self.entries[i - 1].0.key_bytes(),
                self.entries[i].0.key_bytes(),
            );
            match rank {
                Rank::Less => {},
                _ => {
                    proof {
                        lemma_lex_irreflexive(K::bytes_of(self@[i as int].0));
                        if lex_lt(K::bytes_of(self@[i - 1].0), K::bytes_of(self@[i as int].0)) {
                            lemma_lex_asymmetric(
                                K::bytes_of(self@[i - 1].0),
                                K::bytes_of(self@[i as int].0),
                            );
                        }
                    }
                    return false;
                },
            }
            proof {
                assert forall|a: int, b: int| 0 <= a < b < i + 1 implies lex_lt(
                    K::bytes_of(#[trigger] self@[a].0),
                    K::bytes_of(#[trigger] self@[b].0),
                ) by {
                    if b == i && a < i - 1 {
                        lemma_lex_transitive(
                            K::bytes_of(self@[a].0),
                            K::bytes_of(self@[i - 1].0),
                            K::bytes_of(self@[i as int].0),
                        );
                    }
                }
            }
            i += 1;
        }
        true
    }

    /// The key of the entry at `i`.
    pub fn key_at(&self, i: usize) -> (r: &K)
        requires
            i < self@.len(),
        ensures
            r@ == self@[i as int].0,
    {
        &self.entries[i].0
    }

    /// The value of the entry at `i`.
    pub fn value_at(&self, i: usize) -> (r: &V)
        requires
            i < self@.len(),
        ensures
            *r == self@[i as int].1,
    {
        &self.entries[i].1
    }

    /// Removes every entry.
    pub fn clear(&mut self)
        ensures
            final(self)@ == Seq::<(K::V, V)>::empty(),
            final(self).wf(),
    {
        self.entries.clear();
        proof {
            assert(self@ =~= Seq::<(K::V, V)>::empty());
        }
    }
}

/// A set of keys as map entries without values.
pub open spec fn set_entries<K: ByteKey>(s: Seq<K::V>) -> Seq<(K::V, ())> {
    Seq::new(s.len(), |i: int| (s[i], ()))
}

/// The keys of map entries.
pub open spec fn entry_keys<K: ByteKey, V>(s: Seq<(K::V, V)>) -> Seq<K::V> {
    Seq::new(s.len(), |i: int| s[i].0)
}

/// The elements of `s` ascend strictly.
pub open spec fn set_sorted<K: ByteKey>(s: Seq<K::V>) -> bool {
    sorted::<K, ()>(set_entries::<K>(s))
}

/// `key` is an element of `s`.
pub open spec fn set_has<K: ByteKey>(s: Seq<K::V>, key: Seq<u8>) -> bool {
    present::<K, ()>(set_entries::<K>(s), key)
}

/// `s` with `key` as an element.
pub open spec fn set_inserted<K: ByteKey>(s: Seq<K::V>, key: K::V) -> Seq<K::V> {
    entry_keys::<K, ()>(inserted::<K, ()>(set_entries::<K>(s), key, ()))
}

/// `s` without the element `key`.
pub open spec fn set_removed<K: ByteKey>(s: Seq<K::V>, key: Seq<u8>) -> Seq<K::V> {
    entry_keys::<K, ()>(removed::<K, ()>(set_entries::<K>(s), key))
}

/// `a` with the elements of `b` from index `i` on added, one after the other.
pub open spec fn set_union<K: ByteKey>(a: Seq<K::V>, b: Seq<K::V>, i: nat) -> Seq<K::V>
    decreases b.len() - i,
{
    if i >= b.len() {
        a
    } else {
        set_union::<K>(set_inserted::<K>(a, b[i as int]), b, i + 1)
    }
}

/// `a` with the elements of `b` from index `i` on removed, one after the
/// other.
pub open spec fn set_difference<K: ByteKey>(a: Seq<K::V>, b: Seq<K::V>, i: nat) -> Seq<K::V>
    decreases b.len() - i,
{
    if i >= b.len() {
        a
    } else {
        set_difference::<K>(set_removed::<K>(a, K::bytes_of(b[i as int])), b, i + 1)
    }
}

/// A set with one more element is a set, and holds that element and what it
/// held before.
pub proof fn lemma_set_inserted<K: ByteKey>(s: Seq<K::V>, key: K::V, other: Seq<u8>)
    requires
        set_sorted::<K>(s),
    ensures
        set_sorted::<K>(set_inserted::<K>(s, key)),
        set_has::<K>(set_inserted::<K>(s, key), other) == (other == K::bytes_of(key) || set_has::<K>(
            s,
            other,
        )),
{
    let e = set_entries::<K>(s);
    let t = inserted::<K, ()>(e, key, ());
    let u = set_entries::<K>(entry_keys::<K, ()>(t));
    assert(u.len() == t.len());
    assert forall|i: int| 0 <= i < t.len() implies u[i] == t[i] by {
        assert(u[i].0 == t[i].0);
        assert(u[i].1 == t[i].1);
    }
    assert(u =~= t);
    lemma_inserted_sorted::<K, ()>(e, key, ());
    lemma_lookup_inserted::<K, ()>(e, key, ());
    if other != K::bytes_of(key) {
        lemma_lookup_inserted_other::<K, ()>(e, key, (), other);
    }
}

/// The set of the first `n` of some keys, added one after the other.
pub open spec fn set_of<K: ByteKey>(items: Seq<K::V>, n: nat) -> Seq<K::V>
    decreases n,
{
    if n == 0 || n > items.len() {
        Seq::empty()
    } else {
        set_inserted::<K>(set_of::<K>(items, (n - 1) as nat), items[n - 1])
    }
}

/// The views of a list of keys.
pub open spec fn views_of<K: ByteKey>(items: Seq<K>) -> Seq<K::V> {
    Seq::new(items.len(), |i: int| items[i]@)
}

/// A set of keys, its elements in ascending order.
#[derive(Debug)]
pub struct SortedSet<K> {
    /// The elements, each with an empty value.
    pub map: SortedMap<K, ()>,
}

impl<K: ByteKey> View for SortedSet<K> {
    type V = Seq<K::V>;

    open spec fn view(&self) -> Seq<K::V> {
        entry_keys::<K, ()>(self.map@)
    }
}

impl<K: ByteKey> SortedSet<K> {
    /// The elements ascend strictly, so none occurs twice.
    pub open spec fn wf(&self) -> bool {
        set_sorted::<K>(self@)
    }

    /// An empty set.
    pub fn new() -> (r: Self)
        ensures
            r@ == Seq::<K::V>::empty(),
            r.wf(),
    {
        let r = SortedSet { map: SortedMap::new() };
        proof {
            assert(r@ =~= Seq::<K::V>::empty());
            assert(set_entries::<K>(r@) =~= Seq::<(K::V, ())>::empty());
        }
        r
    }

    /// The number of elements.
    pub fn len(&self) -> (r: usize)
        ensures
            r == self@.len(),
    {
        self.map.len()
    }

    /// Whether the set has no element.
    pub fn is_empty(&self) -> (r: bool)
        ensures
            r == (self@.len() == 0),
    {
        self.map.is_empty()
    }

    /// Whether `key` is an element.
    pub fn contains<Q: KeyName>(&self, key: Q) -> (r: bool)
        ensures
            r == set_has::<K>(self@, key.name_bytes()),
    {
        proof {
            assert(set_entries::<K>(self@) =~= self.map@);
        }
        self.map.contains_key(key)
    }

    /// Adds `key`; returns whether it was absent before.
    pub fn insert(&mut self, key: K) -> (fresh: bool)
        ensures
            final(self)@ == set_inserted::<K>(old(self)@, key@),
            fresh == !set_has::<K>(old(self)@, K::bytes_of(key@)),
            old(self).wf() ==> final(self).wf(),
    {
        proof {
            assert(set_entries::<K>(self@) =~= self.map@);
        }
        let prev = self.map.insert(key, ());
        proof {
            assert(set_entries::<K>(self@) =~= self.map@);
        }
        prev.is_none()
    }

    /// Removes `key`; returns whether it was an element.
    pub fn remove<Q: KeyName>(&mut self, key: Q) -> (was: bool)
        ensures
            final(self)@ == set_removed::<K>(old(self)@, key.name_bytes()),
            was == set_has::<K>(old(self)@, key.name_bytes()),
            old(self).wf() ==> final(self).wf(),
    {
        proof {
            assert(set_entries::<K>(self@) =~= self.map@);
        }
        let prev = self.map.remove(key);
        proof {
            assert(set_entries::<K>(self@) =~= self.map@);
        }
        prev.is_some()
    }

    /// The element at `i`, counted in ascending order.
    pub fn item_at(&self, i: usize) -> (r: &K)
        requires
            i < self@.len(),
        ensures
            r@ == self@[i as int],
    {
        self.map.key_at(i)
    }

    /// The set of the given keys.
    pub fn from_vec(items: Vec<K>) -> (r: Self)
        ensures
            r@ == set_of::<K>(views_of::<K>(items@), items@.len()),
            r.wf(),
    {
        let mut set: SortedSet<K> = SortedSet::new();
        let mut i: usize = 0;
        let ghost all = views_of::<K>(items@);
        while i < items.len()
            invariant
                i <= items.len(),
                all == views_of::<K>(items@),
                set@ == set_of::<K>(all, i as nat),
                set.wf(),
            decreases items.len() - i,
        {
            proof {
                assert(all[i as int] == items@[i as int]@);
            }
            set.insert(items[i].duplicate());
            i += 1;
        }
        set
    }

    /// Whether the elements ascend strictly.
    pub fn is_sorted(&self) -> (r: bool)
        ensures
            r == self.wf(),
    {
        proof {
            assert(set_entries::<K>(self@) =~= self.map@);
        }
        self.map.is_sorted()
    }

    /// Adds every element of `other`.
    pub fn extend_from(&mut self, other: &Self)
        ensures
            final(self)@ == set_union::<K>(old(self)@, other@, 0),
    {
        let mut i: usize = 0;
        while i < other.len()
            invariant
                i <= other@.len(),
                set_union::<K>(self@, other@, i as nat) == set_union::<K>(old(self)@, other@, 0),
            decreases other@.len() - i,
        {
            self.insert(other.item_at(i).duplicate());
            i += 1;
        }
    }

    /// Removes every element of `other`.
    pub fn remove_all(&mut self, other: &Self)
        ensures
            final(self)@ == set_difference::<K>(old(self)@, other@, 0),
    {
        let mut i: usize = 0;
        while i < other.len()
            invariant
                i <= other@.len(),
                set_difference::<K>(self@, other@, i as nat) == set_difference::<K>(
                    old(self)@,
                    other@,
                    0,
                ),
            decreases other@.len() - i,
        {
            self.remove(other.item_at(i).key_bytes());
            i += 1;
        }
    }

    /// A copy of this set.
    pub fn duplicate(&self) -> (r: Self)
        ensures
            r@ == self@,
    {
        let mut out: Vec<(K, ())> = Vec::new();
        let mut i: usize = 0;
        while i < self.map.len()
            invariant
                i <= self.map@.len(),
                out@.len() == i,
                forall|j: int| 0 <= j < i ==> (#[trigger] out@[j]).0@ == self.map@[j].0,
            decreases self.map@.len() - i,
        {
            out.push((self.map.key_at(i).duplicate(), ()));
            i += 1;
        }
        let r = SortedSet { map: SortedMap { entries: out } };
        proof {
            assert(r@ =~= self@);
        }
        r
    }

    /// Whether two sets hold the same elements in the same order.
    pub fn same(&self, other: &Self) -> (r: bool)
        ensures
            r == (self@ == other@),
    {
        if self.map.len() != other.map.len() {
            proof {
                assert(self@.len() != other@.len());
            }
            return false;
        }
        let mut i: usize = 0;
        while i < self.map.len()
            invariant
                i <= self.map@.len(),
                self.map@.len() == other.map@.len(),
                forall|j: int| 0 <= j < i ==> self@[j] == other@[j],
            decreases self.map@.len() - i,
        {
            let a = self.map.key_at(i).key_bytes();
            let b = other.map.key_at(i).key_bytes();
            if !crate::bytes::bytes_equal(a, b) {
                proof {
                    assert(self@[i as int] != other@[i as int]);
                }
                return false;
            }
            proof {
                K::lemma_bytes_injective(self@[i as int], other@[i as int]);
            }
            i += 1;
        }
        proof {
            assert(self@ =~= other@);
        }
        true
    }
}

} // verus!
