//! Index storage keys tell their parts apart: the index key can be read off
//! the front of an index storage key, and what is left is the storage key of
//! the table key. This holds as long as a number in the index key is written
//! without `:` and `\`, as every decimal numeral is.

use crate::index::secondary::index_storage_key;
use crate::number::{ascii_text, decimal_of, digit_run, is_decimal, is_digit, unsigned_part};
use crate::text::text_bytes;
use crate::types::key::{
    component_text, lemma_component_text_injective, storage_key_text, KeyView, PrimaryKeyView,
};
use crate::utils::{base64_bytes, base64_text, escaped, escaped_char};
use vstd::prelude::*;
use vstd::utf8::{encode_scalar, encode_utf8, has_width_1_encoding, leading_byte_width_1};

verus! {

/// A character that is neither a colon nor a backslash.
pub open spec fn plain(c: char) -> bool {
    c != ':' && c != '\\'
}

/// A text without colon and backslash.
pub open spec fn all_plain(s: Seq<char>) -> bool {
    forall|i: int| 0 <= i < s.len() ==> plain(#[trigger] s[i])
}

/// The place of the first colon of `s` that stands behind no backslash; the
/// length of `s` where there is none.
pub open spec fn colon_at(s: Seq<char>) -> int
    decreases s.len(),
{
    if s.len() == 0 {
        0
    } else if s[0] == ':' {
        0
    } else if s[0] == '\\' && s.len() >= 2 {
        2 + colon_at(s.skip(2))
    } else {
        1 + colon_at(s.skip(1))
    }
}

/// A key value whose text in a storage key holds a colon only behind a
/// backslash: any string, any binary value, and a number written without
/// colon and backslash.
pub open spec fn clean(k: KeyView) -> bool {
    match k {
        KeyView::N(n) => all_plain(n),
        _ => true,
    }
}

/// The digits that a text starts with are digits, and no more than the text.
pub proof fn lemma_digit_run(s: Seq<u8>)
    ensures
        0 <= digit_run(s) <= s.len(),
        forall|i: int| 0 <= i < digit_run(s) ==> is_digit(#[trigger] s[i]),
    decreases s.len(),
{
    if s.len() > 0 && is_digit(s[0]) {
        lemma_digit_run(s.skip(1));
        assert forall|i: int| 0 <= i < digit_run(s) implies is_digit(#[trigger] s[i]) by {
            if i > 0 {
                assert(s[i] == s.skip(1)[i - 1]);
            }
        }
    }
}

/// A decimal numeral is written with digits, a sign and a point only.
pub proof fn lemma_decimal_bytes(s: Seq<u8>)
    requires
        is_decimal(s),
    ensures
        forall|i: int| 0 <= i < s.len() ==> #[trigger] s[i] != 58 && s[i] != 92,
{
    let body = unsigned_part(s);
    let n = digit_run(body);
    let after = body.skip(n);
    let d = decimal_of(s);
    lemma_digit_run(body);
    let off: int = s.len() - body.len();
    assert forall|i: int| 0 <= i < s.len() implies #[trigger] s[i] != 58 && s[i] != 92 by {
        if i >= off {
            let j = i - off;
            assert(s[i] == body[j]);
            if j < n {
                assert(is_digit(body[j]));
            } else {
                assert(body[j] == after[j - n]);
                if after[0] == 46 {
                    if j > n {
                        assert(d.frac_part[j - n - 1] == after[j - n]);
                        assert(is_digit(d.frac_part[j - n - 1]));
                    }
                } else {
                    assert(d.frac_part[j - n] == after[j - n]);
                    assert(is_digit(d.frac_part[j - n]));
                }
            }
        }
    }
}

/// A colon is the byte 58 in UTF-8, a backslash the byte 92.
pub proof fn lemma_special_scalar(c: char)
    requires
        !plain(c),
    ensures
        encode_scalar(c as u32).len() == 1,
        encode_scalar(c as u32)[0] == 58 || encode_scalar(c as u32)[0] == 92,
{
    let v = c as u32;
    assert(v == 58 || v == 92);
    assert(has_width_1_encoding(v));
    assert(v & 0x7F == v) by (bit_vector)
        requires
            v == 58 || v == 92,
    ;
    assert(leading_byte_width_1(v) == v);
}

/// A text whose bytes hold neither 58 nor 92 holds neither colon nor
/// backslash.
pub proof fn lemma_plain_bytes(n: Seq<char>)
    requires
        forall|i: int|
            0 <= i < text_bytes(n).len() ==> #[trigger] text_bytes(n)[i] != 58 && text_bytes(n)[i]
                != 92,
    ensures
        all_plain(n),
    decreases n.len(),
{
    if n.len() > 0 {
        let head = encode_scalar(n[0] as u32);
        let rest = n.drop_first();
        assert(text_bytes(n) == head + encode_utf8(rest));
        if !plain(n[0]) {
            lemma_special_scalar(n[0]);
            assert(text_bytes(n)[0] == head[0]);
        }
        assert forall|i: int| 0 <= i < text_bytes(rest).len() implies #[trigger] text_bytes(
            rest,
        )[i] != 58 && text_bytes(rest)[i] != 92 by {
            assert(text_bytes(rest)[i] == text_bytes(n)[head.len() + i]);
        }
        lemma_plain_bytes(rest);
        assert forall|i: int| 0 <= i < n.len() implies plain(#[trigger] n[i]) by {
            if i > 0 {
                assert(n[i] == rest[i - 1]);
            }
        }
    }
}

/// A number written as a decimal numeral is a clean key value.
pub proof fn lemma_decimal_clean(n: Seq<char>)
    requires
        is_decimal(text_bytes(n)),
    ensures
        clean(KeyView::N(n)),
{
    lemma_decimal_bytes(text_bytes(n));
    lemma_plain_bytes(n);
}

/// Both parts of the key are clean.
pub open spec fn clean_key(k: PrimaryKeyView) -> bool {
    clean(k.pk) && match k.sk {
        Some(sk) => clean(sk),
        None => true,
    }
}

/// What follows the type and the colon in the text of a key value.
pub open spec fn component_body(k: KeyView) -> Seq<char> {
    match k {
        KeyView::S(s) => escaped(s),
        KeyView::N(n) => n,
        KeyView::B(b) => base64_text(b),
    }
}

/// What may follow a key value in a storage key: nothing, or a separator,
/// the type of the next value and a colon.
pub open spec fn continues(t: Seq<char>) -> bool {
    t.len() == 0 || (t.len() >= 3 && plain(t[0]) && plain(t[1]) && t[2] == ':')
}

/// The search for a colon runs through a text without colon and backslash.
pub proof fn lemma_scan_plain(b: Seq<char>, t: Seq<char>)
    requires
        all_plain(b),
    ensures
        colon_at(b + t) == b.len() + colon_at(t),
    decreases b.len(),
{
    if b.len() == 0 {
        assert(b + t =~= t);
    } else {
        assert(plain(b[0]));
        assert((b + t)[0] == b[0]);
        assert((b + t).skip(1) =~= b.skip(1) + t);
        assert forall|i: int| 0 <= i < b.skip(1).len() implies plain(#[trigger] b.skip(1)[i]) by {
            assert(b.skip(1)[i] == b[i + 1]);
        }
        lemma_scan_plain(b.skip(1), t);
    }
}

/// The search for a colon runs through an escaped text.
pub proof fn lemma_scan_escaped(x: Seq<char>, t: Seq<char>)
    ensures
        colon_at(escaped(x) + t) == escaped(x).len() + colon_at(t),
    decreases x.len(),
{
    if x.len() == 0 {
        assert(escaped(x) + t =~= t);
    } else {
        let c = x[0];
        let rest = escaped(x.skip(1));
        let whole = escaped(x) + t;
        lemma_scan_escaped(x.skip(1), t);
        if c == '#' || c == ':' || c == '\\' {
            assert(escaped_char(c) =~= seq!['\\', c]);
            assert(escaped(x) =~= seq!['\\', c] + rest);
            assert(whole[0] == '\\');
            assert(whole.len() >= 2);
            assert(whole.skip(2) =~= rest + t);
        } else {
            assert(escaped_char(c) =~= seq![c]);
            assert(escaped(x) =~= seq![c] + rest);
            assert(whole[0] == c);
            assert(whole.skip(1) =~= rest + t);
        }
    }
}

/// Base64 uses neither colon nor backslash.
pub proof fn lemma_base64_plain(b: Seq<u8>)
    ensures
        forall|i: int|
            0 <= i < base64_bytes(b).len() ==> #[trigger] base64_bytes(b)[i] != 58
                && base64_bytes(b)[i] != 92,
        all_plain(base64_text(b)),
    decreases b.len(),
{
    let e = base64_bytes(b);
    if b.len() >= 3 {
        lemma_base64_plain(b.skip(3));
        assert forall|i: int| 0 <= i < e.len() implies #[trigger] e[i] != 58 && e[i] != 92 by {
            if i >= 4 {
                assert(e[i] == base64_bytes(b.skip(3))[i - 4]);
            }
        }
    } else {
        assert forall|i: int| 0 <= i < e.len() implies #[trigger] e[i] != 58 && e[i] != 92 by {}
    }
    assert forall|i: int| 0 <= i < base64_text(b).len() implies plain(
        #[trigger] base64_text(b)[i],
    ) by {
        assert(ascii_text(e)[i] == e[i] as char);
        assert(e[i] != 58 && e[i] != 92);
    }
}

/// The search for a colon runs through what a clean key value is written as.
pub proof fn lemma_scan_component(k: KeyView, t: Seq<char>)
    requires
        clean(k),
    ensures
        colon_at(component_body(k) + t) == component_body(k).len() + colon_at(t),
{
    match k {
        KeyView::S(s) => {
            lemma_scan_escaped(s, t);
        },
        KeyView::N(n) => {
            lemma_scan_plain(n, t);
        },
        KeyView::B(b) => {
            lemma_base64_plain(b);
            lemma_scan_plain(base64_text(b), t);
        },
    }
}

/// The colon of what follows a key value is its third character.
pub proof fn lemma_scan_continuation(t: Seq<char>)
    requires
        continues(t),
    ensures
        colon_at(t) == if t.len() == 0 {
            0int
        } else {
            2int
        },
{
    if t.len() > 0 {
        let t1 = t.skip(1);
        let t2 = t1.skip(1);
        assert(t1[0] == t[1]);
        assert(t2[0] == t[2]);
        assert(colon_at(t2) == 0);
        assert(colon_at(t1) == 1 + colon_at(t2));
        assert(colon_at(t) == 1 + colon_at(t1));
    }
}

/// The text of a key value is its type, a colon and its body.
pub proof fn lemma_component_shape(k: KeyView)
    ensures
        component_text(k).len() == 2 + component_body(k).len(),
        plain(component_text(k)[0]),
        component_text(k)[1] == ':',
        component_text(k).skip(2) == component_body(k),
{
    assert(component_text(k).skip(2) =~= component_body(k));
}

/// A storage key starts with a type and a colon.
pub proof fn lemma_storage_key_shape(k: PrimaryKeyView)
    ensures
        storage_key_text(k).len() >= 2,
        plain(storage_key_text(k)[0]),
        storage_key_text(k)[1] == ':',
{
    lemma_component_shape(k.pk);
}

/// Two clean key values with what follows them make the same text only where
/// the values are the same and the same follows.
pub proof fn lemma_first_component(a: KeyView, t: Seq<char>, b: KeyView, u: Seq<char>)
    requires
        clean(a),
        clean(b),
        continues(t),
        continues(u),
        component_text(a) + t == component_text(b) + u,
    ensures
        a == b,
        t == u,
{
    let x = component_text(a) + t;
    let y = component_text(b) + u;
    lemma_component_shape(a);
    lemma_component_shape(b);
    assert(x.skip(2) =~= component_body(a) + t);
    assert(y.skip(2) =~= component_body(b) + u);
    lemma_scan_component(a, t);
    lemma_scan_component(b, u);
    assert(x.len() == 2 + component_body(a).len() + t.len());
    assert(y.len() == 2 + component_body(b).len() + u.len());
    // what follows is empty on both sides or on neither
    lemma_scan_continuation(t);
    lemma_scan_continuation(u);
    let n = component_text(a).len() as int;
    assert(component_text(b).len() == n);
    assert(x.take(n) =~= component_text(a));
    assert(y.take(n) =~= component_text(b));
    assert(x.skip(n) =~= t);
    assert(y.skip(n) =~= u);
    lemma_component_text_injective(a, b);
}

/// What follows the partition key in the text of an index storage key.
pub open spec fn behind_partition_key(ik: PrimaryKeyView, pk: PrimaryKeyView) -> Seq<char> {
    match ik.sk {
        Some(sk) => seq!['#'] + (component_text(sk) + (seq!['|'] + storage_key_text(pk))),
        None => seq!['|'] + storage_key_text(pk),
    }
}

/// An index storage key is made of one clean index key and of the storage key
/// of one table key only.
pub proof fn lemma_index_storage_key_unique(
    ik: PrimaryKeyView,
    pk: PrimaryKeyView,
    ik2: PrimaryKeyView,
    pk2: PrimaryKeyView,
)
    requires
        clean_key(ik),
        clean_key(ik2),
        index_storage_key(ik, pk) == index_storage_key(ik2, pk2),
    ensures
        ik == ik2,
        storage_key_text(pk) == storage_key_text(pk2),
{
    let t = behind_partition_key(ik, pk);
    let u = behind_partition_key(ik2, pk2);
    let end = seq!['|'] + storage_key_text(pk);
    let end2 = seq!['|'] + storage_key_text(pk2);
    lemma_storage_key_shape(pk);
    lemma_storage_key_shape(pk2);
    assert(continues(end));
    assert(continues(end2));
    assert(index_storage_key(ik, pk) =~= component_text(ik.pk) + t);
    assert(index_storage_key(ik2, pk2) =~= component_text(ik2.pk) + u);
    if ik.sk is Some {
        lemma_component_shape(ik.sk->0);
        assert(t[1] == component_text(ik.sk->0)[0]);
        assert(t[2] == component_text(ik.sk->0)[1]);
    }
    if ik2.sk is Some {
        lemma_component_shape(ik2.sk->0);
        assert(u[1] == component_text(ik2.sk->0)[0]);
        assert(u[2] == component_text(ik2.sk->0)[1]);
    }
    assert(continues(t));
    assert(continues(u));
    lemma_first_component(ik.pk, t, ik2.pk, u);
    assert(t[0] == u[0]);
    match (ik.sk, ik2.sk) {
        (Some(a), Some(b)) => {
            assert(t.skip(1) =~= component_text(a) + end);
            assert(u.skip(1) =~= component_text(b) + end2);
            lemma_first_component(a, end, b, end2);
        },
        (None, None) => {},
        _ => {
            assert(false);
        },
    }
    assert(end.skip(1) =~= storage_key_text(pk));
    assert(end2.skip(1) =~= storage_key_text(pk2));
}

/// Different clean keys have different storage keys.
pub proof fn lemma_storage_key_unique(a: PrimaryKeyView, b: PrimaryKeyView)
    requires
        clean_key(a),
        clean_key(b),
        storage_key_text(a) == storage_key_text(b),
    ensures
        a == b,
{
    let t: Seq<char> = match a.sk {
        Some(sk) => seq!['#'] + component_text(sk),
        None => Seq::empty(),
    };
    let u: Seq<char> = match b.sk {
        Some(sk) => seq!['#'] + component_text(sk),
        None => Seq::empty(),
    };
    assert(storage_key_text(a) =~= component_text(a.pk) + t);
    assert(storage_key_text(b) =~= component_text(b.pk) + u);
    if a.sk is Some {
        lemma_component_shape(a.sk->0);
        assert(t[1] == component_text(a.sk->0)[0]);
        assert(t[2] == component_text(a.sk->0)[1]);
    }
    if b.sk is Some {
        lemma_component_shape(b.sk->0);
        assert(u[1] == component_text(b.sk->0)[0]);
        assert(u[2] == component_text(b.sk->0)[1]);
    }
    lemma_first_component(a.pk, t, b.pk, u);
    match (a.sk, b.sk) {
        (Some(x), Some(y)) => {
            assert(t.skip(1) =~= component_text(x));
            assert(u.skip(1) =~= component_text(y));
            lemma_component_text_injective(x, y);
        },
        (None, None) => {},
        _ => {
            assert(t.len() == u.len());
        },
    }
}

} // verus!
