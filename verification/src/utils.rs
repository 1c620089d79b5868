//! Helpers shared by the rest of the store: Base64, the escaping of storage
//! keys, and the comparison and addition of values.

use crate::bytes::Rank;
use crate::compare::{
    key_rank, key_rank_of, number_text_rank, number_text_rank_of, value_rank, value_rank_of,
};
use crate::error::{EvalError, EvalErrorView, TableError, TableErrorView};
use crate::number::{
    add_numbers, ascii_text, common_scale, decimal_of, decimal_sum, decimal_text,
    is_decimal, NumberError,
};
use crate::text::{push_char, text_bytes};
use crate::types::attributes::AttributeValue;
use crate::types::key::KeyValue;
use std::cmp::Ordering;
use vstd::prelude::*;
use vstd::string::StringSliceAdditionalSpecFns;
use vstd::utf8::{encode_scalar, encode_utf8, has_width_1_encoding, leading_byte_width_1};

verus! {

/// The Base64 character, as an ASCII byte, of a six-bit value.
pub open spec fn sextet_byte(v: int) -> u8 {
    if v < 26 {
        (65 + v) as u8
    } else if v < 52 {
        (97 + v - 26) as u8
    } else if v < 62 {
        (48 + v - 52) as u8
    } else if v == 62 {
        43u8
    } else {
        47u8
    }
}

/// The six-bit value of a Base64 character; -1 for any other byte.
pub open spec fn sextet_value(b: u8) -> int {
    if 65 <= b <= 90 {
        b - 65
    } else if 97 <= b <= 122 {
        b - 97 + 26
    } else if 48 <= b <= 57 {
        b - 48 + 52
    } else if b == 43 {
        62
    } else if b == 47 {
        63
    } else {
        -1
    }
}

/// The Base64 encoding of bytes, as ASCII bytes: four characters for every
/// three bytes, the last group filled up with `=`.
pub open spec fn base64_bytes(b: Seq<u8>) -> Seq<u8>
    decreases b.len(),
{
    if b.len() == 0 {
        Seq::empty()
    } else if b.len() == 1 {
        seq![sextet_byte((b[0] / 4) as int), sextet_byte((b[0] % 4) * 16), 61u8, 61u8]
    } else if b.len() == 2 {
        seq![
            sextet_byte((b[0] / 4) as int),
            sextet_byte((b[0] % 4) * 16 + b[1] / 16),
            sextet_byte((b[1] % 16) * 4),
            61u8,
        ]
    } else {
        seq![
            sextet_byte((b[0] / 4) as int),
            sextet_byte((b[0] % 4) * 16 + b[1] / 16),
            sextet_byte((b[1] % 16) * 4 + b[2] / 64),
            sextet_byte((b[2] % 64) as int),
        ] + base64_bytes(b.skip(3))
    }
}

/// The Base64 encoding of bytes, as text.
pub open spec fn base64_text(b: Seq<u8>) -> Seq<char> {
    ascii_text(base64_bytes(b))
}

/// `s` without the `=` characters at its end.
pub open spec fn trim_padding(s: Seq<u8>) -> Seq<u8>
    decreases s.len(),
{
    if s.len() > 0 && s.last() == 61 {
        trim_padding(s.drop_last())
    } else {
        s
    }
}

/// Every byte is a Base64 character.
pub open spec fn all_sextets(s: Seq<u8>) -> bool {
    forall|i: int| 0 <= i < s.len() ==> sextet_value(#[trigger] s[i]) >= 0
}

/// The bytes that Base64 characters stand for: three for every four
/// characters, two for a last group of three, one for a last group of two.
/// A single character left over stands for nothing.
pub open spec fn unbase64_groups(s: Seq<u8>) -> Option<Seq<u8>>
    decreases s.len(),
{
    if s.len() == 0 {
        Some(Seq::empty())
    } else if s.len() == 1 {
        None
    } else {
        let c0 = sextet_value(s[0]);
        let c1 = sextet_value(s[1]);
        let o0 = (c0 * 4 + c1 / 16) as u8;
        if s.len() == 2 {
            Some(seq![o0])
        } else {
            let c2 = sextet_value(s[2]);
            let o1 = ((c1 % 16) * 16 + c2 / 4) as u8;
            if s.len() == 3 {
                Some(seq![o0, o1])
            } else {
                let c3 = sextet_value(s[3]);
                let o2 = ((c2 % 4) * 64 + c3) as u8;
                match unbase64_groups(s.skip(4)) {
                    Some(rest) => Some(seq![o0, o1, o2] + rest),
                    None => None,
                }
            }
        }
    }
}

/// The bytes that a Base64 text stands for; `None` where a byte of the text,
/// the `=` at its end left aside, is no Base64 character, or where a single
/// character is left over.
pub open spec fn unbase64(s: Seq<u8>) -> Option<Seq<u8>> {
    let body = trim_padding(s);
    if all_sextets(body) {
        unbase64_groups(body)
    } else {
        None
    }
}

fn sextet(v: u8) -> (r: u8)
    requires
        v < 64,
    ensures
        r == sextet_byte(v as int),
        sextet_value(r) == v,
        r != 61,
        r < 128,
{
    if v < 26 {
        65 + v
    } else if v < 52 {
        97 + (v - 26)
    } else if v < 62 {
        48 + (v - 52)
    } else if v == 62 {
        43
    } else {
        47
    }
}

/// The Base64 encoding of `data`.
pub fn base64_encode(data: &[u8]) -> (r: String)
    ensures
        r@ == base64_text(data@),
{
    let mut out = String::new();
    let ghost mut written: Seq<u8> = Seq::empty();
    let mut i: usize = 0;
    proof {
        assert(data@.skip(0) =~= data@);
        assert(written + base64_bytes(data@) =~= base64_bytes(data@));
        assert(out@ =~= ascii_text(written));
    }
    while i < data.len()
        invariant
            i <= data.len(),
            out@ == ascii_text(written),
            written + base64_bytes(data@.skip(i as int)) == base64_bytes(data@),
        decreases data.len() - i,
    {
        let left: usize = data.len() - i;
        let b0 = data[i];
        let ghost tail = data@.skip(i as int);
        let ghost before = written;
        proof {
            assert(tail[0] == b0);
        }
        if left == 1 {
            let c0 = sextet(b0 / 4);
            let c1 = sextet((b0 % 4) * 16);
            push_char(&mut out, c0 as char);
            push_char(&mut out, c1 as char);
            push_char(&mut out, '=');
            push_char(&mut out, '=');
            proof {
                written = written + seq![c0, c1, 61u8, 61u8];
                assert(data@.skip(i + 1) =~= Seq::<u8>::empty());
                assert(written + base64_bytes(data@.skip(i + 1)) =~= before + base64_bytes(tail));
                assert(out@ =~= ascii_text(written));
            }
            i += 1;
        } else if left == 2 {
            let b1 = data[i + 1];
            proof {
                assert(tail[1] == b1);
            }
            let c0 = sextet(b0 / 4);
            let c1 = sextet((b0 % 4) * 16 + b1 / 16);
            let c2 = sextet((b1 % 16) * 4);
            push_char(&mut out, c0 as char);
            push_char(&mut out, c1 as char);
            push_char(&mut out, c2 as char);
            push_char(&mut out, '=');
            proof {
                written = written + seq![c0, c1, c2, 61u8];
                assert(data@.skip(i + 2) =~= Seq::<u8>::empty());
                assert(written + base64_bytes(data@.skip(i + 2)) =~= before + base64_bytes(tail));
                assert(out@ =~= ascii_text(written));
            }
            i += 2;
        } else {
            let b1 = data[i + 1];
            let b2 = data[i + 2];
            proof {
                assert(tail[1] == b1);
                assert(tail[2] == b2);
            }
            let c0 = sextet(b0 / 4);
            let c1 = sextet((b0 % 4) * 16 + b1 / 16);
            let c2 = sextet((b1 % 16) * 4 + b2 / 64);
            let c3 = sextet(b2 % 64);
            push_char(&mut out, c0 as char);
            push_char(&mut out, c1 as char);
            push_char(&mut out, c2 as char);
            push_char(&mut out, c3 as char);
            proof {
                written = written + seq![c0, c1, c2, c3];
                assert(tail.skip(3) =~= data@.skip(i + 3));
                assert(written + base64_bytes(data@.skip(i + 3)) =~= before + base64_bytes(tail));
                assert(out@ =~= ascii_text(written));
            }
            i += 3;
        }
    }
    proof {
        assert(written =~= base64_bytes(data@));
    }
    out
}

/// The value of a Base64 character; `None` for any other byte.
fn sextet_of(b: u8) -> (r: Option<u8>)
    ensures
        match r {
            Some(v) => v == sextet_value(b) && v < 64,
            None => sextet_value(b) < 0,
        },
{
    if 65 <= b && b <= 90 {
        Some(b - 65)
    } else if 97 <= b && b <= 122 {
        Some(b - 97 + 26)
    } else if 48 <= b && b <= 57 {
        Some(b - 48 + 52)
    } else if b == 43 {
        Some(62)
    } else if b == 47 {
        Some(63)
    } else {
        None
    }
}

/// The bytes that the Base64 text `input` stands for. The `=` at the end are
/// not counted; `None` where another character is no Base64 character or a
/// single character is left over.
pub fn base64_decode(input: &str) -> (r: Option<Vec<u8>>)
    ensures
        match r {
            Some(v) => unbase64(text_bytes(input@)) == Some(v@),
            None => unbase64(text_bytes(input@)).is_none(),
        },
{
    let s = input.as_bytes();
    let mut end: usize = s.len();
    proof {
        assert(s@.take(end as int) =~= s@);
    }
    while end > 0 && s[end - 1] == 61
        invariant
            end <= s.len(),
            trim_padding(s@) == trim_padding(s@.take(end as int)),
        decreases end,
    {
        proof {
            assert(s@.take(end as int).last() == s@[end - 1]);
            assert(s@.take(end as int).drop_last() =~= s@.take(end - 1));
        }
        end -= 1;
    }
    proof {
        if end > 0 {
            assert(s@.take(end as int).last() == s@[end - 1]);
        }
    }
    let ghost body = s@.take(end as int);
    proof {
        assert(trim_padding(s@) == body);
        assert(s@ == text_bytes(input@));
    }
    let mut values: Vec<u8> = Vec::new();
    let mut i: usize = 0;
    while i < end
        invariant
            i <= end <= s.len(),
            body == s@.take(end as int),
            trim_padding(text_bytes(input@)) == body,
            values@.len() == i,
            forall|j: int| 0 <= j < i ==> (#[trigger] values@[j]) == sextet_value(body[j]),
        decreases end - i,
    {
        match sextet_of(s[i]) {
            Some(v) => {
                values.push(v);
            },
            None => {
                proof {
                    assert(sextet_value(body[i as int]) < 0);
                }
                return None;
            },
        }
        i += 1;
    }
    let mut out: Vec<u8> = Vec::new();
    let mut k: usize = 0;
    proof {
        assert(body.skip(0) =~= body);
        assert(all_sextets(body)) by {
            assert forall|j: int| 0 <= j < body.len() implies sextet_value(#[trigger] body[j])
                >= 0 by {
                assert(values@[j] == sextet_value(body[j]));
            }
        }
        assert(Seq::<u8>::empty() + unbase64_groups(body).unwrap() =~= unbase64_groups(
            body,
        ).unwrap());
    }
    while k < end
        invariant
            k <= end,
            end == body.len(),
            trim_padding(text_bytes(input@)) == body,
            all_sextets(body),
            values@.len() == end,
            forall|j: int| 0 <= j < end ==> (#[trigger] values@[j]) == sextet_value(body[j]),
            forall|j: int| 0 <= j < end ==> (#[trigger] values@[j]) < 64,
            match unbase64_groups(body.skip(k as int)) {
                Some(rest) => unbase64_groups(body) == Some(out@ + rest),
                None => unbase64_groups(body).is_none(),
            },
        decreases end - k,
    {
        let left: usize = end - k;
        let ghost tail = body.skip(k as int);
        let ghost before = out@;
        proof {
            assert(tail[0] == body[k as int]);
        }
        if left == 1 {
            return None;
        }
        let c0 = values[k];
        let c1 = values[k + 1];
        proof {
            assert(tail[1] == body[k + 1]);
        }
        out.push(c0 * 4 + c1 / 16);
        if left == 2 {
            proof {
                assert(before + seq![(c0 * 4 + c1 / 16) as u8] =~= out@);
            }
            return Some(out);
        }
        let c2 = values[k + 2];
        proof {
            assert(tail[2] == body[k + 2]);
        }
        out.push((c1 % 16) * 16 + c2 / 4);
        if left == 3 {
            proof {
                assert(before + seq![(c0 * 4 + c1 / 16) as u8, ((c1 % 16) * 16 + c2 / 4) as u8]
                    =~= out@);
            }
            return Some(out);
        }
        let c3 = values[k + 3];
        proof {
            assert(tail[3] == body[k + 3]);
        }
        out.push((c2 % 4) * 64 + c3);
        proof {
            assert(tail.skip(4) =~= body.skip(k + 4));
            let group = seq![
                (c0 * 4 + c1 / 16) as u8,
                ((c1 % 16) * 16 + c2 / 4) as u8,
                ((c2 % 4) * 64 + c3) as u8,
            ];
            assert(out@ =~= before + group);
            match unbase64_groups(body.skip(k + 4)) {
                Some(rest) => {
                    assert(before + (group + rest) =~= out@ + rest);
                },
                None => {},
            }
        }
        k += 4;
    }
    proof {
        assert(body.skip(k as int) =~= Seq::<u8>::empty());
        assert(out@ + Seq::<u8>::empty() =~= out@);
    }
    Some(out)
}

/// The Base64 characters of bytes without the `=` at the end.
pub open spec fn unpadded_base64(b: Seq<u8>) -> Seq<u8>
    decreases b.len(),
{
    if b.len() == 0 {
        Seq::empty()
    } else if b.len() == 1 {
        seq![sextet_byte((b[0] / 4) as int), sextet_byte((b[0] % 4) * 16)]
    } else if b.len() == 2 {
        seq![
            sextet_byte((b[0] / 4) as int),
            sextet_byte((b[0] % 4) * 16 + b[1] / 16),
            sextet_byte((b[1] % 16) * 4),
        ]
    } else {
        seq![
            sextet_byte((b[0] / 4) as int),
            sextet_byte((b[0] % 4) * 16 + b[1] / 16),
            sextet_byte((b[1] % 16) * 4 + b[2] / 64),
            sextet_byte((b[2] % 64) as int),
        ] + unpadded_base64(b.skip(3))
    }
}

/// A Base64 character is no `=`, and its value is the one it was made from.
pub proof fn lemma_sextet_byte(v: int)
    requires
        0 <= v < 64,
    ensures
        sextet_byte(v) != 61,
        sextet_value(sextet_byte(v)) == v,
{
}

/// Trimming the `=` at the end leaves alone what stands before a character
/// that is no `=`.
pub proof fn lemma_trim_after(x: Seq<u8>, y: Seq<u8>)
    requires
        x.len() > 0,
        x.last() != 61,
    ensures
        trim_padding(x + y) == x + trim_padding(y),
    decreases y.len(),
{
    if y.len() == 0 {
        assert(x + y =~= x);
        assert(x + trim_padding(y) =~= x);
    } else if y.last() == 61 {
        assert((x + y).last() == 61);
        assert((x + y).drop_last() =~= x + y.drop_last());
        lemma_trim_after(x, y.drop_last());
    } else {
        assert((x + y).last() == y.last());
    }
}

/// Without the `=` at its end, the encoding of bytes is their Base64
/// characters.
pub proof fn lemma_trim_base64(b: Seq<u8>)
    ensures
        trim_padding(base64_bytes(b)) == unpadded_base64(b),
    decreases b.len(),
{
    if b.len() == 0 {
    } else if b.len() == 1 {
        let c0 = sextet_byte((b[0] / 4) as int);
        let c1 = sextet_byte((b[0] % 4) * 16);
        lemma_sextet_byte((b[0] % 4) * 16);
        let full = base64_bytes(b);
        assert(full =~= seq![c0, c1] + seq![61u8, 61u8]);
        lemma_trim_after(seq![c0, c1], seq![61u8, 61u8]);
        let p = seq![61u8, 61u8];
        assert(p.drop_last() =~= seq![61u8]);
        assert(seq![61u8].drop_last() =~= Seq::<u8>::empty());
        assert(trim_padding(Seq::<u8>::empty()) == Seq::<u8>::empty());
        assert(seq![61u8].last() == 61u8);
        assert(trim_padding(seq![61u8]) == trim_padding(seq![61u8].drop_last()));
        assert(trim_padding(seq![61u8]) == Seq::<u8>::empty());
        assert(p.last() == 61u8);
        assert(trim_padding(p) == trim_padding(p.drop_last()));
        assert(trim_padding(p) == Seq::<u8>::empty());
        assert(seq![c0, c1] + Seq::<u8>::empty() =~= seq![c0, c1]);
    } else if b.len() == 2 {
        let c0 = sextet_byte((b[0] / 4) as int);
        let c1 = sextet_byte((b[0] % 4) * 16 + b[1] / 16);
        let c2 = sextet_byte((b[1] % 16) * 4);
        lemma_sextet_byte((b[1] % 16) * 4);
        let full = base64_bytes(b);
        assert(full =~= seq![c0, c1, c2] + seq![61u8]);
        lemma_trim_after(seq![c0, c1, c2], seq![61u8]);
        assert(seq![61u8].drop_last() =~= Seq::<u8>::empty());
        assert(trim_padding(Seq::<u8>::empty()) == Seq::<u8>::empty());
        assert(seq![61u8].last() == 61u8);
        assert(trim_padding(seq![61u8]) == trim_padding(seq![61u8].drop_last()));
        assert(trim_padding(seq![61u8]) == Seq::<u8>::empty());
        assert(seq![c0, c1, c2] + Seq::<u8>::empty() =~= seq![c0, c1, c2]);
    } else {
        let group = seq![
            sextet_byte((b[0] / 4) as int),
            sextet_byte((b[0] % 4) * 16 + b[1] / 16),
            sextet_byte((b[1] % 16) * 4 + b[2] / 64),
            sextet_byte((b[2] % 64) as int),
        ];
        lemma_sextet_byte((b[2] % 64) as int);
        lemma_trim_base64(b.skip(3));
        lemma_trim_after(group, base64_bytes(b.skip(3)));
    }
}

/// The Base64 characters of bytes stand for those bytes.
pub proof fn lemma_unbase64_unpadded(b: Seq<u8>)
    ensures
        all_sextets(unpadded_base64(b)),
        unbase64_groups(unpadded_base64(b)) == Some(b),
    decreases b.len(),
{
    let t = unpadded_base64(b);
    if b.len() == 0 {
        assert(b =~= Seq::<u8>::empty());
    } else if b.len() == 1 {
        lemma_sextet_byte((b[0] / 4) as int);
        lemma_sextet_byte((b[0] % 4) * 16);
        assert(seq![b[0]] =~= b);
    } else if b.len() == 2 {
        lemma_sextet_byte((b[0] / 4) as int);
        lemma_sextet_byte((b[0] % 4) * 16 + b[1] / 16);
        lemma_sextet_byte((b[1] % 16) * 4);
        assert(seq![b[0], b[1]] =~= b);
    } else {
        let rest = unpadded_base64(b.skip(3));
        lemma_unbase64_unpadded(b.skip(3));
        lemma_sextet_byte((b[0] / 4) as int);
        lemma_sextet_byte((b[0] % 4) * 16 + b[1] / 16);
        lemma_sextet_byte((b[1] % 16) * 4 + b[2] / 64);
        lemma_sextet_byte((b[2] % 64) as int);
        assert(t.len() == 4 + rest.len());
        assert(t.skip(4) =~= rest);
        assert forall|i: int| 0 <= i < t.len() implies sextet_value(#[trigger] t[i]) >= 0 by {
            if i >= 4 {
                assert(t[i] == rest[i - 4]);
            }
        }
        assert(seq![b[0], b[1], b[2]] + b.skip(3) =~= b);
    }
}

/// Decoding undoes encoding: the Base64 text of any bytes stands for those
/// bytes.
pub proof fn lemma_base64_roundtrip(b: Seq<u8>)
    ensures
        unbase64(base64_bytes(b)) == Some(b),
{
    lemma_trim_base64(b);
    lemma_unbase64_unpadded(b);
}

/// A byte below 128 is the UTF-8 encoding of the character with its number.
pub proof fn lemma_ascii_scalar(b: u8)
    requires
        b < 128,
    ensures
        encode_utf8(seq![b as char]) == seq![b],
{
    let t = seq![b as char];
    let c = t[0] as u32;
    assert(c == b as u32);
    assert(c & 0x7F == c) by (bit_vector)
        requires
            c < 128,
    ;
    assert(has_width_1_encoding(c));
    assert(leading_byte_width_1(c) == b);
    assert(encode_scalar(c) =~= seq![b]);
    assert(t.drop_first() =~= Seq::<char>::empty());
    assert(encode_utf8(t.drop_first()) =~= Seq::<u8>::empty());
    assert(encode_utf8(t) =~= encode_scalar(c) + encode_utf8(t.drop_first()));
}

/// The bytes of ASCII characters are the numbers of the characters.
pub proof fn lemma_ascii_bytes(d: Seq<u8>)
    requires
        forall|i: int| 0 <= i < d.len() ==> d[i] < 128,
    ensures
        text_bytes(ascii_text(d)) == d,
    decreases d.len(),
{
    let t = ascii_text(d);
    if d.len() > 0 {
        assert(t.drop_first() =~= ascii_text(d.drop_first()));
        lemma_ascii_bytes(d.drop_first());
        lemma_ascii_scalar(d[0]);
        assert(seq![d[0] as char].drop_first() =~= Seq::<char>::empty());
        assert(encode_utf8(t) =~= seq![d[0]] + d.drop_first());
        assert(d =~= seq![d[0]] + d.drop_first());
    } else {
        assert(encode_utf8(t) =~= d);
    }
}

/// Base64 uses ASCII characters only.
pub proof fn lemma_base64_ascii(b: Seq<u8>)
    ensures
        forall|i: int| 0 <= i < base64_bytes(b).len() ==> #[trigger] base64_bytes(b)[i] < 128,
    decreases b.len(),
{
    let e = base64_bytes(b);
    if b.len() >= 3 {
        lemma_base64_ascii(b.skip(3));
        assert forall|i: int| 0 <= i < e.len() implies #[trigger] e[i] < 128 by {
            if i >= 4 {
                assert(e[i] == base64_bytes(b.skip(3))[i - 4]);
            }
        }
    } else {
        assert forall|i: int| 0 <= i < e.len() implies #[trigger] e[i] < 128 by {}
    }
}

/// Base64 text stands for the bytes that it was made from.
pub proof fn lemma_base64_text_roundtrip(b: Seq<u8>)
    ensures
        unbase64(text_bytes(base64_text(b))) == Some(b),
{
    lemma_base64_ascii(b);
    lemma_ascii_bytes(base64_bytes(b));
    lemma_base64_roundtrip(b);
}

/// Different bytes have different Base64 texts.
pub proof fn lemma_base64_text_injective(a: Seq<u8>, b: Seq<u8>)
    requires
        base64_text(a) == base64_text(b),
    ensures
        a == b,
{
    lemma_base64_text_roundtrip(a);
    lemma_base64_text_roundtrip(b);
}

/// One character as it stands in a storage key: `#`, `:` and `\` behind a `\`.
pub open spec fn escaped_char(c: char) -> Seq<char> {
    if c == '#' || c == ':' || c == '\\' {
        seq!['\\', c]
    } else {
        seq![c]
    }
}

/// A text as it stands in a storage key, every special character escaped.
pub open spec fn escaped(s: Seq<char>) -> Seq<char>
    decreases s.len(),
{
    if s.len() == 0 {
        Seq::empty()
    } else {
        escaped_char(s[0]) + escaped(s.skip(1))
    }
}

/// The text that an escaped text stands for.
pub open spec fn unescaped(s: Seq<char>) -> Seq<char>
    decreases s.len(),
{
    if s.len() == 0 {
        Seq::empty()
    } else if s[0] == '\\' && s.len() >= 2 {
        seq![s[1]] + unescaped(s.skip(2))
    } else {
        seq![s[0]] + unescaped(s.skip(1))
    }
}

/// Escapes `#`, `:` and `\` with a `\` in front.
pub fn escape_key_chars(s: &str) -> (r: String)
    ensures
        r@ == escaped(s@),
{
    let mut out = String::new();
    proof {
        assert(s@.skip(0) =~= s@);
        assert(out@ + escaped(s@) =~= escaped(s@));
    }
    for c in it: s.chars()
        invariant
            it.seq() == s@,
            out@ + escaped(s@.skip(it.index())) == escaped(s@),
    {
        let ghost before = out@;
        proof {
            let tail = s@.skip(it.index());
            assert(tail[0] == c);
            assert(tail.skip(1) =~= s@.skip(it.index() + 1));
        }
        if c == '#' || c == ':' || c == '\\' {
            push_char(&mut out, '\\');
        }
        push_char(&mut out, c);
        proof {
            assert(out@ + escaped(s@.skip(it.index() + 1)) =~= before + escaped(
                s@.skip(it.index()),
            ));
        }
    }
    proof {
        assert(s@.skip(s@.len() as int) =~= Seq::<char>::empty());
        assert(out@ + Seq::<char>::empty() =~= out@);
    }
    out
}

/// Unescaping undoes escaping.
pub proof fn lemma_unescape_escape(s: Seq<char>)
    ensures
        unescaped(escaped(s)) == s,
    decreases s.len(),
{
    if s.len() > 0 {
        let c = s[0];
        let rest = escaped(s.skip(1));
        lemma_unescape_escape(s.skip(1));
        let e = escaped(s);
        if c == '#' || c == ':' || c == '\\' {
            assert(e =~= seq!['\\', c] + rest);
            assert(e.skip(2) =~= rest);
        } else {
            assert(e =~= seq![c] + rest);
            assert(e.skip(1) =~= rest);
        }
        assert(seq![c] + s.skip(1) =~= s);
    } else {
        assert(s =~= Seq::<char>::empty());
    }
}

/// Escaping is injective: different texts have different escaped forms.
pub proof fn lemma_escape_injective(a: Seq<char>, b: Seq<char>)
    requires
        escaped(a) == escaped(b),
    ensures
        a == b,
{
    lemma_unescape_escape(a);
    lemma_unescape_escape(b);
}

/// The outcome that an `Ordering` stands for.
pub open spec fn rank_of(o: Ordering) -> Rank {
    match o {
        Ordering::Less => Rank::Less,
        Ordering::Equal => Rank::Equal,
        Ordering::Greater => Rank::Greater,
    }
}

fn ordering_of(r: Rank) -> (o: Ordering)
    ensures
        rank_of(o) == r,
{
    match r {
        Rank::Less => Ordering::Less,
        Rank::Equal => Ordering::Equal,
        Rank::Greater => Ordering::Greater,
    }
}

/// Compares two key values: two of one type by their content (strings and
/// binary data by their bytes, numbers by value), two of different types by
/// the names of their types.
pub fn compare_key_values(a: &KeyValue, b: &KeyValue) -> (o: Ordering)
    ensures
        rank_of(o) == key_rank(a@, b@),
{
    ordering_of(key_rank_of(a, b))
}

/// Compares two attribute values: two strings, two numbers or two binary
/// values. Any other pair is a type mismatch.
pub fn compare_values(a: &AttributeValue, b: &AttributeValue) -> (r: Result<Ordering, EvalError>)
    ensures
        match r {
            Ok(o) => value_rank(a@, b@) == Ok::<_, EvalErrorView>(rank_of(o)),
            Err(e) => value_rank(a@, b@) == Err::<Rank, _>(e@),
        },
{
    match value_rank_of(a, b) {
        Ok(r) => Ok(ordering_of(r)),
        Err(e) => Err(e),
    }
}

/// Compares two number texts by value; where one is no decimal numeral they
/// are compared as plain strings.
pub fn compare_numeric_strings(a: &str, b: &str) -> (o: Ordering)
    ensures
        rank_of(o) == number_text_rank(a@, b@),
{
    ordering_of(number_text_rank_of(a, b))
}

/// Whether two number texts have the same value.
pub fn numbers_equal(a: &str, b: &str) -> (r: bool)
    ensures
        r == (number_text_rank(a@, b@) == Rank::Equal),
{
    number_text_rank_of(a, b).is_eq()
}

/// The exact sum of two number texts, or why there is none: one of them is no
/// decimal numeral.
pub open spec fn number_sum(a: Seq<char>, b: Seq<char>) -> Result<Seq<char>, TableErrorView> {
    let x = text_bytes(a);
    let y = text_bytes(b);
    if is_decimal(x) && is_decimal(y) {
        Ok(
            decimal_text(
                decimal_sum(decimal_of(x), decimal_of(y)),
                common_scale(decimal_of(x), decimal_of(y)),
            ),
        )
    } else {
        Err(TableErrorView::UpdateError("invalid number"@))
    }
}

/// The exact sum of two number texts of any length. Fails where one is no
/// decimal numeral.
pub fn add_numeric_strings(a: &str, b: &str) -> (r: Result<String, TableError>)
    ensures
        match r {
            Ok(t) => number_sum(a@, b@) == Ok::<_, TableErrorView>(t@),
            Err(e) => number_sum(a@, b@) == Err::<Seq<char>, _>(e@),
        },
{
    match add_numbers(a.as_bytes(), b.as_bytes()) {
        Ok(t) => Ok(t),
        Err(NumberError::NotANumber) => Err(TableError::update_error("invalid number")),
    }
}

} // verus!
