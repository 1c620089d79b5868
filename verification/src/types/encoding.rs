//! The binary encoding of attribute values.
//!
//! A value starts with a tag byte. Lengths and counts are one byte below 128
//! and four bytes otherwise, the first of them with its high bit set. Maps and
//! sets write their count and then their entries in ascending order, so that a
//! value has one encoding only.

use crate::bytes::copy_range;
use crate::sorted::{inserted, set_inserted, SortedMap, SortedSet};
use crate::text::{text_bytes, text_from_utf8};
use crate::types::attributes::{
    lemma_map_view, lemma_values_view_inserted, list_view, values_view, AttrMap, AttrView,
    AttributeValue, BinarySet, StringSet,
};
use vstd::prelude::*;
use vstd::string::StringSliceAdditionalSpecFns;
use vstd::utf8::{decode_utf8, valid_utf8};

verus! {

/// Why bytes could not be decoded.
#[derive(Debug, Clone, Copy, PartialEq, Eq, Structural)]
pub enum DecodeError {
    /// The bytes end before the value does.
    UnexpectedEof,
    /// A string is not valid UTF-8.
    InvalidUtf8,
    /// A value starts with a byte that is no type tag.
    InvalidTypeTag(u8),
    /// A boolean is neither 0 nor 1.
    InvalidBool(u8),
}

/// The largest length that the encoding can express, plus one.
pub open spec fn length_limit() -> nat {
    0x8000_0000
}

/// The encoding of a length or count.
pub open spec fn len_prefix(n: nat) -> Seq<u8> {
    if n < 128 {
        seq![n as u8]
    } else {
        seq![
            (128 + (n / 0x100_0000) % 128) as u8,
            ((n / 0x1_0000) % 256) as u8,
            ((n / 0x100) % 256) as u8,
            (n % 256) as u8,
        ]
    }
}

/// A run of bytes behind its length.
pub open spec fn block(b: Seq<u8>) -> Seq<u8> {
    len_prefix(b.len()) + b
}

/// The encoding of the strings of a set from index `i` on.
pub open spec fn encode_texts(s: Seq<Seq<char>>, i: nat) -> Seq<u8>
    decreases s.len() - i,
{
    if i >= s.len() {
        Seq::empty()
    } else {
        block(text_bytes(s[i as int])) + encode_texts(s, i + 1)
    }
}

/// The encoding of the binary values of a set from index `i` on.
pub open spec fn encode_blobs(s: Seq<Seq<u8>>, i: nat) -> Seq<u8>
    decreases s.len() - i,
{
    if i >= s.len() {
        Seq::empty()
    } else {
        block(s[i as int]) + encode_blobs(s, i + 1)
    }
}

/// The encoding of the entries of a map from index `i` on.
pub open spec fn encode_entries(e: Seq<(Seq<char>, AttrView)>, i: nat) -> Seq<u8>
    decreases e, e.len() - i,
{
    if i >= e.len() {
        Seq::empty()
    } else {
        block(text_bytes(e[i as int].0)) + encode_value(e[i as int].1) + encode_entries(e, i + 1)
    }
}

/// The encoding of the elements of a list from index `i` on.
pub open spec fn encode_list(l: Seq<AttrView>, i: nat) -> Seq<u8>
    decreases l, l.len() - i,
{
    if i >= l.len() {
        Seq::empty()
    } else {
        encode_value(l[i as int]) + encode_list(l, i + 1)
    }
}

/// The encoding of a value.
pub open spec fn encode_value(v: AttrView) -> Seq<u8>
    decreases v, 0nat,
{
    match v {
        AttrView::S(s) => seq![1u8] + block(text_bytes(s)),
        AttrView::N(n) => seq![2u8] + block(text_bytes(n)),
        AttrView::B(b) => seq![3u8] + block(b),
        AttrView::Bool(b) => seq![4u8, if b { 1u8 } else { 0u8 }],
        AttrView::Null => seq![5u8],
        AttrView::M(e) => seq![6u8] + len_prefix(e.len()) + encode_entries(e, 0),
        AttrView::L(l) => seq![7u8] + len_prefix(l.len()) + encode_list(l, 0),
        AttrView::Ss(s) => seq![8u8] + len_prefix(s.len()) + encode_texts(s, 0),
        AttrView::Ns(s) => seq![9u8] + len_prefix(s.len()) + encode_texts(s, 0),
        AttrView::Bs(s) => seq![10u8] + len_prefix(s.len()) + encode_blobs(s, 0),
    }
}

/// Reads a length or count from the front of `b`.
pub open spec fn parse_len(b: Seq<u8>) -> Result<(nat, Seq<u8>), DecodeError> {
    if b.len() == 0 {
        Err(DecodeError::UnexpectedEof)
    } else if b[0] < 128 {
        Ok((b[0] as nat, b.skip(1)))
    } else if b.len() < 4 {
        Err(DecodeError::UnexpectedEof)
    } else {
        Ok((((b[0] - 128) * 0x100_0000 + b[1] * 0x1_0000 + b[2] * 0x100 + b[3]) as nat, b.skip(4)))
    }
}

/// Reads a length and that many bytes from the front of `b`.
pub open spec fn parse_block(b: Seq<u8>) -> Result<(Seq<u8>, Seq<u8>), DecodeError> {
    match parse_len(b) {
        Err(e) => Err(e),
        Ok((n, rest)) => if rest.len() < n {
            Err(DecodeError::UnexpectedEof)
        } else {
            Ok((rest.take(n as int), rest.skip(n as int)))
        },
    }
}

/// Reads a string from the front of `b`.
pub open spec fn parse_text(b: Seq<u8>) -> Result<(Seq<char>, Seq<u8>), DecodeError> {
    match parse_block(b) {
        Err(e) => Err(e),
        Ok((bytes, rest)) => if valid_utf8(bytes) {
            Ok((decode_utf8(bytes), rest))
        } else {
            Err(DecodeError::InvalidUtf8)
        },
    }
}

/// Reads `n` strings from the front of `b` and adds them to the set `acc`.
pub open spec fn parse_texts(b: Seq<u8>, n: nat, acc: Seq<Seq<char>>) -> Result<
    (Seq<Seq<char>>, Seq<u8>),
    DecodeError,
>
    decreases n,
{
    if n == 0 {
        Ok((acc, b))
    } else {
        match parse_text(b) {
            Err(e) => Err(e),
            Ok((t, rest)) => parse_texts(rest, (n - 1) as nat, set_inserted::<String>(acc, t)),
        }
    }
}

/// Reads `n` binary values from the front of `b` and adds them to the set `acc`.
pub open spec fn parse_blobs(b: Seq<u8>, n: nat, acc: Seq<Seq<u8>>) -> Result<
    (Seq<Seq<u8>>, Seq<u8>),
    DecodeError,
>
    decreases n,
{
    if n == 0 {
        Ok((acc, b))
    } else {
        match parse_block(b) {
            Err(e) => Err(e),
            Ok((t, rest)) => parse_blobs(rest, (n - 1) as nat, set_inserted::<Vec<u8>>(acc, t)),
        }
    }
}

/// Reads `n` map entries from the front of `b` and stores them in `acc`; an
/// entry read later replaces one of the same name.
pub open spec fn parse_entries(b: Seq<u8>, n: nat, acc: Seq<(Seq<char>, AttrView)>) -> Result<
    (Seq<(Seq<char>, AttrView)>, Seq<u8>),
    DecodeError,
>
    decreases b.len(), n,
{
    if n == 0 {
        Ok((acc, b))
    } else {
        match parse_text(b) {
            Err(e) => Err(e),
            Ok((k, r1)) => if r1.len() < b.len() {
                match parse_value(r1) {
                    Err(e) => Err(e),
                    Ok((v, r2)) => if r2.len() <= r1.len() {
                        parse_entries(r2, (n - 1) as nat, inserted::<String, AttrView>(acc, k, v))
                    } else {
                        Err(DecodeError::UnexpectedEof)
                    },
                }
            } else {
                Err(DecodeError::UnexpectedEof)
            },
        }
    }
}

/// Reads `n` list elements from the front of `b` and appends them to `acc`.
pub open spec fn parse_list(b: Seq<u8>, n: nat, acc: Seq<AttrView>) -> Result<
    (Seq<AttrView>, Seq<u8>),
    DecodeError,
>
    decreases b.len(), n,
{
    if n == 0 {
        Ok((acc, b))
    } else {
        match parse_value(b) {
            Err(e) => Err(e),
            Ok((v, rest)) => if rest.len() < b.len() {
                parse_list(rest, (n - 1) as nat, acc.push(v))
            } else {
                Err(DecodeError::UnexpectedEof)
            },
        }
    }
}

/// Reads one value from the front of `b`; gives the value and the bytes behind
/// it.
pub open spec fn parse_value(b: Seq<u8>) -> Result<(AttrView, Seq<u8>), DecodeError>
    decreases b.len(), 0nat,
{
    if b.len() == 0 {
        Err(DecodeError::UnexpectedEof)
    } else {
        let tag = b[0];
        let body = b.skip(1);
        if tag == 1 {
            match parse_text(body) {
                Err(e) => Err(e),
                Ok((t, rest)) => Ok((AttrView::S(t), rest)),
            }
        } else if tag == 2 {
            match parse_text(body) {
                Err(e) => Err(e),
                Ok((t, rest)) => Ok((AttrView::N(t), rest)),
            }
        } else if tag == 3 {
            match parse_block(body) {
                Err(e) => Err(e),
                Ok((t, rest)) => Ok((AttrView::B(t), rest)),
            }
        } else if tag == 4 {
            if body.len() == 0 {
                Err(DecodeError::UnexpectedEof)
            } else if body[0] == 0 {
                Ok((AttrView::Bool(false), body.skip(1)))
            } else if body[0] == 1 {
                Ok((AttrView::Bool(true), body.skip(1)))
            } else {
                Err(DecodeError::InvalidBool(body[0]))
            }
        } else if tag == 5 {
            Ok((AttrView::Null, body))
        } else if tag == 6 {
            match parse_len(body) {
                Err(e) => Err(e),
                Ok((n, rest)) => match parse_entries(rest, n, Seq::empty()) {
                    Err(e) => Err(e),
                    Ok((e, after)) => Ok((AttrView::M(e), after)),
                },
            }
        } else if tag == 7 {
            match parse_len(body) {
                Err(e) => Err(e),
                Ok((n, rest)) => match parse_list(rest, n, Seq::empty()) {
                    Err(e) => Err(e),
                    Ok((l, after)) => Ok((AttrView::L(l), after)),
                },
            }
        } else if tag == 8 {
            match parse_len(body) {
                Err(e) => Err(e),
                Ok((n, rest)) => match parse_texts(rest, n, Seq::empty()) {
                    Err(e) => Err(e),
                    Ok((s, after)) => Ok((AttrView::Ss(s), after)),
                },
            }
        } else if tag == 9 {
            match parse_len(body) {
                Err(e) => Err(e),
                Ok((n, rest)) => match parse_texts(rest, n, Seq::empty()) {
                    Err(e) => Err(e),
                    Ok((s, after)) => Ok((AttrView::Ns(s), after)),
                },
            }
        } else if tag == 10 {
            match parse_len(body) {
                Err(e) => Err(e),
                Ok((n, rest)) => match parse_blobs(rest, n, Seq::empty()) {
                    Err(e) => Err(e),
                    Ok((s, after)) => Ok((AttrView::Bs(s), after)),
                },
            }
        } else {
            Err(DecodeError::InvalidTypeTag(tag))
        }
    }
}

/// The value that `b` starts with; bytes behind it are ignored.
pub open spec fn decode_value(b: Seq<u8>) -> Result<AttrView, DecodeError> {
    match parse_value(b) {
        Err(e) => Err(e),
        Ok((v, _)) => Ok(v),
    }
}

/// Writes values into a growing buffer of bytes.
pub struct Encoder {
    buf: Vec<u8>,
}

impl Encoder {
    /// The bytes written so far.
    pub closed spec fn written(&self) -> Seq<u8> {
        self.buf@
    }

    /// An encoder that has written nothing.
    pub fn new() -> (r: Self)
        ensures
            r.written() == Seq::<u8>::empty(),
    {
        Encoder { buf: Vec::new() }
    }

    /// An encoder that has written nothing, with room for `capacity` bytes.
    pub fn with_capacity(capacity: usize) -> (r: Self)
        ensures
            r.written() == Seq::<u8>::empty(),
    {
        Encoder { buf: Vec::with_capacity(capacity) }
    }

    /// Writes `value` and hands out all the bytes written.
    pub fn encode(self, value: &AttributeValue) -> (r: Vec<u8>)
        ensures
            r@ == self.written() + encode_value(value@),
    {
        let mut enc = self;
        enc.write_value(value);
        enc.buf
    }

    fn write_len(&mut self, len: usize)
        ensures
            final(self).buf@ == old(self).buf@ + len_prefix(len as nat),
    {
        if len < 128 {
            self.buf.push(len as u8);
            proof {
                assert(self.buf@ =~= old(self).buf@ + len_prefix(len as nat));
            }
        } else {
            self.buf.push((128 + (len / 0x100_0000) % 128) as u8);
            self.buf.push(((len / 0x1_0000) % 256) as u8);
            self.buf.push(((len / 0x100) % 256) as u8);
            self.buf.push((len % 256) as u8);
            proof {
                assert(self.buf@ =~= old(self).buf@ + len_prefix(len as nat));
            }
        }
    }

    fn write_bytes(&mut self, bytes: &[u8])
        ensures
            final(self).buf@ == old(self).buf@ + block(bytes@),
    {
        self.write_len(bytes.len());
        self.buf.extend_from_slice(bytes);
        proof {
            assert(self.buf@ =~= old(self).buf@ + block(bytes@));
        }
    }

    fn write_texts(&mut self, set: &StringSet)
        ensures
            final(self).buf@ == old(self).buf@ + len_prefix(set@.len()) + encode_texts(set@, 0),
    {
        self.write_len(set.len());
        let ghost start = self.buf@;
        let mut i: usize = 0;
        while i < set.len()
            invariant
                i <= set@.len(),
                self.buf@ + encode_texts(set@, i as nat) == start + encode_texts(set@, 0),
            decreases set@.len() - i,
        {
            let ghost before = self.buf@;
            self.write_bytes(set.item_at(i).as_str().as_bytes());
            proof {
                assert(self.buf@ + encode_texts(set@, (i + 1) as nat) =~= before + encode_texts(
                    set@,
                    i as nat,
                ));
            }
            i += 1;
        }
        proof {
            assert(self.buf@ =~= start + encode_texts(set@, 0));
        }
    }

    fn write_blobs(&mut self, set: &BinarySet)
        ensures
            final(self).buf@ == old(self).buf@ + len_prefix(set@.len()) + encode_blobs(set@, 0),
    {
        self.write_len(set.len());
        let ghost start = self.buf@;
        let mut i: usize = 0;
        while i < set.len()
            invariant
                i <= set@.len(),
                self.buf@ + encode_blobs(set@, i as nat) == start + encode_blobs(set@, 0),
            decreases set@.len() - i,
        {
            let ghost before = self.buf@;
            self.write_bytes(set.item_at(i).as_slice());
            proof {
                assert(self.buf@ + encode_blobs(set@, (i + 1) as nat) =~= before + encode_blobs(
                    set@,
                    i as nat,
                ));
            }
            i += 1;
        }
        proof {
            assert(self.buf@ =~= start + encode_blobs(set@, 0));
        }
    }

    fn write_entries(&mut self, m: &AttrMap)
        ensures
            final(self).buf@ == old(self).buf@ + len_prefix(m@.len()) + encode_entries(
                values_view(m@),
                0,
            ),
        decreases m, 1nat,
    {
        self.write_len(m.entries.len());
        let ghost start = self.buf@;
        let ghost e = values_view(m@);
        let mut i: usize = 0;
        while i < m.entries.len()
            invariant
                i <= m.entries.len(),
                e == values_view(m@),
                e.len() == m.entries.len(),
                self.buf@ + encode_entries(e, i as nat) == start + encode_entries(e, 0),
            decreases m.entries.len() - i,
        {
            let ghost before = self.buf@;
            self.write_bytes(m.entries[i].0.as_str().as_bytes());
            proof {
                assert(decreases_to!(m.entries => m.entries[i as int]));
            }
            self.write_value(&m.entries[i].1);
            proof {
                assert(e[i as int] == (m.entries@[i as int].0@, m.entries@[i as int].1@));
                assert(self.buf@ + encode_entries(e, (i + 1) as nat) =~= before + encode_entries(
                    e,
                    i as nat,
                ));
            }
            i += 1;
        }
        proof {
            assert(self.buf@ =~= start + encode_entries(e, 0));
        }
    }

    fn write_list(&mut self, l: &Vec<AttributeValue>)
        ensures
            final(self).buf@ == old(self).buf@ + len_prefix(l@.len()) + encode_list(list_view(l@), 0),
        decreases l, 1nat,
    {
        self.write_len(l.len());
        let ghost start = self.buf@;
        let ghost e = list_view(l@);
        let mut i: usize = 0;
        while i < l.len()
            invariant
                i <= l.len(),
                e == list_view(l@),
                self.buf@ + encode_list(e, i as nat) == start + encode_list(e, 0),
            decreases l.len() - i,
        {
            let ghost before = self.buf@;
            proof {
                assert(decreases_to!(l => l[i as int]));
            }
            self.write_value(&l[i]);
            proof {
                assert(e[i as int] == l@[i as int]@);
                assert(self.buf@ + encode_list(e, (i + 1) as nat) =~= before + encode_list(
                    e,
                    i as nat,
                ));
            }
            i += 1;
        }
        proof {
            assert(self.buf@ =~= start + encode_list(e, 0));
        }
    }

    fn write_value(&mut self, value: &AttributeValue)
        ensures
            final(self).buf@ == old(self).buf@ + encode_value(value@),
        decreases value, 0nat,
    {
        match value {
            AttributeValue::S(s) => {
                self.buf.push(1);
                self.write_bytes(s.as_str().as_bytes());
            },
            AttributeValue::N(n) => {
                self.buf.push(2);
                self.write_bytes(n.as_str().as_bytes());
            },
            AttributeValue::B(b) => {
                self.buf.push(3);
                self.write_bytes(b.as_slice());
            },
            AttributeValue::Bool(b) => {
                self.buf.push(4);
                self.buf.push(if *b { 1 } else { 0 });
            },
            AttributeValue::Null => {
                self.buf.push(5);
            },
            AttributeValue::M(m) => {
                proof {
                    assert(value->M_0 == *m);
                    lemma_map_view(*m);
                }
                self.buf.push(6);
                self.write_entries(m);
            },
            AttributeValue::L(l) => {
                proof {
                    assert(value->L_0 == *l);
                }
                self.buf.push(7);
                self.write_list(l);
            },
            AttributeValue::Ss(s) => {
                self.buf.push(8);
                self.write_texts(s);
            },
            AttributeValue::Ns(s) => {
                self.buf.push(9);
                self.write_texts(s);
            },
            AttributeValue::Bs(s) => {
                self.buf.push(10);
                self.write_blobs(s);
            },
        }
        proof {
            assert(self.buf@ =~= old(self).buf@ + encode_value(value@));
        }
    }
}

impl Default for Encoder {
    fn default() -> (r: Self)
        ensures
            r.written() == Seq::<u8>::empty(),
    {
        Encoder::new()
    }
}

/// The encoding of `value`.
pub fn encode(value: &AttributeValue) -> (r: Vec<u8>)
    ensures
        r@ == encode_value(value@),
{
    let r = Encoder::new().encode(value);
    proof {
        assert(Seq::<u8>::empty() + encode_value(value@) =~= encode_value(value@));
    }
    r
}

/// Reads a length or count at `pos`.
fn read_len(data: &[u8], pos: usize) -> (r: Result<(usize, usize), DecodeError>)
    requires
        pos <= data.len(),
    ensures
        match r {
            Ok((n, p)) => parse_len(data@.skip(pos as int)) == Ok::<_, DecodeError>(
                (n as nat, data@.skip(p as int)),
            ) && pos < p <= data.len() && n < length_limit(),
            Err(e) => parse_len(data@.skip(pos as int)) == Err::<(nat, Seq<u8>), _>(e),
        },
{
    if pos >= data.len() {
        return Err(DecodeError::UnexpectedEof);
    }
    let first = data[pos];
    if first < 128 {
        proof {
            assert(data@.skip(pos as int).skip(1) =~= data@.skip(pos + 1));
        }
        return Ok((first as usize, pos + 1));
    }
    if data.len() - pos < 4 {
        return Err(DecodeError::UnexpectedEof);
    }
    let b1 = (first - 128) as usize;
    let b2 = data[pos + 1] as usize;
    let b3 = data[pos + 2] as usize;
    let b4 = data[pos + 3] as usize;
    proof {
        assert(data@.skip(pos as int).skip(4) =~= data@.skip(pos + 4));
    }
    Ok((b1 * 0x100_0000 + b2 * 0x1_0000 + b3 * 0x100 + b4, pos + 4))
}

/// Reads a length and that many bytes at `pos`.
fn read_block(data: &[u8], pos: usize) -> (r: Result<(Vec<u8>, usize), DecodeError>)
    requires
        pos <= data.len(),
    ensures
        match r {
            Ok((b, p)) => parse_block(data@.skip(pos as int)) == Ok::<_, DecodeError>(
                (b@, data@.skip(p as int)),
            ) && pos < p <= data.len(),
            Err(e) => parse_block(data@.skip(pos as int)) == Err::<(Seq<u8>, Seq<u8>), _>(e),
        },
{
    let (n, start) = match read_len(data, pos) {
        Ok(x) => x,
        Err(e) => {
            return Err(e);
        },
    };
    if data.len() - start < n {
        return Err(DecodeError::UnexpectedEof);
    }
    let bytes = copy_range(data, start, start + n);
    proof {
        let rest = data@.skip(start as int);
        assert(rest.take(n as int) =~= data@.subrange(start as int, start + n));
        assert(rest.skip(n as int) =~= data@.skip(start + n));
    }
    Ok((bytes, start + n))
}

/// Reads a string at `pos`.
fn read_text(data: &[u8], pos: usize) -> (r: Result<(String, usize), DecodeError>)
    requires
        pos <= data.len(),
    ensures
        match r {
            Ok((t, p)) => parse_text(data@.skip(pos as int)) == Ok::<_, DecodeError>(
                (t@, data@.skip(p as int)),
            ) && pos < p <= data.len(),
            Err(e) => parse_text(data@.skip(pos as int)) == Err::<(Seq<char>, Seq<u8>), _>(e),
        },
{
    let (bytes, p) = match read_block(data, pos) {
        Ok(x) => x,
        Err(e) => {
            return Err(e);
        },
    };
    match text_from_utf8(bytes) {
        Some(t) => Ok((t, p)),
        None => Err(DecodeError::InvalidUtf8),
    }
}

/// Reads `n` strings at `pos` into a set.
fn read_texts(data: &[u8], pos: usize, n: usize) -> (r: Result<(StringSet, usize), DecodeError>)
    requires
        pos <= data.len(),
    ensures
        match r {
            Ok((s, p)) => parse_texts(data@.skip(pos as int), n as nat, Seq::empty()) == Ok::<
                _,
                DecodeError,
            >((s@, data@.skip(p as int))) && pos <= p <= data.len(),
            Err(e) => parse_texts(data@.skip(pos as int), n as nat, Seq::empty()) == Err::<
                (Seq<Seq<char>>, Seq<u8>),
                _,
            >(e),
        },
{
    let mut acc: StringSet = SortedSet::new();
    let mut p: usize = pos;
    let mut i: usize = 0;
    while i < n
        invariant
            i <= n,
            pos <= p <= data.len(),
            parse_texts(data@.skip(pos as int), n as nat, Seq::empty()) == parse_texts(
                data@.skip(p as int),
                (n - i) as nat,
                acc@,
            ),
        decreases n - i,
    {
        let (t, next) = match read_text(data, p) {
            Ok(x) => x,
            Err(e) => {
                return Err(e);
            },
        };
        acc.insert(t);
        p = next;
        i += 1;
    }
    Ok((acc, p))
}

/// Reads `n` binary values at `pos` into a set.
fn read_blobs(data: &[u8], pos: usize, n: usize) -> (r: Result<(BinarySet, usize), DecodeError>)
    requires
        pos <= data.len(),
    ensures
        match r {
            Ok((s, p)) => parse_blobs(data@.skip(pos as int), n as nat, Seq::empty()) == Ok::<
                _,
                DecodeError,
            >((s@, data@.skip(p as int))) && pos <= p <= data.len(),
            Err(e) => parse_blobs(data@.skip(pos as int), n as nat, Seq::empty()) == Err::<
                (Seq<Seq<u8>>, Seq<u8>),
                _,
            >(e),
        },
{
    let mut acc: BinarySet = SortedSet::new();
    let mut p: usize = pos;
    let mut i: usize = 0;
    while i < n
        invariant
            i <= n,
            pos <= p <= data.len(),
            parse_blobs(data@.skip(pos as int), n as nat, Seq::empty()) == parse_blobs(
                data@.skip(p as int),
                (n - i) as nat,
                acc@,
            ),
        decreases n - i,
    {
        let (t, next) = match read_block(data, p) {
            Ok(x) => x,
            Err(e) => {
                return Err(e);
            },
        };
        acc.insert(t);
        p = next;
        i += 1;
    }
    Ok((acc, p))
}

/// Reads `n` map entries at `pos`.
fn read_entries(data: &[u8], pos: usize, n: usize) -> (r: Result<(AttrMap, usize), DecodeError>)
    requires
        pos <= data.len(),
    ensures
        match r {
            Ok((m, p)) => parse_entries(data@.skip(pos as int), n as nat, Seq::empty()) == Ok::<
                _,
                DecodeError,
            >((values_view(m@), data@.skip(p as int))) && pos <= p <= data.len(),
            Err(e) => parse_entries(data@.skip(pos as int), n as nat, Seq::empty()) == Err::<
                (Seq<(Seq<char>, AttrView)>, Seq<u8>),
                _,
            >(e),
        },
    decreases data.len() - pos, 1nat,
{
    let mut acc: AttrMap = SortedMap::new();
    let mut p: usize = pos;
    let mut i: usize = 0;
    proof {
        assert(values_view(acc@) =~= Seq::empty());
    }
    while i < n
        invariant
            i <= n,
            pos <= p <= data.len(),
            parse_entries(data@.skip(pos as int), n as nat, Seq::empty()) == parse_entries(
                data@.skip(p as int),
                (n - i) as nat,
                values_view(acc@),
            ),
        decreases n - i,
    {
        let (k, after_key) = match read_text(data, p) {
            Ok(x) => x,
            Err(e) => {
                return Err(e);
            },
        };
        let (v, after_value) = match read_value(data, after_key) {
            Ok(x) => x,
            Err(e) => {
                return Err(e);
            },
        };
        proof {
            lemma_values_view_inserted(acc@, k@, v);
        }
        acc.insert(k, v);
        p = after_value;
        i += 1;
    }
    Ok((acc, p))
}

/// Reads `n` list elements at `pos`.
fn read_list(data: &[u8], pos: usize, n: usize) -> (r: Result<(Vec<AttributeValue>, usize), DecodeError>)
    requires
        pos <= data.len(),
    ensures
        match r {
            Ok((l, p)) => parse_list(data@.skip(pos as int), n as nat, Seq::empty()) == Ok::<
                _,
                DecodeError,
            >((list_view(l@), data@.skip(p as int))) && pos <= p <= data.len(),
            Err(e) => parse_list(data@.skip(pos as int), n as nat, Seq::empty()) == Err::<
                (Seq<AttrView>, Seq<u8>),
                _,
            >(e),
        },
    decreases data.len() - pos, 1nat,
{
    let mut acc: Vec<AttributeValue> = Vec::new();
    let mut p: usize = pos;
    let mut i: usize = 0;
    proof {
        assert(list_view(acc@) =~= Seq::empty());
    }
    while i < n
        invariant
            i <= n,
            pos <= p <= data.len(),
            parse_list(data@.skip(pos as int), n as nat, Seq::empty()) == parse_list(
                data@.skip(p as int),
                (n - i) as nat,
                list_view(acc@),
            ),
        decreases n - i,
    {
        let (v, next) = match read_value(data, p) {
            Ok(x) => x,
            Err(e) => {
                return Err(e);
            },
        };
        proof {
            assert(list_view(acc@.push(v)) =~= list_view(acc@).push(v@));
        }
        acc.push(v);
        p = next;
        i += 1;
    }
    Ok((acc, p))
}

/// Reads one value at `pos`; gives the value and the position behind it.
fn read_value(data: &[u8], pos: usize) -> (r: Result<(AttributeValue, usize), DecodeError>)
    requires
        pos <= data.len(),
    ensures
        match r {
            Ok((v, p)) => parse_value(data@.skip(pos as int)) == Ok::<_, DecodeError>(
                (v@, data@.skip(p as int)),
            ) && pos < p <= data.len(),
            Err(e) => parse_value(data@.skip(pos as int)) == Err::<(AttrView, Seq<u8>), _>(e),
        },
    decreases data.len() - pos, 0nat,
{
    if pos >= data.len() {
        return Err(DecodeError::UnexpectedEof);
    }
    let tag = data[pos];
    let body: usize = pos + 1;
    proof {
        assert(data@.skip(pos as int).skip(1) =~= data@.skip(body as int));
        assert(data@.skip(pos as int)[0] == tag);
    }
    if tag == 1 {
        match read_text(data, body) {
            Ok((t, p)) => Ok((AttributeValue::S(t), p)),
            Err(e) => Err(e),
        }
    } else if tag == 2 {
        match read_text(data, body) {
            Ok((t, p)) => Ok((AttributeValue::N(t), p)),
            Err(e) => Err(e),
        }
    } else if tag == 3 {
        match read_block(data, body) {
            Ok((b, p)) => Ok((AttributeValue::B(b), p)),
            Err(e) => Err(e),
        }
    } else if tag == 4 {
        if body >= data.len() {
            return Err(DecodeError::UnexpectedEof);
        }
        let b = data[body];
        proof {
            assert(data@.skip(body as int).skip(1) =~= data@.skip(body + 1));
        }
        if b == 0 {
            Ok((AttributeValue::Bool(false), body + 1))
        } else if b == 1 {
            Ok((AttributeValue::Bool(true), body + 1))
        } else {
            Err(DecodeError::InvalidBool(b))
        }
    } else if tag == 5 {
        Ok((AttributeValue::Null, body))
    } else if tag == 6 {
        let (n, start) = match read_len(data, body) {
            Ok(x) => x,
            Err(e) => {
                return Err(e);
            },
        };
        match read_entries(data, start, n) {
            Ok((m, p)) => {
                proof {
                    lemma_map_view(m);
                }
                Ok((AttributeValue::M(m), p))
            },
            Err(e) => Err(e),
        }
    } else if tag == 7 {
        let (n, start) = match read_len(data, body) {
            Ok(x) => x,
            Err(e) => {
                return Err(e);
            },
        };
        match read_list(data, start, n) {
            Ok((l, p)) => Ok((AttributeValue::L(l), p)),
            Err(e) => Err(e),
        }
    } else if tag == 8 {
        let (n, start) = match read_len(data, body) {
            Ok(x) => x,
            Err(e) => {
                return Err(e);
            },
        };
        match read_texts(data, start, n) {
            Ok((s, p)) => Ok((AttributeValue::Ss(s), p)),
            Err(e) => Err(e),
        }
    } else if tag == 9 {
        let (n, start) = match read_len(data, body) {
            Ok(x) => x,
            Err(e) => {
                return Err(e);
            },
        };
        match read_texts(data, start, n) {
            Ok((s, p)) => Ok((AttributeValue::Ns(s), p)),
            Err(e) => Err(e),
        }
    } else if tag == 10 {
        let (n, start) = match read_len(data, body) {
            Ok(x) => x,
            Err(e) => {
                return Err(e);
            },
        };
        match read_blobs(data, start, n) {
            Ok((s, p)) => Ok((AttributeValue::Bs(s), p)),
            Err(e) => Err(e),
        }
    } else {
        Err(DecodeError::InvalidTypeTag(tag))
    }
}

/// Reads one value from the front of a run of bytes.
pub struct Decoder<'a> {
    data: &'a [u8],
}

impl<'a> Decoder<'a> {
    /// The bytes that the decoder reads.
    pub closed spec fn input(&self) -> Seq<u8> {
        self.data@
    }

    /// A decoder at the start of `data`.
    pub fn new(data: &'a [u8]) -> (r: Self)
        ensures
            r.input() == data@,
    {
        Decoder { data }
    }

    /// The value that the bytes start with. Bytes behind it are ignored.
    pub fn decode(self) -> (r: Result<AttributeValue, DecodeError>)
        ensures
            match r {
                Ok(v) => decode_value(self.input()) == Ok::<_, DecodeError>(v@),
                Err(e) => decode_value(self.input()) == Err::<AttrView, _>(e),
            },
    {
        proof {
            assert(self.data@.skip(0) =~= self.data@);
        }
        match read_value(self.data, 0) {
            Ok((v, _)) => Ok(v),
            Err(e) => Err(e),
        }
    }
}

/// The value that `data` starts with. Bytes behind it are ignored.
pub fn decode(data: &[u8]) -> (r: Result<AttributeValue, DecodeError>)
    ensures
        match r {
            Ok(v) => decode_value(data@) == Ok::<_, DecodeError>(v@),
            Err(e) => decode_value(data@) == Err::<AttrView, _>(e),
        },
{
    Decoder::new(data).decode()
}

/// Every length and count in the value is below the limit of the encoding.
pub open spec fn encodable(v: AttrView) -> bool
    decreases v,
{
    match v {
        AttrView::S(s) => text_bytes(s).len() < length_limit(),
        AttrView::N(s) => text_bytes(s).len() < length_limit(),
        AttrView::B(b) => b.len() < length_limit(),
        AttrView::M(e) => e.len() < length_limit() && forall|i: int|
            0 <= i < e.len() ==> text_bytes((#[trigger] e[i]).0).len() < length_limit()
                && encodable(e[i].1),
        AttrView::L(l) => l.len() < length_limit() && forall|i: int|
            0 <= i < l.len() ==> encodable(#[trigger] l[i]),
        AttrView::Ss(s) => s.len() < length_limit() && forall|i: int|
            0 <= i < s.len() ==> text_bytes(#[trigger] s[i]).len() < length_limit(),
        AttrView::Ns(s) => s.len() < length_limit() && forall|i: int|
            0 <= i < s.len() ==> text_bytes(#[trigger] s[i]).len() < length_limit(),
        AttrView::Bs(s) => s.len() < length_limit() && forall|i: int|
            0 <= i < s.len() ==> (#[trigger] s[i]).len() < length_limit(),
        _ => true,
    }
}

/// A length below the limit is read back as it was written.
#[verifier::spinoff_prover]
pub proof fn lemma_parse_len(n: nat, rest: Seq<u8>)
    requires
        n < length_limit(),
    ensures
        parse_len(len_prefix(n) + rest) == Ok::<_, DecodeError>((n, rest)),
{
    let b = len_prefix(n) + rest;
    if n < 128 {
        assert(b[0] == n as u8);
        assert(b.skip(1) =~= rest);
    } else {
        assert(b[0] == (128 + (n / 0x100_0000) % 128) as u8);
        assert(b[1] == ((n / 0x1_0000) % 256) as u8);
        assert(b[2] == ((n / 0x100) % 256) as u8);
        assert(b[3] == (n % 256) as u8);
        assert(b.skip(4) =~= rest);
        assert(n / 0x100_0000 < 128);
        assert((n / 0x100_0000) * 0x100_0000 + ((n / 0x1_0000) % 256) * 0x1_0000 + ((n / 0x100)
            % 256) * 0x100 + n % 256 == n);
    }
}

/// A run of bytes is read back as it was written.
pub proof fn lemma_parse_block(bytes: Seq<u8>, rest: Seq<u8>)
    requires
        bytes.len() < length_limit(),
    ensures
        parse_block(block(bytes) + rest) == Ok::<_, DecodeError>((bytes, rest)),
{
    lemma_parse_len(bytes.len(), bytes + rest);
    assert(block(bytes) + rest =~= len_prefix(bytes.len()) + (bytes + rest));
    assert((bytes + rest).take(bytes.len() as int) =~= bytes);
    assert((bytes + rest).skip(bytes.len() as int) =~= rest);
}

/// A string is read back as it was written.
pub proof fn lemma_parse_text(t: Seq<char>, rest: Seq<u8>)
    requires
        text_bytes(t).len() < length_limit(),
    ensures
        parse_text(block(text_bytes(t)) + rest) == Ok::<_, DecodeError>((t, rest)),
{
    lemma_parse_block(text_bytes(t), rest);
    vstd::utf8::encode_utf8_valid_utf8(t);
    vstd::utf8::encode_utf8_decode_utf8(t);
}

/// A sorted set of strings is read back as it was written.
#[verifier::spinoff_prover]
pub proof fn lemma_parse_texts(s: Seq<Seq<char>>, i: nat, rest: Seq<u8>)
    requires
        crate::sorted::set_sorted::<String>(s),
        forall|j: int| 0 <= j < s.len() ==> text_bytes(#[trigger] s[j]).len() < length_limit(),
        i <= s.len(),
    ensures
        parse_texts(encode_texts(s, i) + rest, (s.len() - i) as nat, s.take(i as int)) == Ok::<
            _,
            DecodeError,
        >((s, rest)),
    decreases s.len() - i,
{
    if i == s.len() {
        assert(s.take(i as int) =~= s);
        assert(encode_texts(s, i) + rest =~= rest);
    } else {
        let tail = encode_texts(s, i + 1) + rest;
        assert(encode_texts(s, i) + rest =~= block(text_bytes(s[i as int])) + tail);
        lemma_parse_text(s[i as int], tail);
        let acc = s.take(i as int);
        let e = crate::sorted::set_entries::<String>(acc);
        assert forall|j: int| 0 <= j < e.len() implies crate::bytes::lex_lt(
            text_bytes((#[trigger] e[j]).0),
            text_bytes(s[i as int]),
        ) by {
            let all = crate::sorted::set_entries::<String>(s);
            assert(all[j].0 == s[j] && all[i as int].0 == s[i as int]);
        }
        crate::sorted::lemma_inserted_at_end::<String, ()>(e, s[i as int], ());
        assert(set_inserted::<String>(acc, s[i as int]) =~= s.take((i + 1) as int));
        lemma_parse_texts(s, i + 1, rest);
    }
}

/// A sorted set of binary values is read back as it was written.
#[verifier::spinoff_prover]
pub proof fn lemma_parse_blobs(s: Seq<Seq<u8>>, i: nat, rest: Seq<u8>)
    requires
        crate::sorted::set_sorted::<Vec<u8>>(s),
        forall|j: int| 0 <= j < s.len() ==> (#[trigger] s[j]).len() < length_limit(),
        i <= s.len(),
    ensures
        parse_blobs(encode_blobs(s, i) + rest, (s.len() - i) as nat, s.take(i as int)) == Ok::<
            _,
            DecodeError,
        >((s, rest)),
    decreases s.len() - i,
{
    if i == s.len() {
        assert(s.take(i as int) =~= s);
        assert(encode_blobs(s, i) + rest =~= rest);
    } else {
        let tail = encode_blobs(s, i + 1) + rest;
        assert(encode_blobs(s, i) + rest =~= block(s[i as int]) + tail);
        lemma_parse_block(s[i as int], tail);
        let acc = s.take(i as int);
        let e = crate::sorted::set_entries::<Vec<u8>>(acc);
        assert forall|j: int| 0 <= j < e.len() implies crate::bytes::lex_lt(
            (#[trigger] e[j]).0,
            s[i as int],
        ) by {
            let all = crate::sorted::set_entries::<Vec<u8>>(s);
            assert(all[j].0 == s[j] && all[i as int].0 == s[i as int]);
        }
        crate::sorted::lemma_inserted_at_end::<Vec<u8>, ()>(e, s[i as int], ());
        assert(set_inserted::<Vec<u8>>(acc, s[i as int]) =~= s.take((i + 1) as int));
        lemma_parse_blobs(s, i + 1, rest);
    }
}

/// Reading entries takes one entry and goes on with the rest.
pub proof fn lemma_parse_entries_step(
    b: Seq<u8>,
    n: nat,
    acc: Seq<(Seq<char>, AttrView)>,
    k: Seq<char>,
    r1: Seq<u8>,
    v: AttrView,
    r2: Seq<u8>,
)
    requires
        n > 0,
        parse_text(b) == Ok::<_, DecodeError>((k, r1)),
        r1.len() < b.len(),
        parse_value(r1) == Ok::<_, DecodeError>((v, r2)),
        r2.len() <= r1.len(),
    ensures
        parse_entries(b, n, acc) == parse_entries(
            r2,
            (n - 1) as nat,
            inserted::<String, AttrView>(acc, k, v),
        ),
{
}

/// Reading list elements takes one element and goes on with the rest.
pub proof fn lemma_parse_list_step(b: Seq<u8>, n: nat, acc: Seq<AttrView>, v: AttrView, rest: Seq<u8>)
    requires
        n > 0,
        parse_value(b) == Ok::<_, DecodeError>((v, rest)),
        rest.len() < b.len(),
    ensures
        parse_list(b, n, acc) == parse_list(rest, (n - 1) as nat, acc.push(v)),
{
}

/// The entries of a well-formed map are read back as they were written.
#[verifier::spinoff_prover]
pub proof fn lemma_parse_entries(e: Seq<(Seq<char>, AttrView)>, i: nat, rest: Seq<u8>)
    requires
        crate::types::attributes::attr_wf(AttrView::M(e)),
        encodable(AttrView::M(e)),
        i <= e.len(),
    ensures
        parse_entries(encode_entries(e, i) + rest, (e.len() - i) as nat, e.take(i as int)) == Ok::<
            _,
            DecodeError,
        >((e, rest)),
    decreases e, e.len() - i,
{
    if i == e.len() {
        assert(e.take(i as int) =~= e);
        assert(encode_entries(e, i) + rest =~= rest);
    } else {
        let k = e[i as int].0;
        let v = e[i as int].1;
        let tail = encode_entries(e, i + 1) + rest;
        let r1 = encode_value(v) + tail;
        let b = encode_entries(e, i) + rest;
        assert(b =~= block(text_bytes(k)) + r1);
        assert(text_bytes(k).len() < length_limit());
        assert(encodable(v) && crate::types::attributes::attr_wf(v));
        lemma_parse_text(k, r1);
        lemma_parse_value(v, tail);
        let acc = e.take(i as int);
        assert forall|j: int| 0 <= j < acc.len() implies crate::bytes::lex_lt(
            text_bytes((#[trigger] acc[j]).0),
            text_bytes(k),
        ) by {
            assert(acc[j] == e[j]);
        }
        crate::sorted::lemma_inserted_at_end::<String, AttrView>(acc, k, v);
        assert(acc.push((k, v)) =~= e.take((i + 1) as int));
        assert(block(text_bytes(k)).len() > 0);
        lemma_parse_entries_step(b, (e.len() - i) as nat, acc, k, r1, v, tail);
        lemma_parse_entries(e, i + 1, rest);
    }
}

/// The elements of a well-formed list are read back as they were written.
#[verifier::spinoff_prover]
pub proof fn lemma_parse_list(l: Seq<AttrView>, i: nat, rest: Seq<u8>)
    requires
        crate::types::attributes::attr_wf(AttrView::L(l)),
        encodable(AttrView::L(l)),
        i <= l.len(),
    ensures
        parse_list(encode_list(l, i) + rest, (l.len() - i) as nat, l.take(i as int)) == Ok::<
            _,
            DecodeError,
        >((l, rest)),
    decreases l, l.len() - i,
{
    if i == l.len() {
        assert(l.take(i as int) =~= l);
        assert(encode_list(l, i) + rest =~= rest);
    } else {
        let v = l[i as int];
        let tail = encode_list(l, i + 1) + rest;
        let b = encode_list(l, i) + rest;
        assert(b =~= encode_value(v) + tail);
        assert(encodable(v) && crate::types::attributes::attr_wf(v));
        lemma_parse_value(v, tail);
        assert(l.take(i as int).push(v) =~= l.take((i + 1) as int));
        lemma_parse_list_step(b, (l.len() - i) as nat, l.take(i as int), v, tail);
        lemma_parse_list(l, i + 1, rest);
    }
}

/// A string, number, binary, boolean or null value is read back as it was
/// written.
#[verifier::spinoff_prover]
pub proof fn lemma_parse_scalar(v: AttrView, rest: Seq<u8>)
    requires
        v is S || v is N || v is B || v is Bool || v is Null,
        encodable(v),
    ensures
        parse_value(encode_value(v) + rest) == Ok::<_, DecodeError>((v, rest)),
{
    let b = encode_value(v) + rest;
    match v {
        AttrView::S(s) => {
            assert(b[0] == 1u8);
            assert(b.skip(1) =~= block(text_bytes(s)) + rest);
            lemma_parse_text(s, rest);
        },
        AttrView::N(s) => {
            assert(b[0] == 2u8);
            assert(b.skip(1) =~= block(text_bytes(s)) + rest);
            lemma_parse_text(s, rest);
        },
        AttrView::B(bytes) => {
            assert(b[0] == 3u8);
            assert(b.skip(1) =~= block(bytes) + rest);
            lemma_parse_block(bytes, rest);
        },
        AttrView::Bool(x) => {
            assert(b[0] == 4u8);
            assert(b.skip(1)[0] == if x { 1u8 } else { 0u8 });
            assert(b.skip(1).skip(1) =~= rest);
        },
        _ => {
            assert(b[0] == 5u8);
            assert(b.skip(1) =~= rest);
        },
    }
}

/// A sorted set of strings is read back as it was written.
#[verifier::spinoff_prover]
pub proof fn lemma_parse_string_set(s: Seq<Seq<char>>, rest: Seq<u8>)
    requires
        crate::types::attributes::attr_wf(AttrView::Ss(s)),
        encodable(AttrView::Ss(s)),
    ensures
        parse_value(encode_value(AttrView::Ss(s)) + rest) == Ok::<_, DecodeError>(
            (AttrView::Ss(s), rest),
        ),
{
    let b = encode_value(AttrView::Ss(s)) + rest;
    let inner = encode_texts(s, 0) + rest;
    assert(b[0] == 8u8);
    assert(b.skip(1) =~= len_prefix(s.len()) + inner);
    lemma_parse_len(s.len(), inner);
    assert(s.take(0) =~= Seq::<Seq<char>>::empty());
    lemma_parse_texts(s, 0, rest);
}

/// A sorted set of numbers is read back as it was written.
#[verifier::spinoff_prover]
pub proof fn lemma_parse_number_set(s: Seq<Seq<char>>, rest: Seq<u8>)
    requires
        crate::types::attributes::attr_wf(AttrView::Ns(s)),
        encodable(AttrView::Ns(s)),
    ensures
        parse_value(encode_value(AttrView::Ns(s)) + rest) == Ok::<_, DecodeError>(
            (AttrView::Ns(s), rest),
        ),
{
    let b = encode_value(AttrView::Ns(s)) + rest;
    let inner = encode_texts(s, 0) + rest;
    assert(b[0] == 9u8);
    assert(b.skip(1) =~= len_prefix(s.len()) + inner);
    lemma_parse_len(s.len(), inner);
    assert(s.take(0) =~= Seq::<Seq<char>>::empty());
    lemma_parse_texts(s, 0, rest);
}

/// A sorted set of binary values is read back as it was written.
#[verifier::spinoff_prover]
pub proof fn lemma_parse_binary_set(s: Seq<Seq<u8>>, rest: Seq<u8>)
    requires
        crate::types::attributes::attr_wf(AttrView::Bs(s)),
        encodable(AttrView::Bs(s)),
    ensures
        parse_value(encode_value(AttrView::Bs(s)) + rest) == Ok::<_, DecodeError>(
            (AttrView::Bs(s), rest),
        ),
{
    let b = encode_value(AttrView::Bs(s)) + rest;
    let inner = encode_blobs(s, 0) + rest;
    assert(b[0] == 10u8);
    assert(b.skip(1) =~= len_prefix(s.len()) + inner);
    lemma_parse_len(s.len(), inner);
    assert(s.take(0) =~= Seq::<Seq<u8>>::empty());
    lemma_parse_blobs(s, 0, rest);
}

/// A well-formed map is read back as it was written.
#[verifier::spinoff_prover]
pub proof fn lemma_parse_map(e: Seq<(Seq<char>, AttrView)>, rest: Seq<u8>)
    requires
        crate::types::attributes::attr_wf(AttrView::M(e)),
        encodable(AttrView::M(e)),
    ensures
        parse_value(encode_value(AttrView::M(e)) + rest) == Ok::<_, DecodeError>(
            (AttrView::M(e), rest),
        ),
    decreases e, e.len() + 1,
{
    let b = encode_value(AttrView::M(e)) + rest;
    let inner = encode_entries(e, 0) + rest;
    assert(b[0] == 6u8);
    assert(b.skip(1) =~= len_prefix(e.len()) + inner);
    lemma_parse_len(e.len(), inner);
    assert(e.take(0) =~= Seq::<(Seq<char>, AttrView)>::empty());
    lemma_parse_entries(e, 0, rest);
}

/// A well-formed list is read back as it was written.
#[verifier::spinoff_prover]
pub proof fn lemma_parse_seq(l: Seq<AttrView>, rest: Seq<u8>)
    requires
        crate::types::attributes::attr_wf(AttrView::L(l)),
        encodable(AttrView::L(l)),
    ensures
        parse_value(encode_value(AttrView::L(l)) + rest) == Ok::<_, DecodeError>(
            (AttrView::L(l), rest),
        ),
    decreases l, l.len() + 1,
{
    let b = encode_value(AttrView::L(l)) + rest;
    let inner = encode_list(l, 0) + rest;
    assert(b[0] == 7u8);
    assert(b.skip(1) =~= len_prefix(l.len()) + inner);
    lemma_parse_len(l.len(), inner);
    assert(l.take(0) =~= Seq::<AttrView>::empty());
    lemma_parse_list(l, 0, rest);
}

/// A well-formed value whose lengths the encoding can express is read back as
/// it was written, whatever bytes follow it.
pub proof fn lemma_parse_value(v: AttrView, rest: Seq<u8>)
    requires
        crate::types::attributes::attr_wf(v),
        encodable(v),
    ensures
        parse_value(encode_value(v) + rest) == Ok::<_, DecodeError>((v, rest)),
        encode_value(v).len() > 0,
    decreases v, 0nat,
{
    match v {
        AttrView::M(e) => {
            lemma_parse_map(e, rest);
        },
        AttrView::L(l) => {
            lemma_parse_seq(l, rest);
        },
        AttrView::Ss(s) => {
            lemma_parse_string_set(s, rest);
        },
        AttrView::Ns(s) => {
            lemma_parse_number_set(s, rest);
        },
        AttrView::Bs(s) => {
            lemma_parse_binary_set(s, rest);
        },
        _ => {
            lemma_parse_scalar(v, rest);
        },
    }
}

/// Decoding undoes encoding: a well-formed value whose lengths the encoding
/// can express comes back from its own encoding unchanged.
pub proof fn lemma_decode_encode(v: AttrView)
    requires
        crate::types::attributes::attr_wf(v),
        encodable(v),
    ensures
        decode_value(encode_value(v)) == Ok::<_, DecodeError>(v),
{
    lemma_parse_value(v, Seq::empty());
    assert(encode_value(v) + Seq::<u8>::empty() =~= encode_value(v));
}

/// The encoding is canonical: two well-formed maps that hold the same values
/// under the same names have the same bytes, in whatever order they were
/// filled.
pub proof fn lemma_encoding_canonical(a: Seq<(Seq<char>, AttrView)>, b: Seq<(Seq<char>, AttrView)>)
    requires
        crate::sorted::sorted::<String, AttrView>(a),
        crate::sorted::sorted::<String, AttrView>(b),
        crate::sorted::as_map::<String, AttrView>(a) == crate::sorted::as_map::<String, AttrView>(b),
    ensures
        encode_value(AttrView::M(a)) == encode_value(AttrView::M(b)),
{
    crate::sorted::lemma_sorted_unique::<String, AttrView>(a, b);
}

/// A value can be stored: it is well formed, and the encoding can express
/// every length and count in it.
pub open spec fn storable(v: AttrView) -> bool {
    crate::types::attributes::attr_wf(v) && encodable(v)
}

fn below_limit(n: usize) -> (r: bool)
    ensures
        r == (n < length_limit()),
{
    n < 0x8000_0000
}

fn texts_storable(set: &StringSet) -> (r: bool)
    ensures
        r == (crate::sorted::set_sorted::<String>(set@) && set@.len() < length_limit() && forall|
            i: int,
        |
            0 <= i < set@.len() ==> text_bytes(#[trigger] set@[i]).len() < length_limit()),
{
    if !set.is_sorted() || !below_limit(set.len()) {
        return false;
    }
    let mut i: usize = 0;
    while i < set.len()
        invariant
            i <= set@.len(),
            forall|j: int| 0 <= j < i ==> text_bytes(#[trigger] set@[j]).len() < length_limit(),
        decreases set@.len() - i,
    {
        if !below_limit(set.item_at(i).as_str().as_bytes().len()) {
            return false;
        }
        i += 1;
    }
    true
}

fn blobs_storable(set: &BinarySet) -> (r: bool)
    ensures
        r == (crate::sorted::set_sorted::<Vec<u8>>(set@) && set@.len() < length_limit() && forall|
            i: int,
        |
            0 <= i < set@.len() ==> (#[trigger] set@[i]).len() < length_limit()),
{
    if !set.is_sorted() || !below_limit(set.len()) {
        return false;
    }
    let mut i: usize = 0;
    while i < set.len()
        invariant
            i <= set@.len(),
            forall|j: int| 0 <= j < i ==> (#[trigger] set@[j]).len() < length_limit(),
        decreases set@.len() - i,
    {
        if !below_limit(set.item_at(i).len()) {
            return false;
        }
        i += 1;
    }
    true
}

/// Whether a map can be stored.
pub fn map_is_storable(m: &AttrMap) -> (r: bool)
    ensures
        r == storable(AttrView::M(values_view(m@))),
    decreases m, 1nat,
{
    proof {
        crate::sorted::lemma_mapped_sorted::<String, AttributeValue, AttrView>(
            m@,
            |v: AttributeValue| v@,
        );
        assert(crate::sorted::mapped::<String, AttributeValue, AttrView>(
            m@,
            |v: AttributeValue| v@,
        ) =~= values_view(m@));
    }
    if !m.is_sorted() || !below_limit(m.entries.len()) {
        return false;
    }
    let ghost e = values_view(m@);
    let mut i: usize = 0;
    while i < m.entries.len()
        invariant
            i <= m.entries.len(),
            e == values_view(m@),
            e.len() == m.entries.len(),
            forall|j: int|
                0 <= j < i ==> text_bytes((#[trigger] e[j]).0).len() < length_limit() && storable(
                    e[j].1,
                ),
        decreases m.entries.len() - i,
    {
        proof {
            assert(decreases_to!(m.entries => m.entries[i as int]));
            assert(e[i as int] == (m.entries@[i as int].0@, m.entries@[i as int].1@));
        }
        if !below_limit(m.entries[i].0.as_str().as_bytes().len()) || !is_storable(&m.entries[i].1) {
            return false;
        }
        i += 1;
    }
    true
}

fn list_is_storable(l: &Vec<AttributeValue>) -> (r: bool)
    ensures
        r == storable(AttrView::L(list_view(l@))),
    decreases l, 1nat,
{
    if !below_limit(l.len()) {
        return false;
    }
    let ghost e = list_view(l@);
    let mut i: usize = 0;
    while i < l.len()
        invariant
            i <= l.len(),
            e == list_view(l@),
            forall|j: int| 0 <= j < i ==> storable(#[trigger] e[j]),
        decreases l.len() - i,
    {
        proof {
            assert(decreases_to!(l => l[i as int]));
            assert(e[i as int] == l@[i as int]@);
        }
        if !is_storable(&l[i]) {
            return false;
        }
        i += 1;
    }
    true
}

/// Whether a value can be stored.
pub fn is_storable(value: &AttributeValue) -> (r: bool)
    ensures
        r == storable(value@),
    decreases value, 0nat,
{
    match value {
        AttributeValue::S(s) => below_limit(s.as_str().as_bytes().len()),
        AttributeValue::N(n) => below_limit(n.as_str().as_bytes().len()),
        AttributeValue::B(b) => below_limit(b.len()),
        AttributeValue::Bool(_) => true,
        AttributeValue::Null => true,
        AttributeValue::M(m) => {
            proof {
                assert(value->M_0 == *m);
                lemma_map_view(*m);
            }
            map_is_storable(m)
        },
        AttributeValue::L(l) => {
            proof {
                assert(value->L_0 == *l);
            }
            list_is_storable(l)
        },
        AttributeValue::Ss(s) => texts_storable(s),
        AttributeValue::Ns(s) => texts_storable(s),
        AttributeValue::Bs(s) => blobs_storable(s),
    }
}

/// The encoding of a map.
pub fn encode_map(m: &AttrMap) -> (r: Vec<u8>)
    ensures
        r@ == encode_value(AttrView::M(values_view(m@))),
{
    let mut enc = Encoder::new();
    enc.buf.push(6);
    enc.write_entries(m);
    proof {
        assert(enc.buf@ =~= encode_value(AttrView::M(values_view(m@))));
    }
    enc.buf
}

} // verus!
