//! Text: strings seen as sequences of characters, ordered and searched by
//! their UTF-8 bytes.

use crate::bytes::{bytes_equal, bytes_start_with, compare_bytes, contains_bytes, lex_rank, occurs_in, Rank};
use vstd::prelude::*;
use vstd::string::StringSliceAdditionalSpecFns;
use vstd::utf8::{decode_utf8, encode_utf8, encode_utf8_decode_utf8, valid_utf8};

verus! {

/// The UTF-8 bytes of a text.
pub open spec fn text_bytes(s: Seq<char>) -> Seq<u8> {
    encode_utf8(s)
}

/// Three-way comparison of two texts, by their bytes.
pub open spec fn text_rank(a: Seq<char>, b: Seq<char>) -> Rank {
    lex_rank(text_bytes(a), text_bytes(b))
}

/// `prefix` starts `s`, byte for byte.
pub open spec fn text_starts_with(s: Seq<char>, prefix: Seq<char>) -> bool {
    text_bytes(prefix).is_prefix_of(text_bytes(s))
}

/// `part` occurs in `s`, byte for byte.
pub open spec fn text_contains(s: Seq<char>, part: Seq<char>) -> bool {
    occurs_in(text_bytes(part), text_bytes(s))
}

/// Different texts have different bytes.
pub proof fn lemma_text_bytes_injective(a: Seq<char>, b: Seq<char>)
    requires
        text_bytes(a) == text_bytes(b),
    ensures
        a == b,
{
    encode_utf8_decode_utf8(a);
    encode_utf8_decode_utf8(b);
}

/// Appends one character to a string. Wraps `String::push`, which adds the
/// character at the end and leaves the rest alone.
#[verifier::external_body]
pub(crate) fn push_char(s: &mut String, c: char)
    ensures
        final(s)@ == old(s)@.push(c),
{
    s.push(c)
}

/// Turns bytes into a string. Wraps `String::from_utf8`, which succeeds exactly
/// on valid UTF-8 and then holds the characters that the bytes encode.
#[verifier::external_body]
pub(crate) fn text_from_utf8(bytes: Vec<u8>) -> (r: Option<String>)
    ensures
        r is Some <==> valid_utf8(bytes@),
        r matches Some(s) ==> s@ == decode_utf8(bytes@),
{
    match String::from_utf8(bytes) {
        Ok(s) => Some(s),
        Err(_) => None,
    }
}

/// Whether two texts are the same.
pub fn text_equal(a: &str, b: &str) -> (r: bool)
    ensures
        r == (a@ == b@),
{
    let r = bytes_equal(a.as_bytes(), b.as_bytes());
    proof {
        if r {
            lemma_text_bytes_injective(a@, b@);
        }
    }
    r
}

/// Compares two texts by their bytes.
pub fn compare_text(a: &str, b: &str) -> (r: Rank)
    ensures
        r == text_rank(a@, b@),
{
    compare_bytes(a.as_bytes(), b.as_bytes())
}

/// Whether `s` begins with `prefix`.
pub fn starts_with_text(s: &str, prefix: &str) -> (r: bool)
    ensures
        r == text_starts_with(s@, prefix@),
{
    bytes_start_with(s.as_bytes(), prefix.as_bytes())
}

/// Whether `part` occurs in `s`.
pub fn contains_text(s: &str, part: &str) -> (r: bool)
    ensures
        r == text_contains(s@, part@),
{
    contains_bytes(s.as_bytes(), part.as_bytes())
}

/// A fresh string with the characters of `s`.
pub fn owned(s: &str) -> (r: String)
    ensures
        r@ == s@,
{
    s.to_owned()
}

/// What can be turned into an owned string: `&str`, `String` and `&String`.
pub trait IntoText: Sized {
    /// The characters that the string will hold.
    spec fn text(&self) -> Seq<char>;

    fn into_text(self) -> (r: String)
        ensures
            r@ == self.text(),
    ;
}

impl IntoText for &str {
    open spec fn text(&self) -> Seq<char> {
        self@
    }

    fn into_text(self) -> (r: String) {
        self.to_owned()
    }
}

impl IntoText for String {
    open spec fn text(&self) -> Seq<char> {
        self@
    }

    fn into_text(self) -> (r: String) {
        self
    }
}

impl IntoText for &String {
    open spec fn text(&self) -> Seq<char> {
        self@
    }

    fn into_text(self) -> (r: String) {
        self.clone()
    }
}

} // verus!
