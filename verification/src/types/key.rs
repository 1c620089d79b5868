//! Keys: key values, primary keys, key schemas and the storage key that a
//! primary key is stored under.

use crate::bytes::copy_bytes;
use crate::text::{owned, push_char, IntoText};
use crate::types::attributes::{AttrView, AttributeValue};
use crate::utils::{
    base64_encode, base64_text, escape_key_chars, escaped, lemma_base64_text_injective,
    lemma_escape_injective,
};
use vstd::prelude::*;
use vstd::string::StringExecFns;

verus! {

/// The value of a key attribute: a string, a number or binary data.
#[derive(Debug)]
pub enum KeyValue {
    /// A string.
    S(String),
    /// A number, kept as its decimal text.
    N(String),
    /// Binary data.
    B(Vec<u8>),
}

/// The mathematical content of a key value.
pub ghost enum KeyView {
    S(Seq<char>),
    N(Seq<char>),
    B(Seq<u8>),
}

/// The type of a key attribute.
#[derive(Debug, Clone, Copy, PartialEq, Eq, Structural)]
pub enum KeyType {
    S,
    N,
    B,
}

/// The short name of a key value's type.
pub open spec fn key_label_of(k: KeyView) -> Seq<char> {
    match k {
        KeyView::S(_) => "S"@,
        KeyView::N(_) => "N"@,
        KeyView::B(_) => "B"@,
    }
}

/// The short name of a key type.
pub open spec fn key_type_label(t: KeyType) -> Seq<char> {
    match t {
        KeyType::S => "S"@,
        KeyType::N => "N"@,
        KeyType::B => "B"@,
    }
}

/// The type of a key value.
pub open spec fn key_type_of(k: KeyView) -> KeyType {
    match k {
        KeyView::S(_) => KeyType::S,
        KeyView::N(_) => KeyType::N,
        KeyView::B(_) => KeyType::B,
    }
}

/// A key value as an attribute value.
pub open spec fn key_as_attr(k: KeyView) -> AttrView {
    match k {
        KeyView::S(s) => AttrView::S(s),
        KeyView::N(n) => AttrView::N(n),
        KeyView::B(b) => AttrView::B(b),
    }
}

/// The key value that an attribute value holds, where it is a string, a number
/// or binary data.
pub open spec fn attr_as_key(v: AttrView) -> Option<KeyView> {
    match v {
        AttrView::S(s) => Some(KeyView::S(s)),
        AttrView::N(n) => Some(KeyView::N(n)),
        AttrView::B(b) => Some(KeyView::B(b)),
        _ => None,
    }
}

/// The key value that an attribute value holds, where it has the type `t`.
pub open spec fn attr_as_typed_key(v: AttrView, t: KeyType) -> Option<KeyView> {
    match attr_as_key(v) {
        Some(k) => if key_type_of(k) == t {
            Some(k)
        } else {
            None
        },
        None => None,
    }
}

/// One key value as it stands in a storage key: the type, a colon, and the
/// value, a string escaped, a number as written, binary data in Base64.
pub open spec fn component_text(k: KeyView) -> Seq<char> {
    match k {
        KeyView::S(s) => seq!['S', ':'] + escaped(s),
        KeyView::N(n) => seq!['N', ':'] + n,
        KeyView::B(b) => seq!['B', ':'] + base64_text(b),
    }
}

/// Different key values stand differently in a storage key.
pub proof fn lemma_component_text_injective(a: KeyView, b: KeyView)
    requires
        component_text(a) == component_text(b),
    ensures
        a == b,
{
    let x = component_text(a);
    let y = component_text(b);
    assert(x[0] == y[0]);
    assert(x.skip(2) == y.skip(2));
    match (a, b) {
        (KeyView::S(s), KeyView::S(t)) => {
            assert(x.skip(2) =~= escaped(s));
            assert(y.skip(2) =~= escaped(t));
            lemma_escape_injective(s, t);
        },
        (KeyView::N(s), KeyView::N(t)) => {
            assert(x.skip(2) =~= s);
            assert(y.skip(2) =~= t);
        },
        (KeyView::B(s), KeyView::B(t)) => {
            assert(x.skip(2) =~= base64_text(s));
            assert(y.skip(2) =~= base64_text(t));
            lemma_base64_text_injective(s, t);
        },
        _ => {},
    }
}

impl View for KeyValue {
    type V = KeyView;

    open spec fn view(&self) -> KeyView {
        match self {
            KeyValue::S(s) => KeyView::S(s@),
            KeyValue::N(n) => KeyView::N(n@),
            KeyValue::B(b) => KeyView::B(b@),
        }
    }
}

impl KeyValue {
    /// The short name of the value's type.
    pub fn type_label(&self) -> (r: &'static str)
        ensures
            r@ == key_label_of(self@),
    {
        match self {
            KeyValue::S(_) => "S",
            KeyValue::N(_) => "N",
            KeyValue::B(_) => "B",
        }
    }

    /// The type of the value.
    pub fn key_type(&self) -> (r: KeyType)
        ensures
            r == key_type_of(self@),
    {
        match self {
            KeyValue::S(_) => KeyType::S,
            KeyValue::N(_) => KeyType::N,
            KeyValue::B(_) => KeyType::B,
        }
    }

    /// The string, where the value is one.
    pub fn as_s(&self) -> (r: Option<&str>)
        ensures
            match r {
                Some(s) => self@ == KeyView::S(s@),
                None => !(self@ is S),
            },
    {
        match self {
            KeyValue::S(s) => Some(s.as_str()),
            _ => None,
        }
    }

    /// The number's text, where the value is a number.
    pub fn as_n(&self) -> (r: Option<&str>)
        ensures
            match r {
                Some(s) => self@ == KeyView::N(s@),
                None => !(self@ is N),
            },
    {
        match self {
            KeyValue::N(n) => Some(n.as_str()),
            _ => None,
        }
    }

    /// The bytes, where the value is binary.
    pub fn as_b(&self) -> (r: Option<&[u8]>)
        ensures
            match r {
                Some(b) => self@ == KeyView::B(b@),
                None => !(self@ is B),
            },
    {
        match self {
            KeyValue::B(b) => Some(b.as_slice()),
            _ => None,
        }
    }

    /// The value as an attribute value.
    pub fn to_attribute_value(&self) -> (r: AttributeValue)
        ensures
            r@ == key_as_attr(self@),
    {
        match self {
            KeyValue::S(s) => AttributeValue::S(s.clone()),
            KeyValue::N(n) => AttributeValue::N(n.clone()),
            KeyValue::B(b) => AttributeValue::B(copy_bytes(b.as_slice())),
        }
    }

    /// The key value that `av` holds; `None` where it is no string, number or
    /// binary value.
    pub fn from_attribute_value(av: &AttributeValue) -> (r: Option<Self>)
        ensures
            match r {
                Some(k) => attr_as_key(av@) == Some(k@),
                None => attr_as_key(av@).is_none(),
            },
    {
        match av {
            AttributeValue::S(s) => Some(KeyValue::S(s.clone())),
            AttributeValue::N(n) => Some(KeyValue::N(n.clone())),
            AttributeValue::B(b) => Some(KeyValue::B(copy_bytes(b.as_slice()))),
            _ => None,
        }
    }

    /// The key value that `attr` holds; `None` where it has not the type
    /// `expected`.
    pub fn from_attribute_with_type(attr: &AttributeValue, expected: KeyType) -> (r: Option<Self>)
        ensures
            match r {
                Some(k) => attr_as_typed_key(attr@, expected) == Some(k@),
                None => attr_as_typed_key(attr@, expected).is_none(),
            },
    {
        match (attr, expected) {
            (AttributeValue::S(s), KeyType::S) => Some(KeyValue::S(s.clone())),
            (AttributeValue::N(n), KeyType::N) => Some(KeyValue::N(n.clone())),
            (AttributeValue::B(b), KeyType::B) => Some(KeyValue::B(copy_bytes(b.as_slice()))),
            _ => None,
        }
    }

    /// A copy with the same content.
    pub fn duplicate(&self) -> (r: Self)
        ensures
            r@ == self@,
    {
        match self {
            KeyValue::S(s) => KeyValue::S(s.clone()),
            KeyValue::N(n) => KeyValue::N(n.clone()),
            KeyValue::B(b) => KeyValue::B(copy_bytes(b.as_slice())),
        }
    }

    /// Whether two key values have the same type and content.
    pub fn same(&self, other: &Self) -> (r: bool)
        ensures
            r == (self@ == other@),
    {
        match (self, other) {
            (KeyValue::S(a), KeyValue::S(b)) => crate::text::text_equal(a.as_str(), b.as_str()),
            (KeyValue::N(a), KeyValue::N(b)) => crate::text::text_equal(a.as_str(), b.as_str()),
            (KeyValue::B(a), KeyValue::B(b)) => crate::bytes::bytes_equal(
                a.as_slice(),
                b.as_slice(),
            ),
            _ => false,
        }
    }
}

impl Clone for KeyValue {
    fn clone(&self) -> (r: Self)
        ensures
            r@ == self@,
    {
        self.duplicate()
    }
}

impl PartialEq for KeyValue {
    fn eq(&self, other: &Self) -> (r: bool) {
        self.same(other)
    }
}

impl vstd::std_specs::cmp::PartialEqSpecImpl for KeyValue {
    open spec fn obeys_eq_spec() -> bool {
        true
    }

    open spec fn eq_spec(&self, other: &Self) -> bool {
        self@ == other@
    }
}

/// What can be turned into a key value.
pub trait IntoKey: Sized {
    /// The content of the key value that this turns into.
    spec fn key(&self) -> KeyView;

    fn into_key(self) -> (r: KeyValue)
        ensures
            r@ == self.key(),
    ;
}

impl IntoKey for KeyValue {
    open spec fn key(&self) -> KeyView {
        self@
    }

    fn into_key(self) -> (r: KeyValue) {
        self
    }
}

impl IntoKey for &str {
    open spec fn key(&self) -> KeyView {
        KeyView::S(self@)
    }

    fn into_key(self) -> (r: KeyValue) {
        KeyValue::S(owned(self))
    }
}

impl IntoKey for String {
    open spec fn key(&self) -> KeyView {
        KeyView::S(self@)
    }

    fn into_key(self) -> (r: KeyValue) {
        KeyValue::S(self)
    }
}

impl IntoKey for Vec<u8> {
    open spec fn key(&self) -> KeyView {
        KeyView::B(self@)
    }

    fn into_key(self) -> (r: KeyValue) {
        KeyValue::B(self)
    }
}

impl IntoKey for &[u8] {
    open spec fn key(&self) -> KeyView {
        KeyView::B(self@)
    }

    fn into_key(self) -> (r: KeyValue) {
        KeyValue::B(copy_bytes(self))
    }
}

/// The key of an item: a partition key and, in tables that have one, a sort
/// key.
#[derive(Debug)]
pub struct PrimaryKey {
    /// The partition key.
    pub pk: KeyValue,
    /// The sort key.
    pub sk: Option<KeyValue>,
}

/// The mathematical content of a primary key.
pub ghost struct PrimaryKeyView {
    pub pk: KeyView,
    pub sk: Option<KeyView>,
}

/// The storage key of a primary key: the partition key and, behind a `#`, the
/// sort key where there is one.
pub open spec fn storage_key_text(k: PrimaryKeyView) -> Seq<char> {
    match k.sk {
        Some(sk) => component_text(k.pk) + seq!['#'] + component_text(sk),
        None => component_text(k.pk),
    }
}

impl View for PrimaryKey {
    type V = PrimaryKeyView;

    open spec fn view(&self) -> PrimaryKeyView {
        PrimaryKeyView {
            pk: self.pk@,
            sk: match self.sk {
                Some(k) => Some(k@),
                None => None,
            },
        }
    }
}

impl PrimaryKey {
    /// A key with a partition key only.
    pub fn simple<K: IntoKey>(pk: K) -> (r: Self)
        ensures
            r@ == (PrimaryKeyView { pk: pk.key(), sk: None }),
    {
        PrimaryKey { pk: pk.into_key(), sk: None }
    }

    /// A key with a partition key and a sort key.
    pub fn composite<K: IntoKey, S: IntoKey>(pk: K, sk: S) -> (r: Self)
        ensures
            r@ == (PrimaryKeyView { pk: pk.key(), sk: Some(sk.key()) }),
    {
        PrimaryKey { pk: pk.into_key(), sk: Some(sk.into_key()) }
    }

    /// Whether the key has a sort key.
    pub fn has_sort_key(&self) -> (r: bool)
        ensures
            r == self@.sk.is_some(),
    {
        self.sk.is_some()
    }

    /// The storage key that the item of this key is stored under.
    pub fn to_storage_key(&self) -> (r: String)
        ensures
            r@ == storage_key_text(self@),
    {
        let mut out = encode_key_component(&self.pk);
        match &self.sk {
            Some(sk) => {
                let part = encode_key_component(sk);
                push_char(&mut out, '#');
                out.append(part.as_str());
                out
            },
            None => out,
        }
    }

    /// A copy with the same content.
    pub fn duplicate(&self) -> (r: Self)
        ensures
            r@ == self@,
    {
        PrimaryKey {
            pk: self.pk.duplicate(),
            sk: match &self.sk {
                Some(k) => Some(k.duplicate()),
                None => None,
            },
        }
    }

    /// Whether two keys have the same content.
    pub fn same(&self, other: &Self) -> (r: bool)
        ensures
            r == (self@ == other@),
    {
        if !self.pk.same(&other.pk) {
            return false;
        }
        match (&self.sk, &other.sk) {
            (Some(a), Some(b)) => a.same(b),
            (None, None) => true,
            _ => false,
        }
    }
}

impl Clone for PrimaryKey {
    fn clone(&self) -> (r: Self)
        ensures
            r@ == self@,
    {
        self.duplicate()
    }
}

impl PartialEq for PrimaryKey {
    fn eq(&self, other: &Self) -> (r: bool) {
        self.same(other)
    }
}

impl vstd::std_specs::cmp::PartialEqSpecImpl for PrimaryKey {
    open spec fn obeys_eq_spec() -> bool {
        true
    }

    open spec fn eq_spec(&self, other: &Self) -> bool {
        self@ == other@
    }
}

/// One key value as it stands in a storage key.
pub fn encode_key_component(key: &KeyValue) -> (r: String)
    ensures
        r@ == component_text(key@),
{
    let mut out = String::new();
    match key {
        KeyValue::S(s) => {
            push_char(&mut out, 'S');
            push_char(&mut out, ':');
            let e = escape_key_chars(s.as_str());
            out.append(e.as_str());
        },
        KeyValue::N(n) => {
            push_char(&mut out, 'N');
            push_char(&mut out, ':');
            out.append(n.as_str());
        },
        KeyValue::B(b) => {
            push_char(&mut out, 'B');
            push_char(&mut out, ':');
            let e = base64_encode(b.as_slice());
            out.append(e.as_str());
        },
    }
    proof {
        assert(out@ =~= component_text(key@));
    }
    out
}

/// The name and type of a key attribute.
#[derive(Debug)]
pub struct KeyAttribute {
    /// The attribute's name.
    pub name: String,
    /// The type that the attribute's value has.
    pub key_type: KeyType,
}

/// The mathematical content of a key attribute.
pub ghost struct KeyAttributeView {
    pub name: Seq<char>,
    pub key_type: KeyType,
}

impl View for KeyAttribute {
    type V = KeyAttributeView;

    open spec fn view(&self) -> KeyAttributeView {
        KeyAttributeView { name: self.name@, key_type: self.key_type }
    }
}

impl KeyAttribute {
    /// A key attribute of the given name and type.
    pub fn new<T: IntoText>(name: T, key_type: KeyType) -> (r: Self)
        ensures
            r@ == (KeyAttributeView { name: name.text(), key_type }),
    {
        KeyAttribute { name: name.into_text(), key_type }
    }

    /// A key attribute that holds a string.
    pub fn string<T: IntoText>(name: T) -> (r: Self)
        ensures
            r@ == (KeyAttributeView { name: name.text(), key_type: KeyType::S }),
    {
        KeyAttribute::new(name, KeyType::S)
    }

    /// A key attribute that holds a number.
    pub fn number<T: IntoText>(name: T) -> (r: Self)
        ensures
            r@ == (KeyAttributeView { name: name.text(), key_type: KeyType::N }),
    {
        KeyAttribute::new(name, KeyType::N)
    }

    /// A key attribute that holds binary data.
    pub fn binary<T: IntoText>(name: T) -> (r: Self)
        ensures
            r@ == (KeyAttributeView { name: name.text(), key_type: KeyType::B }),
    {
        KeyAttribute::new(name, KeyType::B)
    }

    /// A copy with the same content.
    pub fn duplicate(&self) -> (r: Self)
        ensures
            r@ == self@,
    {
        KeyAttribute { name: self.name.clone(), key_type: self.key_type }
    }
}

impl Clone for KeyAttribute {
    fn clone(&self) -> (r: Self)
        ensures
            r@ == self@,
    {
        self.duplicate()
    }
}

impl KeyType {
    /// The short name of the type.
    pub fn as_str(&self) -> (r: &'static str)
        ensures
            r@ == key_type_label(*self),
    {
        match self {
            KeyType::S => "S",
            KeyType::N => "N",
            KeyType::B => "B",
        }
    }

    /// Whether `value` has this type.
    pub fn matches(&self, value: &KeyValue) -> (r: bool)
        ensures
            r == (key_type_of(value@) == *self),
    {
        match (self, value) {
            (KeyType::S, KeyValue::S(_)) => true,
            (KeyType::N, KeyValue::N(_)) => true,
            (KeyType::B, KeyValue::B(_)) => true,
            _ => false,
        }
    }

    /// Whether `value` is a string, number or binary value of this type.
    pub fn matches_attribute(&self, value: &AttributeValue) -> (r: bool)
        ensures
            r == attr_as_typed_key(value@, *self).is_some(),
    {
        match (self, value) {
            (KeyType::S, AttributeValue::S(_)) => true,
            (KeyType::N, AttributeValue::N(_)) => true,
            (KeyType::B, AttributeValue::B(_)) => true,
            _ => false,
        }
    }
}

/// The key attributes of a table or an index: a partition key and, optionally,
/// a sort key.
#[derive(Debug)]
pub struct KeySchema {
    /// The partition key.
    pub partition_key: KeyAttribute,
    /// The sort key.
    pub sort_key: Option<KeyAttribute>,
}

/// The mathematical content of a key schema.
pub ghost struct KeySchemaView {
    pub partition_key: KeyAttributeView,
    pub sort_key: Option<KeyAttributeView>,
}

impl View for KeySchema {
    type V = KeySchemaView;

    open spec fn view(&self) -> KeySchemaView {
        KeySchemaView {
            partition_key: self.partition_key@,
            sort_key: match self.sort_key {
                Some(k) => Some(k@),
                None => None,
            },
        }
    }
}

impl KeySchema {
    /// A schema with a partition key only.
    pub fn simple<T: IntoText>(pk_name: T, pk_type: KeyType) -> (r: Self)
        ensures
            r@ == (KeySchemaView {
                partition_key: KeyAttributeView { name: pk_name.text(), key_type: pk_type },
                sort_key: None,
            }),
    {
        KeySchema { partition_key: KeyAttribute::new(pk_name, pk_type), sort_key: None }
    }

    /// A schema with a partition key and a sort key.
    pub fn composite<T: IntoText, U: IntoText>(
        pk_name: T,
        pk_type: KeyType,
        sk_name: U,
        sk_type: KeyType,
    ) -> (r: Self)
        ensures
            r@ == (KeySchemaView {
                partition_key: KeyAttributeView { name: pk_name.text(), key_type: pk_type },
                sort_key: Some(KeyAttributeView { name: sk_name.text(), key_type: sk_type }),
            }),
    {
        KeySchema {
            partition_key: KeyAttribute::new(pk_name, pk_type),
            sort_key: Some(KeyAttribute::new(sk_name, sk_type)),
        }
    }

    /// Whether the schema has a sort key.
    pub fn has_sort_key(&self) -> (r: bool)
        ensures
            r == self@.sort_key.is_some(),
    {
        self.sort_key.is_some()
    }

    /// The name of the partition key attribute.
    pub fn pk_name(&self) -> (r: &str)
        ensures
            r@ == self@.partition_key.name,
    {
        self.partition_key.name.as_str()
    }

    /// The name of the sort key attribute.
    pub fn sk_name(&self) -> (r: Option<&str>)
        ensures
            match r {
                Some(n) => self@.sort_key.is_some() && n@ == self@.sort_key.unwrap().name,
                None => self@.sort_key.is_none(),
            },
    {
        match &self.sort_key {
            Some(sk) => Some(sk.name.as_str()),
            None => None,
        }
    }

    /// A copy with the same content.
    pub fn duplicate(&self) -> (r: Self)
        ensures
            r@ == self@,
    {
        KeySchema {
            partition_key: self.partition_key.duplicate(),
            sort_key: match &self.sort_key {
                Some(k) => Some(k.duplicate()),
                None => None,
            },
        }
    }
}

impl Clone for KeySchema {
    fn clone(&self) -> (r: Self)
        ensures
            r@ == self@,
    {
        self.duplicate()
    }
}

} // verus!
