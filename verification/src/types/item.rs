//! Items: maps from attribute names to values, and the keys they carry.

use crate::sorted::{inserted, lookup, removed, SortedMap};
use crate::text::{text_bytes, IntoText};
use crate::types::attributes::{
    attr_wf, duplicate_map, lemma_inserted_wf, lemma_removed_wf, lemma_values_view_inserted,
    lemma_values_view_lookup, lemma_values_view_removed, same_map, type_label_of, values_view,
    AttrMap, AttrView, AttributeValue, IntoAttribute,
};
use crate::types::key::{
    attr_as_typed_key, key_type_label, KeyAttribute, KeyAttributeView, KeySchema, KeySchemaView,
    KeyValue, KeyView, PrimaryKey, PrimaryKeyView,
};
use vstd::prelude::*;
use vstd::string::StringSliceAdditionalSpecFns;

verus! {

/// The content of an item: its attributes in ascending order of their names.
pub type ItemView = Seq<(Seq<char>, AttrView)>;

/// The value of the attribute `name`, if the item has it.
pub open spec fn attr_of(item: ItemView, name: Seq<char>) -> Option<AttrView> {
    lookup::<String, AttrView>(item, text_bytes(name))
}

/// The key value that the item holds for a key attribute: the attribute is
/// there and has the key's type.
pub open spec fn key_part(item: ItemView, attr: KeyAttributeView) -> Option<KeyView> {
    match attr_of(item, attr.name) {
        Some(v) => attr_as_typed_key(v, attr.key_type),
        None => None,
    }
}

/// The primary key that the item holds under a schema; `None` where a key
/// attribute is absent or of another type.
pub open spec fn extracted_key(item: ItemView, schema: KeySchemaView) -> Option<PrimaryKeyView> {
    match key_part(item, schema.partition_key) {
        None => None,
        Some(pk) => match schema.sort_key {
            None => Some(PrimaryKeyView { pk, sk: None }),
            Some(def) => match key_part(item, def) {
                None => None,
                Some(sk) => Some(PrimaryKeyView { pk, sk: Some(sk) }),
            },
        },
    }
}

/// The content of a key validation error.
pub ghost enum KeyErrorView {
    MissingAttribute { name: Seq<char> },
    TypeMismatch { name: Seq<char>, expected: Seq<char>, actual: Seq<char> },
}

/// Checks one key attribute: it must be there and have the key's type.
pub open spec fn checked_attr(item: ItemView, attr: KeyAttributeView) -> Result<(), KeyErrorView> {
    match attr_of(item, attr.name) {
        None => Err(KeyErrorView::MissingAttribute { name: attr.name }),
        Some(v) => if attr_as_typed_key(v, attr.key_type).is_some() {
            Ok(())
        } else {
            Err(
                KeyErrorView::TypeMismatch {
                    name: attr.name,
                    expected: key_type_label(attr.key_type),
                    actual: type_label_of(v),
                },
            )
        },
    }
}

/// Checks the key attributes of a schema, the partition key first.
pub open spec fn validated(item: ItemView, schema: KeySchemaView) -> Result<(), KeyErrorView> {
    match checked_attr(item, schema.partition_key) {
        Err(e) => Err(e),
        Ok(_) => match schema.sort_key {
            None => Ok(()),
            Some(def) => checked_attr(item, def),
        },
    }
}

/// An item that passes the key check of a schema holds a primary key under
/// that schema.
pub proof fn lemma_validated_extracts(item: ItemView, schema: KeySchemaView)
    requires
        validated(item, schema) is Ok,
    ensures
        extracted_key(item, schema) is Some,
{
}

/// An item holds a primary key under a schema exactly if it passes the
/// schema's key check.
pub proof fn lemma_extracts_iff_validated(item: ItemView, schema: KeySchemaView)
    ensures
        extracted_key(item, schema) is Some <==> validated(item, schema) is Ok,
{
}

/// Why an item's key attributes do not fit a schema.
#[derive(Debug)]
pub enum KeyValidationError {
    /// A key attribute is absent.
    MissingAttribute { name: String },
    /// A key attribute has another type than the schema says.
    TypeMismatch { name: String, expected: &'static str, actual: &'static str },
}

impl View for KeyValidationError {
    type V = KeyErrorView;

    open spec fn view(&self) -> KeyErrorView {
        match self {
            KeyValidationError::MissingAttribute { name } => KeyErrorView::MissingAttribute {
                name: name@,
            },
            KeyValidationError::TypeMismatch { name, expected, actual } => KeyErrorView::TypeMismatch {
                name: name@,
                expected: expected@,
                actual: actual@,
            },
        }
    }
}

impl KeyValidationError {
    /// A copy with the same content.
    pub fn duplicate(&self) -> (r: Self)
        ensures
            r@ == self@,
    {
        match self {
            KeyValidationError::MissingAttribute { name } => KeyValidationError::MissingAttribute {
                name: name.clone(),
            },
            KeyValidationError::TypeMismatch { name, expected, actual } => KeyValidationError::TypeMismatch {
                name: name.clone(),
                expected: *expected,
                actual: *actual,
            },
        }
    }

    /// Whether two errors have the same content.
    pub fn same(&self, other: &Self) -> (r: bool)
        ensures
            r == (self@ == other@),
    {
        match (self, other) {
            (
                KeyValidationError::MissingAttribute { name: a },
                KeyValidationError::MissingAttribute { name: b },
            ) => crate::text::text_equal(a.as_str(), b.as_str()),
            (
                KeyValidationError::TypeMismatch { name: a, expected: ea, actual: aa },
                KeyValidationError::TypeMismatch { name: b, expected: eb, actual: ab },
            ) => crate::text::text_equal(a.as_str(), b.as_str()) && crate::text::text_equal(
                *ea,
                *eb,
            ) && crate::text::text_equal(*aa, *ab),
            _ => false,
        }
    }
}

impl Clone for KeyValidationError {
    fn clone(&self) -> (r: Self)
        ensures
            r@ == self@,
    {
        self.duplicate()
    }
}

impl PartialEq for KeyValidationError {
    fn eq(&self, other: &Self) -> (r: bool) {
        self.same(other)
    }
}

impl vstd::std_specs::cmp::PartialEqSpecImpl for KeyValidationError {
    open spec fn obeys_eq_spec() -> bool {
        true
    }

    open spec fn eq_spec(&self, other: &Self) -> bool {
        self@ == other@
    }
}

/// An item: a map from attribute names to values.
#[derive(Debug)]
pub struct Item {
    /// The attributes, in ascending order of their names.
    pub attributes: AttrMap,
}

impl View for Item {
    type V = ItemView;

    open spec fn view(&self) -> ItemView {
        values_view(self.attributes@)
    }
}

/// Checks one key attribute of an item.
fn validate_key_attribute(item: &Item, attr: &KeyAttribute) -> (r: Result<(), KeyValidationError>)
    ensures
        match r {
            Ok(_) => checked_attr(item@, attr@) is Ok,
            Err(e) => checked_attr(item@, attr@) == Err::<(), _>(e@),
        },
{
    match item.get(attr.name.as_str()) {
        None => Err(KeyValidationError::MissingAttribute { name: attr.name.clone() }),
        Some(v) => {
            if attr.key_type.matches_attribute(v) {
                Ok(())
            } else {
                Err(
                    KeyValidationError::TypeMismatch {
                        name: attr.name.clone(),
                        expected: attr.key_type.as_str(),
                        actual: v.type_label(),
                    },
                )
            }
        },
    }
}

/// The key value that an item holds for a key attribute.
pub(crate) fn extract_key_part(item: &Item, attr: &KeyAttribute) -> (r: Option<KeyValue>)
    ensures
        match r {
            Some(k) => key_part(item@, attr@) == Some(k@),
            None => key_part(item@, attr@).is_none(),
        },
{
    match item.get(attr.name.as_str()) {
        None => None,
        Some(v) => KeyValue::from_attribute_with_type(v, attr.key_type),
    }
}

impl Item {
    /// Every map and set in the item, at every depth, is in strictly ascending
    /// order, and so are the item's own attributes.
    pub open spec fn wf(&self) -> bool {
        attr_wf(AttrView::M(self@))
    }

    /// An item without attributes.
    pub fn new() -> (r: Self)
        ensures
            r@ == Seq::<(Seq<char>, AttrView)>::empty(),
            r.wf(),
    {
        let r = Item { attributes: SortedMap::new() };
        proof {
            assert(r@ =~= Seq::<(Seq<char>, AttrView)>::empty());
        }
        r
    }

    /// The value of the attribute `key`.
    pub fn get(&self, key: &str) -> (r: Option<&AttributeValue>)
        ensures
            match r {
                Some(v) => attr_of(self@, key@) == Some(v@),
                None => attr_of(self@, key@).is_none(),
            },
    {
        proof {
            lemma_values_view_lookup(self.attributes@, text_bytes(key@));
        }
        self.attributes.get(key.as_bytes())
    }

    /// Sets the attribute `key` to `value` and returns the value it had.
    pub fn set<T: IntoText>(&mut self, key: T, value: AttributeValue) -> (prev: Option<
        AttributeValue,
    >)
        ensures
            final(self)@ == inserted::<String, AttrView>(old(self)@, key.text(), value@),
            match prev {
                Some(v) => attr_of(old(self)@, key.text()) == Some(v@),
                None => attr_of(old(self)@, key.text()).is_none(),
            },
            old(self).wf() && attr_wf(value@) ==> final(self).wf(),
    {
        let ghost k = key.text();
        proof {
            lemma_values_view_lookup(self.attributes@, text_bytes(k));
            lemma_values_view_inserted(self.attributes@, k, value);
            if self.wf() && attr_wf(value@) {
                lemma_inserted_wf(self@, k, value@);
            }
        }
        self.attributes.insert(key.into_text(), value)
    }

    /// Removes the attribute `key` and returns the value it had.
    pub fn remove(&mut self, key: &str) -> (prev: Option<AttributeValue>)
        ensures
            final(self)@ == removed::<String, AttrView>(old(self)@, text_bytes(key@)),
            match prev {
                Some(v) => attr_of(old(self)@, key@) == Some(v@),
                None => attr_of(old(self)@, key@).is_none(),
            },
            old(self).wf() ==> final(self).wf(),
    {
        proof {
            lemma_values_view_lookup(self.attributes@, text_bytes(key@));
            lemma_values_view_removed(self.attributes@, text_bytes(key@));
            if self.wf() {
                lemma_removed_wf(self@, text_bytes(key@));
            }
        }
        self.attributes.remove(key.as_bytes())
    }

    /// Whether the item has the attribute `key`.
    pub fn contains(&self, key: &str) -> (r: bool)
        ensures
            r == attr_of(self@, key@).is_some(),
    {
        proof {
            lemma_values_view_lookup(self.attributes@, text_bytes(key@));
        }
        self.attributes.contains_key(key.as_bytes())
    }

    /// The number of attributes.
    pub fn len(&self) -> (r: usize)
        ensures
            r == self@.len(),
    {
        self.attributes.len()
    }

    /// Whether the item has no attribute.
    pub fn is_empty(&self) -> (r: bool)
        ensures
            r == (self@.len() == 0),
    {
        self.attributes.is_empty()
    }

    /// The names of the attributes, in ascending order.
    pub fn keys(&self) -> (r: Vec<String>)
        ensures
            r@.len() == self@.len(),
            forall|i: int| 0 <= i < r@.len() ==> (#[trigger] r@[i])@ == self@[i].0,
    {
        let mut out: Vec<String> = Vec::new();
        let mut i: usize = 0;
        while i < self.attributes.len()
            invariant
                i <= self.attributes@.len(),
                out@.len() == i,
                forall|j: int| 0 <= j < i ==> (#[trigger] out@[j])@ == self@[j].0,
            decreases self.attributes@.len() - i,
        {
            out.push(self.attributes.key_at(i).clone());
            i += 1;
        }
        out
    }

    /// The attributes as pairs of name and value, in ascending order of the
    /// names.
    pub fn iter(&self) -> (r: Vec<(&str, &AttributeValue)>)
        ensures
            r@.len() == self@.len(),
            forall|i: int|
                0 <= i < r@.len() ==> (#[trigger] r@[i]).0@ == self@[i].0 && r@[i].1@ == self@[i].1,
    {
        let mut out: Vec<(&str, &AttributeValue)> = Vec::new();
        let mut i: usize = 0;
        while i < self.attributes.len()
            invariant
                i <= self.attributes@.len(),
                out@.len() == i,
                forall|j: int|
                    0 <= j < i ==> (#[trigger] out@[j]).0@ == self@[j].0 && out@[j].1@ == self@[j].1,
            decreases self.attributes@.len() - i,
        {
            out.push((self.attributes.key_at(i).as_str(), self.attributes.value_at(i)));
            i += 1;
        }
        out
    }

    /// The name of the attribute at `i`, counted in ascending order of the
    /// names.
    pub fn name_at(&self, i: usize) -> (r: &str)
        requires
            i < self@.len(),
        ensures
            r@ == self@[i as int].0,
    {
        self.attributes.key_at(i).as_str()
    }

    /// The value of the attribute at `i`, counted in ascending order of the
    /// names.
    pub fn value_at(&self, i: usize) -> (r: &AttributeValue)
        requires
            i < self@.len(),
        ensures
            r@ == self@[i as int].1,
    {
        self.attributes.value_at(i)
    }

    /// The attributes as a map.
    pub fn into_inner(self) -> (r: AttrMap)
        ensures
            values_view(r@) == self@,
    {
        self.attributes
    }

    /// An item with the attributes of a map.
    pub fn from_map(map: AttrMap) -> (r: Self)
        ensures
            r@ == values_view(map@),
    {
        Item { attributes: map }
    }

    /// The primary key that the item holds under `schema`; `None` where a key
    /// attribute is absent or of another type.
    pub fn extract_key(&self, schema: &KeySchema) -> (r: Option<PrimaryKey>)
        ensures
            match r {
                Some(k) => extracted_key(self@, schema@) == Some(k@),
                None => extracted_key(self@, schema@).is_none(),
            },
    {
        let pk = match extract_key_part(self, &schema.partition_key) {
            Some(k) => k,
            None => {
                return None;
            },
        };
        match &schema.sort_key {
            None => Some(PrimaryKey { pk, sk: None }),
            Some(def) => match extract_key_part(self, def) {
                Some(sk) => Some(PrimaryKey { pk, sk: Some(sk) }),
                None => None,
            },
        }
    }

    /// Checks that the item has the key attributes of `schema` with their
    /// types; the partition key is checked first.
    pub fn validate_key(&self, schema: &KeySchema) -> (r: Result<(), KeyValidationError>)
        ensures
            match r {
                Ok(_) => validated(self@, schema@) is Ok && extracted_key(self@, schema@) is Some,
                Err(e) => validated(self@, schema@) == Err::<(), _>(e@),
            },
    {
        match validate_key_attribute(self, &schema.partition_key) {
            Err(e) => {
                return Err(e);
            },
            Ok(_) => {},
        }
        match &schema.sort_key {
            None => Ok(()),
            Some(def) => validate_key_attribute(self, def),
        }
    }

    /// The item with the attribute `name` set to `value`.
    pub fn with<T: IntoText, V: IntoAttribute>(self, name: T, value: V) -> (r: Self)
        ensures
            r@ == inserted::<String, AttrView>(self@, name.text(), value.attribute()),
            self.wf() && attr_wf(value.attribute()) ==> r.wf(),
    {
        let mut item = self;
        item.set(name, value.into_attribute());
        item
    }

    /// The item with the attribute `name` set to a string.
    pub fn with_s<T: IntoText, U: IntoText>(self, name: T, value: U) -> (r: Self)
        ensures
            r@ == inserted::<String, AttrView>(self@, name.text(), AttrView::S(value.text())),
            self.wf() ==> r.wf(),
    {
        let mut item = self;
        item.set(name, AttributeValue::S(value.into_text()));
        item
    }

    /// The item with the attribute `name` set to a number.
    pub fn with_n<T: IntoText, N: crate::number::NumberText>(self, name: T, value: N) -> (r: Self)
        ensures
            r@ == inserted::<String, AttrView>(self@, name.text(), AttrView::N(value.number_text())),
            self.wf() ==> r.wf(),
    {
        let mut item = self;
        item.set(name, AttributeValue::N(value.into_number_text()));
        item
    }

    /// The item with the attribute `name` set to binary data.
    pub fn with_b<T: IntoText>(self, name: T, value: Vec<u8>) -> (r: Self)
        ensures
            r@ == inserted::<String, AttrView>(self@, name.text(), AttrView::B(value@)),
            self.wf() ==> r.wf(),
    {
        let mut item = self;
        item.set(name, AttributeValue::B(value));
        item
    }

    /// The item with the attribute `name` set to a boolean.
    pub fn with_bool<T: IntoText>(self, name: T, value: bool) -> (r: Self)
        ensures
            r@ == inserted::<String, AttrView>(self@, name.text(), AttrView::Bool(value)),
            self.wf() ==> r.wf(),
    {
        let mut item = self;
        item.set(name, AttributeValue::Bool(value));
        item
    }

    /// The item with the attribute `name` set to null.
    pub fn with_null<T: IntoText>(self, name: T) -> (r: Self)
        ensures
            r@ == inserted::<String, AttrView>(self@, name.text(), AttrView::Null),
            self.wf() ==> r.wf(),
    {
        let mut item = self;
        item.set(name, AttributeValue::Null);
        item
    }

    /// The item with the attribute `name` set to a map.
    pub fn with_m<T: IntoText>(self, name: T, value: AttrMap) -> (r: Self)
        ensures
            r@ == inserted::<String, AttrView>(
                self@,
                name.text(),
                AttrView::M(values_view(value@)),
            ),
    {
        let mut item = self;
        proof {
            crate::types::attributes::lemma_map_view(value);
        }
        item.set(name, AttributeValue::M(value));
        item
    }

    /// The item with the attribute `name` set to a list.
    pub fn with_l<T: IntoText>(self, name: T, value: Vec<AttributeValue>) -> (r: Self)
        ensures
            r@ == inserted::<String, AttrView>(
                self@,
                name.text(),
                AttrView::L(crate::types::attributes::list_view(value@)),
            ),
    {
        let mut item = self;
        item.set(name, AttributeValue::L(value));
        item
    }

    /// The item as a map value.
    pub fn to_attribute(&self) -> (r: AttributeValue)
        ensures
            r@ == AttrView::M(self@),
    {
        let m = duplicate_map(&self.attributes);
        proof {
            crate::types::attributes::lemma_map_view(m);
        }
        AttributeValue::M(m)
    }

    /// A copy with the same content.
    pub fn duplicate(&self) -> (r: Self)
        ensures
            r@ == self@,
    {
        Item { attributes: duplicate_map(&self.attributes) }
    }

    /// Whether two items have the same content.
    pub fn same(&self, other: &Self) -> (r: bool)
        ensures
            r == (self@ == other@),
    {
        same_map(&self.attributes, &other.attributes)
    }
}

impl Clone for Item {
    fn clone(&self) -> (r: Self)
        ensures
            r@ == self@,
    {
        self.duplicate()
    }
}

impl Default for Item {
    fn default() -> (r: Self)
        ensures
            r@ == Seq::<(Seq<char>, AttrView)>::empty(),
    {
        Item::new()
    }
}

impl PartialEq for Item {
    fn eq(&self, other: &Self) -> (r: bool) {
        self.same(other)
    }
}

impl vstd::std_specs::cmp::PartialEqSpecImpl for Item {
    open spec fn obeys_eq_spec() -> bool {
        true
    }

    open spec fn eq_spec(&self, other: &Self) -> bool {
        self@ == other@
    }
}

} // verus!
