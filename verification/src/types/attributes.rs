//! The typed attribute values that items are made of.

use crate::bytes::copy_bytes;
use crate::sorted::{
    inserted, lemma_inserted_sorted, lemma_position_bounds, lemma_removed_sorted, lookup, position,
    present, removed, set_sorted, sorted, SortedMap, SortedSet,
};
use crate::text::text_bytes;
use crate::text::{text_equal, IntoText};
use vstd::prelude::*;

verus! {

/// A map from attribute names to values, in ascending order of the names.
pub type AttrMap = SortedMap<String, AttributeValue>;

/// A set of strings, in ascending order.
pub type StringSet = SortedSet<String>;

/// A set of binary values, in ascending order.
pub type BinarySet = SortedSet<Vec<u8>>;

/// An attribute value. A value is exactly one of these.
#[derive(Debug)]
pub enum AttributeValue {
    /// A string.
    S(String),
    /// A number, kept as its decimal text.
    N(String),
    /// Binary data.
    B(Vec<u8>),
    /// A boolean.
    Bool(bool),
    /// The null value, which is not the same as an absent attribute.
    Null,
    /// A map from names to values.
    M(AttrMap),
    /// A list of values.
    L(Vec<AttributeValue>),
    /// A set of strings.
    Ss(StringSet),
    /// A set of numbers, each kept as its decimal text.
    Ns(StringSet),
    /// A set of binary values.
    Bs(BinarySet),
}

/// The mathematical content of an attribute value.
pub ghost enum AttrView {
    S(Seq<char>),
    N(Seq<char>),
    B(Seq<u8>),
    Bool(bool),
    Null,
    M(Seq<(Seq<char>, AttrView)>),
    L(Seq<AttrView>),
    Ss(Seq<Seq<char>>),
    Ns(Seq<Seq<char>>),
    Bs(Seq<Seq<u8>>),
}

/// The content of the entries of a map, in their order.
pub open spec fn entries_view(e: Seq<(String, AttributeValue)>) -> Seq<(Seq<char>, AttrView)>
    decreases e,
{
    Seq::new(
        e.len(),
        |i: int|
            if 0 <= i < e.len() {
                (e[i].0@, e[i].1.view())
            } else {
                (Seq::empty(), AttrView::Null)
            },
    )
}

/// The content of the elements of a list, in their order.
pub open spec fn list_view(l: Seq<AttributeValue>) -> Seq<AttrView>
    decreases l,
{
    Seq::new(
        l.len(),
        |i: int|
            if 0 <= i < l.len() {
                l[i].view()
            } else {
                AttrView::Null
            },
    )
}

/// The content of map entries whose keys are already views.
pub open spec fn values_view(s: Seq<(Seq<char>, AttributeValue)>) -> Seq<(Seq<char>, AttrView)> {
    Seq::new(s.len(), |i: int| (s[i].0, s[i].1.view()))
}

/// A value is well formed when every map in it has its names in strictly
/// ascending order and every set its elements, at every depth.
pub open spec fn attr_wf(v: AttrView) -> bool
    decreases v,
{
    match v {
        AttrView::M(e) => sorted::<String, AttrView>(e) && forall|i: int|
            0 <= i < e.len() ==> attr_wf((#[trigger] e[i]).1),
        AttrView::L(l) => forall|i: int| 0 <= i < l.len() ==> attr_wf(#[trigger] l[i]),
        AttrView::Ss(s) => set_sorted::<String>(s),
        AttrView::Ns(s) => set_sorted::<String>(s),
        AttrView::Bs(s) => set_sorted::<Vec<u8>>(s),
        _ => true,
    }
}

/// The short name of a value's type.
pub open spec fn type_label_of(v: AttrView) -> Seq<char> {
    match v {
        AttrView::S(_) => "S"@,
        AttrView::N(_) => "N"@,
        AttrView::B(_) => "B"@,
        AttrView::Bool(_) => "BOOL"@,
        AttrView::Null => "NULL"@,
        AttrView::M(_) => "M"@,
        AttrView::L(_) => "L"@,
        AttrView::Ss(_) => "SS"@,
        AttrView::Ns(_) => "NS"@,
        AttrView::Bs(_) => "BS"@,
    }
}

impl View for AttributeValue {
    type V = AttrView;

    open spec fn view(&self) -> AttrView
        decreases self,
    {
        match self {
            AttributeValue::S(s) => AttrView::S(s@),
            AttributeValue::N(n) => AttrView::N(n@),
            AttributeValue::B(b) => AttrView::B(b@),
            AttributeValue::Bool(b) => AttrView::Bool(*b),
            AttributeValue::Null => AttrView::Null,
            AttributeValue::M(m) => AttrView::M(entries_view(m.entries@)),
            AttributeValue::L(l) => AttrView::L(list_view(l@)),
            AttributeValue::Ss(s) => AttrView::Ss(s@),
            AttributeValue::Ns(s) => AttrView::Ns(s@),
            AttributeValue::Bs(s) => AttrView::Bs(s@),
        }
    }
}

/// The content of a map value is the content of the map's view.
pub proof fn lemma_map_view(m: AttrMap)
    ensures
        AttributeValue::M(m)@ == AttrView::M(values_view(m@)),
        values_view(m@).len() == m@.len(),
{
    assert(entries_view(m.entries@) =~= values_view(m@));
}

/// A map's content keeps its positions when its values are replaced by their
/// content.
pub proof fn lemma_values_view_position(s: Seq<(Seq<char>, AttributeValue)>, key: Seq<u8>)
    ensures
        position::<String, AttributeValue>(s, key) == position::<String, AttrView>(
            values_view(s),
            key,
        ),
    decreases s.len(),
{
    if s.len() > 0 {
        assert(values_view(s)[0].0 == s[0].0);
        assert(values_view(s).skip(1) =~= values_view(s.skip(1)));
        lemma_values_view_position(s.skip(1), key);
    }
}

/// Looking a name up and taking the content is the same as looking it up in
/// the content.
pub proof fn lemma_values_view_lookup(s: Seq<(Seq<char>, AttributeValue)>, key: Seq<u8>)
    ensures
        present::<String, AttrView>(values_view(s), key) == present::<String, AttributeValue>(s, key),
        lookup::<String, AttrView>(values_view(s), key) == match lookup::<String, AttributeValue>(
            s,
            key,
        ) {
            Some(v) => Some(v@),
            None => None,
        },
{
    lemma_values_view_position(s, key);
    lemma_position_bounds::<String, AttributeValue>(s, key);
}

/// Storing a value and taking the content is the same as storing the value's
/// content.
pub proof fn lemma_values_view_inserted(
    s: Seq<(Seq<char>, AttributeValue)>,
    key: Seq<char>,
    value: AttributeValue,
)
    ensures
        values_view(inserted::<String, AttributeValue>(s, key, value)) == inserted::<String, AttrView>(
            values_view(s),
            key,
            value@,
        ),
{
    lemma_values_view_position(s, text_bytes(key));
    lemma_position_bounds::<String, AttributeValue>(s, text_bytes(key));
    assert(values_view(inserted::<String, AttributeValue>(s, key, value)) =~= inserted::<
        String,
        AttrView,
    >(values_view(s), key, value@));
}

/// Removing a name and taking the content is the same as removing it from the
/// content.
pub proof fn lemma_values_view_removed(s: Seq<(Seq<char>, AttributeValue)>, key: Seq<u8>)
    ensures
        values_view(removed::<String, AttributeValue>(s, key)) == removed::<String, AttrView>(
            values_view(s),
            key,
        ),
{
    lemma_values_view_position(s, key);
    lemma_position_bounds::<String, AttributeValue>(s, key);
    assert(values_view(removed::<String, AttributeValue>(s, key)) =~= removed::<String, AttrView>(
        values_view(s),
        key,
    ));
}

/// A well-formed map stays well formed when a well-formed value is stored.
pub proof fn lemma_inserted_wf(e: Seq<(Seq<char>, AttrView)>, key: Seq<char>, value: AttrView)
    requires
        attr_wf(AttrView::M(e)),
        attr_wf(value),
    ensures
        attr_wf(AttrView::M(inserted::<String, AttrView>(e, key, value))),
{
    let t = inserted::<String, AttrView>(e, key, value);
    let p = position::<String, AttrView>(e, text_bytes(key));
    lemma_inserted_sorted::<String, AttrView>(e, key, value);
    lemma_position_bounds::<String, AttrView>(e, text_bytes(key));
    assert forall|i: int| 0 <= i < t.len() implies attr_wf((#[trigger] t[i]).1) by {
        if present::<String, AttrView>(e, text_bytes(key)) {
            if i != p {
                assert(t[i] == e[i]);
            }
        } else {
            if i < p {
                assert(t[i] == e[i]);
            } else if i > p {
                assert(t[i] == e[i - 1]);
            }
        }
    }
}

/// A well-formed map stays well formed when an entry is removed.
pub proof fn lemma_removed_wf(e: Seq<(Seq<char>, AttrView)>, key: Seq<u8>)
    requires
        attr_wf(AttrView::M(e)),
    ensures
        attr_wf(AttrView::M(removed::<String, AttrView>(e, key))),
{
    let t = removed::<String, AttrView>(e, key);
    let p = position::<String, AttrView>(e, key);
    lemma_removed_sorted::<String, AttrView>(e, key);
    assert forall|i: int| 0 <= i < t.len() implies attr_wf((#[trigger] t[i]).1) by {
        if present::<String, AttrView>(e, key) {
            if i < p {
                assert(t[i] == e[i]);
            } else {
                assert(t[i] == e[i + 1]);
            }
        }
    }
}

/// A copy of a map, value by value.
pub fn duplicate_map(m: &AttrMap) -> (r: AttrMap)
    ensures
        values_view(r@) == values_view(m@),
        r@.len() == m@.len(),
        forall|i: int| 0 <= i < m@.len() ==> (#[trigger] r@[i]).0 == m@[i].0 && r@[i].1@ == m@[i].1@,
    decreases m,
{
    let mut out: Vec<(String, AttributeValue)> = Vec::new();
    let mut i: usize = 0;
    while i < m.entries.len()
        invariant
            i <= m.entries.len(),
            out.len() == i,
            forall|j: int|
                0 <= j < i ==> (#[trigger] out@[j]).0@ == m.entries@[j].0@ && out@[j].1@
                    == m.entries@[j].1@,
        decreases m.entries.len() - i,
    {
        let k = m.entries[i].0.clone();
        proof {
            assert(decreases_to!(m.entries => m.entries[i as int]));
        }
        let v = m.entries[i].1.duplicate();
        out.push((k, v));
        i += 1;
    }
    let r = SortedMap { entries: out };
    proof {
        assert(values_view(r@) =~= values_view(m@));
    }
    r
}

/// A copy of a list, value by value.
pub fn duplicate_list(l: &Vec<AttributeValue>) -> (r: Vec<AttributeValue>)
    ensures
        list_view(r@) == list_view(l@),
        r@.len() == l@.len(),
    decreases l,
{
    let mut out: Vec<AttributeValue> = Vec::new();
    let mut i: usize = 0;
    while i < l.len()
        invariant
            i <= l.len(),
            out.len() == i,
            forall|j: int| 0 <= j < i ==> (#[trigger] out@[j])@ == l@[j]@,
        decreases l.len() - i,
    {
        proof {
            assert(decreases_to!(l => l[i as int]));
        }
        out.push(l[i].duplicate());
        i += 1;
    }
    proof {
        assert(list_view(out@) =~= list_view(l@));
    }
    out
}

/// Whether two maps hold the same names with the same content, in the same
/// order.
pub fn same_map(a: &AttrMap, b: &AttrMap) -> (r: bool)
    ensures
        r == (values_view(a@) == values_view(b@)),
    decreases a,
{
    if a.entries.len() != b.entries.len() {
        proof {
            assert(values_view(a@).len() != values_view(b@).len());
        }
        return false;
    }
    let mut i: usize = 0;
    while i < a.entries.len()
        invariant
            i <= a.entries.len(),
            a.entries.len() == b.entries.len(),
            forall|j: int| 0 <= j < i ==> (#[trigger] values_view(a@)[j]) == values_view(b@)[j],
        decreases a.entries.len() - i,
    {
        proof {
            assert(decreases_to!(a.entries => a.entries[i as int]));
        }
        if !text_equal(a.entries[i].0.as_str(), b.entries[i].0.as_str()) || !a.entries[i].1.same(
            &b.entries[i].1,
        ) {
            proof {
                assert(values_view(a@)[i as int] != values_view(b@)[i as int]);
            }
            return false;
        }
        i += 1;
    }
    proof {
        assert(values_view(a@) =~= values_view(b@));
    }
    true
}

/// Whether two lists hold the same content, element by element.
pub fn same_list(a: &Vec<AttributeValue>, b: &Vec<AttributeValue>) -> (r: bool)
    ensures
        r == (list_view(a@) == list_view(b@)),
    decreases a,
{
    if a.len() != b.len() {
        proof {
            assert(list_view(a@).len() != list_view(b@).len());
        }
        return false;
    }
    let mut i: usize = 0;
    while i < a.len()
        invariant
            i <= a.len(),
            a.len() == b.len(),
            forall|j: int| 0 <= j < i ==> (#[trigger] list_view(a@)[j]) == list_view(b@)[j],
        decreases a.len() - i,
    {
        proof {
            assert(decreases_to!(a => a[i as int]));
        }
        if !a[i].same(&b[i]) {
            proof {
                assert(list_view(a@)[i as int] != list_view(b@)[i as int]);
            }
            return false;
        }
        i += 1;
    }
    proof {
        assert(list_view(a@) =~= list_view(b@));
    }
    true
}

impl AttributeValue {
    /// Every map and every set in the value is in strictly ascending order.
    pub open spec fn wf(&self) -> bool {
        attr_wf(self@)
    }

    /// The short name of the value's type.
    pub fn type_label(&self) -> (r: &'static str)
        ensures
            r@ == type_label_of(self@),
    {
        match self {
            AttributeValue::S(_) => "S",
            AttributeValue::N(_) => "N",
            AttributeValue::B(_) => "B",
            AttributeValue::Bool(_) => "BOOL",
            AttributeValue::Null => "NULL",
            AttributeValue::M(_) => "M",
            AttributeValue::L(_) => "L",
            AttributeValue::Ss(_) => "SS",
            AttributeValue::Ns(_) => "NS",
            AttributeValue::Bs(_) => "BS",
        }
    }

    /// Whether the value is a string, number, binary, boolean or null.
    pub fn is_scalar(&self) -> (r: bool)
        ensures
            r == (self@ is S || self@ is N || self@ is B || self@ is Bool || self@ is Null),
    {
        match self {
            AttributeValue::S(_) | AttributeValue::N(_) | AttributeValue::B(_) | AttributeValue::Bool(
                _,
            ) | AttributeValue::Null => true,
            _ => false,
        }
    }

    /// Whether the value is a map or a list.
    pub fn is_document(&self) -> (r: bool)
        ensures
            r == (self@ is M || self@ is L),
    {
        match self {
            AttributeValue::M(_) | AttributeValue::L(_) => true,
            _ => false,
        }
    }

    /// Whether the value is a set.
    pub fn is_set(&self) -> (r: bool)
        ensures
            r == (self@ is Ss || self@ is Ns || self@ is Bs),
    {
        match self {
            AttributeValue::Ss(_) | AttributeValue::Ns(_) | AttributeValue::Bs(_) => true,
            _ => false,
        }
    }

    /// The string, where the value is one.
    pub fn as_s(&self) -> (r: Option<&str>)
        ensures
            match r {
                Some(s) => self@ == AttrView::S(s@),
                None => !(self@ is S),
            },
    {
        match self {
            AttributeValue::S(s) => Some(s.as_str()),
            _ => None,
        }
    }

    /// The number's text, where the value is a number.
    pub fn as_n(&self) -> (r: Option<&str>)
        ensures
            match r {
                Some(s) => self@ == AttrView::N(s@),
                None => !(self@ is N),
            },
    {
        match self {
            AttributeValue::N(n) => Some(n.as_str()),
            _ => None,
        }
    }

    /// The bytes, where the value is binary.
    pub fn as_b(&self) -> (r: Option<&[u8]>)
        ensures
            match r {
                Some(b) => self@ == AttrView::B(b@),
                None => !(self@ is B),
            },
    {
        match self {
            AttributeValue::B(b) => Some(b.as_slice()),
            _ => None,
        }
    }

    /// The boolean, where the value is one.
    pub fn as_bool(&self) -> (r: Option<bool>)
        ensures
            match r {
                Some(b) => self@ == AttrView::Bool(b),
                None => !(self@ is Bool),
            },
    {
        match self {
            AttributeValue::Bool(b) => Some(*b),
            _ => None,
        }
    }

    /// Whether the value is null.
    pub fn is_null(&self) -> (r: bool)
        ensures
            r == (self@ is Null),
    {
        match self {
            AttributeValue::Null => true,
            _ => false,
        }
    }

    /// The map, where the value is one.
    pub fn as_m(&self) -> (r: Option<&AttrMap>)
        ensures
            match r {
                Some(m) => self@ == AttrView::M(values_view(m@)),
                None => !(self@ is M),
            },
    {
        match self {
            AttributeValue::M(m) => {
                proof {
                    lemma_map_view(*m);
                }
                Some(m)
            },
            _ => None,
        }
    }

    /// The list, where the value is one.
    pub fn as_l(&self) -> (r: Option<&Vec<AttributeValue>>)
        ensures
            match r {
                Some(l) => self@ == AttrView::L(list_view(l@)),
                None => !(self@ is L),
            },
    {
        match self {
            AttributeValue::L(l) => Some(l),
            _ => None,
        }
    }

    /// The set, where the value is a set of strings.
    pub fn as_ss(&self) -> (r: Option<&StringSet>)
        ensures
            match r {
                Some(s) => self@ == AttrView::Ss(s@),
                None => !(self@ is Ss),
            },
    {
        match self {
            AttributeValue::Ss(s) => Some(s),
            _ => None,
        }
    }

    /// The set, where the value is a set of numbers.
    pub fn as_ns(&self) -> (r: Option<&StringSet>)
        ensures
            match r {
                Some(s) => self@ == AttrView::Ns(s@),
                None => !(self@ is Ns),
            },
    {
        match self {
            AttributeValue::Ns(s) => Some(s),
            _ => None,
        }
    }

    /// The set, where the value is a set of binary values.
    pub fn as_bs(&self) -> (r: Option<&BinarySet>)
        ensures
            match r {
                Some(s) => self@ == AttrView::Bs(s@),
                None => !(self@ is Bs),
            },
    {
        match self {
            AttributeValue::Bs(s) => Some(s),
            _ => None,
        }
    }

    /// A copy with the same content.
    pub fn duplicate(&self) -> (r: Self)
        ensures
            r@ == self@,
        decreases self,
    {
        match self {
            AttributeValue::S(s) => AttributeValue::S(s.clone()),
            AttributeValue::N(n) => AttributeValue::N(n.clone()),
            AttributeValue::B(b) => AttributeValue::B(copy_bytes(b.as_slice())),
            AttributeValue::Bool(b) => AttributeValue::Bool(*b),
            AttributeValue::Null => AttributeValue::Null,
            AttributeValue::M(m) => {
                proof {
                    assert(self->M_0 == *m);
                    lemma_map_view(*m);
                }
                let r = duplicate_map(m);
                proof {
                    lemma_map_view(r);
                }
                AttributeValue::M(r)
            },
            AttributeValue::L(l) => {
                proof {
                    assert(self->L_0 == *l);
                }
                AttributeValue::L(duplicate_list(l))
            },
            AttributeValue::Ss(s) => AttributeValue::Ss(s.duplicate()),
            AttributeValue::Ns(s) => AttributeValue::Ns(s.duplicate()),
            AttributeValue::Bs(s) => AttributeValue::Bs(s.duplicate()),
        }
    }

    /// Whether two values have the same content.
    pub fn same(&self, other: &Self) -> (r: bool)
        ensures
            r == (self@ == other@),
        decreases self,
    {
        match (self, other) {
            (AttributeValue::S(a), AttributeValue::S(b)) => text_equal(a.as_str(), b.as_str()),
            (AttributeValue::N(a), AttributeValue::N(b)) => text_equal(a.as_str(), b.as_str()),
            (AttributeValue::B(a), AttributeValue::B(b)) => crate::bytes::bytes_equal(
                a.as_slice(),
                b.as_slice(),
            ),
            (AttributeValue::Bool(a), AttributeValue::Bool(b)) => *a == *b,
            (AttributeValue::Null, AttributeValue::Null) => true,
            (AttributeValue::M(a), AttributeValue::M(b)) => {
                proof {
                    assert(self->M_0 == *a);
                    lemma_map_view(*a);
                    lemma_map_view(*b);
                }
                same_map(a, b)
            },
            (AttributeValue::L(a), AttributeValue::L(b)) => {
                proof {
                    assert(self->L_0 == *a);
                }
                same_list(a, b)
            },
            (AttributeValue::Ss(a), AttributeValue::Ss(b)) => a.same(b),
            (AttributeValue::Ns(a), AttributeValue::Ns(b)) => a.same(b),
            (AttributeValue::Bs(a), AttributeValue::Bs(b)) => a.same(b),
            _ => false,
        }
    }
}

impl Clone for AttributeValue {
    fn clone(&self) -> (r: Self)
        ensures
            r@ == self@,
    {
        self.duplicate()
    }
}

impl PartialEq for AttributeValue {
    fn eq(&self, other: &Self) -> (r: bool) {
        self.same(other)
    }
}

impl vstd::std_specs::cmp::PartialEqSpecImpl for AttributeValue {
    open spec fn obeys_eq_spec() -> bool {
        true
    }

    open spec fn eq_spec(&self, other: &Self) -> bool {
        self@ == other@
    }
}

/// What can be turned into an attribute value.
pub trait IntoAttribute: Sized {
    /// The content of the value that this turns into.
    spec fn attribute(&self) -> AttrView;

    fn into_attribute(self) -> (r: AttributeValue)
        ensures
            r@ == self.attribute(),
    ;
}

impl IntoAttribute for AttributeValue {
    open spec fn attribute(&self) -> AttrView {
        self@
    }

    fn into_attribute(self) -> (r: AttributeValue) {
        self
    }
}

impl IntoAttribute for &str {
    open spec fn attribute(&self) -> AttrView {
        AttrView::S(self@)
    }

    fn into_attribute(self) -> (r: AttributeValue) {
        AttributeValue::S(self.into_text())
    }
}

impl IntoAttribute for String {
    open spec fn attribute(&self) -> AttrView {
        AttrView::S(self@)
    }

    fn into_attribute(self) -> (r: AttributeValue) {
        AttributeValue::S(self)
    }
}

impl IntoAttribute for bool {
    open spec fn attribute(&self) -> AttrView {
        AttrView::Bool(*self)
    }

    fn into_attribute(self) -> (r: AttributeValue) {
        AttributeValue::Bool(self)
    }
}

impl IntoAttribute for Vec<u8> {
    open spec fn attribute(&self) -> AttrView {
        AttrView::B(self@)
    }

    fn into_attribute(self) -> (r: AttributeValue) {
        AttributeValue::B(self)
    }
}

impl IntoAttribute for &[u8] {
    open spec fn attribute(&self) -> AttrView {
        AttrView::B(self@)
    }

    fn into_attribute(self) -> (r: AttributeValue) {
        AttributeValue::B(copy_bytes(self))
    }
}

impl IntoAttribute for Vec<AttributeValue> {
    open spec fn attribute(&self) -> AttrView {
        AttrView::L(list_view(self@))
    }

    fn into_attribute(self) -> (r: AttributeValue) {
        AttributeValue::L(self)
    }
}

impl IntoAttribute for AttrMap {
    open spec fn attribute(&self) -> AttrView {
        AttrView::M(values_view(self@))
    }

    fn into_attribute(self) -> (r: AttributeValue) {
        proof {
            lemma_map_view(self);
        }
        AttributeValue::M(self)
    }
}

impl IntoAttribute for i8 {
    open spec fn attribute(&self) -> AttrView {
        AttrView::N(crate::number::int_text(*self as int))
    }

    fn into_attribute(self) -> (r: AttributeValue) {
        AttributeValue::N(crate::number::NumberText::into_number_text(self))
    }
}

impl IntoAttribute for i16 {
    open spec fn attribute(&self) -> AttrView {
        AttrView::N(crate::number::int_text(*self as int))
    }

    fn into_attribute(self) -> (r: AttributeValue) {
        AttributeValue::N(crate::number::NumberText::into_number_text(self))
    }
}

impl IntoAttribute for i32 {
    open spec fn attribute(&self) -> AttrView {
        AttrView::N(crate::number::int_text(*self as int))
    }

    fn into_attribute(self) -> (r: AttributeValue) {
        AttributeValue::N(crate::number::NumberText::into_number_text(self))
    }
}

impl IntoAttribute for i64 {
    open spec fn attribute(&self) -> AttrView {
        AttrView::N(crate::number::int_text(*self as int))
    }

    fn into_attribute(self) -> (r: AttributeValue) {
        AttributeValue::N(crate::number::NumberText::into_number_text(self))
    }
}

impl IntoAttribute for i128 {
    open spec fn attribute(&self) -> AttrView {
        AttrView::N(crate::number::int_text(*self as int))
    }

    fn into_attribute(self) -> (r: AttributeValue) {
        AttributeValue::N(crate::number::NumberText::into_number_text(self))
    }
}

impl IntoAttribute for isize {
    open spec fn attribute(&self) -> AttrView {
        AttrView::N(crate::number::int_text(*self as int))
    }

    fn into_attribute(self) -> (r: AttributeValue) {
        AttributeValue::N(crate::number::NumberText::into_number_text(self))
    }
}

impl IntoAttribute for u8 {
    open spec fn attribute(&self) -> AttrView {
        AttrView::N(crate::number::int_text(*self as int))
    }

    fn into_attribute(self) -> (r: AttributeValue) {
        AttributeValue::N(crate::number::NumberText::into_number_text(self))
    }
}

impl IntoAttribute for u16 {
    open spec fn attribute(&self) -> AttrView {
        AttrView::N(crate::number::int_text(*self as int))
    }

    fn into_attribute(self) -> (r: AttributeValue) {
        AttributeValue::N(crate::number::NumberText::into_number_text(self))
    }
}

impl IntoAttribute for u32 {
    open spec fn attribute(&self) -> AttrView {
        AttrView::N(crate::number::int_text(*self as int))
    }

    fn into_attribute(self) -> (r: AttributeValue) {
        AttributeValue::N(crate::number::NumberText::into_number_text(self))
    }
}

impl IntoAttribute for u64 {
    open spec fn attribute(&self) -> AttrView {
        AttrView::N(crate::number::int_text(*self as int))
    }

    fn into_attribute(self) -> (r: AttributeValue) {
        AttributeValue::N(crate::number::NumberText::into_number_text(self))
    }
}

impl IntoAttribute for u128 {
    open spec fn attribute(&self) -> AttrView {
        AttrView::N(crate::number::int_text(*self as int))
    }

    fn into_attribute(self) -> (r: AttributeValue) {
        AttributeValue::N(crate::number::NumberText::into_number_text(self))
    }
}

impl IntoAttribute for usize {
    open spec fn attribute(&self) -> AttrView {
        AttrView::N(crate::number::int_text(*self as int))
    }

    fn into_attribute(self) -> (r: AttributeValue) {
        AttributeValue::N(crate::number::NumberText::into_number_text(self))
    }
}

} // verus!
