//! Projections: which attributes of an item an index keeps.

use crate::sorted::{set_has, SortedSet};
use crate::text::{text_bytes, text_equal, IntoText};
use crate::types::attributes::{AttrView, AttributeValue, StringSet};
use crate::types::item::{Item, ItemView};
use crate::types::key::{KeySchema, KeySchemaView};
use vstd::prelude::*;
use vstd::string::StringSliceAdditionalSpecFns;

verus! {

/// Which attributes an index keeps of every item.
#[derive(Debug)]
pub enum Projection {
    /// Every attribute.
    All,
    /// The key attributes of the table and of the index.
    KeysOnly,
    /// The key attributes and the named ones.
    Include(StringSet),
}

/// The content of a projection.
pub ghost enum ProjectionView {
    All,
    KeysOnly,
    Include(Seq<Seq<char>>),
}

impl View for Projection {
    type V = ProjectionView;

    open spec fn view(&self) -> ProjectionView {
        match self {
            Projection::All => ProjectionView::All,
            Projection::KeysOnly => ProjectionView::KeysOnly,
            Projection::Include(s) => ProjectionView::Include(s@),
        }
    }
}

/// `name` is a key attribute of the schema.
pub open spec fn names_key(schema: KeySchemaView, name: Seq<char>) -> bool {
    schema.partition_key.name == name || match schema.sort_key {
        Some(sk) => sk.name == name,
        None => false,
    }
}

/// Whether a projection keeps the attribute `name`.
pub open spec fn keeps(
    p: ProjectionView,
    table_schema: KeySchemaView,
    index_schema: KeySchemaView,
    name: Seq<char>,
) -> bool {
    match p {
        ProjectionView::All => true,
        ProjectionView::KeysOnly => names_key(table_schema, name) || names_key(index_schema, name),
        ProjectionView::Include(set) => names_key(table_schema, name) || names_key(
            index_schema,
            name,
        ) || set_has::<String>(set, text_bytes(name)),
    }
}

/// The attributes among the first `n` of an item that a projection keeps, in
/// their order.
pub open spec fn kept(
    item: ItemView,
    p: ProjectionView,
    table_schema: KeySchemaView,
    index_schema: KeySchemaView,
    n: nat,
) -> ItemView
    decreases n,
{
    if n == 0 || n > item.len() {
        Seq::empty()
    } else {
        let before = kept(item, p, table_schema, index_schema, (n - 1) as nat);
        if keeps(p, table_schema, index_schema, item[n - 1].0) {
            before.push(item[n - 1])
        } else {
            before
        }
    }
}

/// What a projection keeps of an item.
pub open spec fn projected(
    item: ItemView,
    p: ProjectionView,
    table_schema: KeySchemaView,
    index_schema: KeySchemaView,
) -> ItemView {
    kept(item, p, table_schema, index_schema, item.len())
}

/// A projection that keeps everything keeps the item as it is.
pub proof fn lemma_projected_all(
    item: ItemView,
    table_schema: KeySchemaView,
    index_schema: KeySchemaView,
    n: nat,
)
    requires
        n <= item.len(),
    ensures
        kept(item, ProjectionView::All, table_schema, index_schema, n) == item.take(n as int),
    decreases n,
{
    if n > 0 {
        lemma_projected_all(item, table_schema, index_schema, (n - 1) as nat);
        assert(item.take(n as int) =~= item.take(n - 1).push(item[n - 1]));
    } else {
        assert(item.take(0) =~= Seq::<(Seq<char>, AttrView)>::empty());
    }
}

/// The texts that a list of names holds.
pub open spec fn texts_of<T: IntoText>(names: Seq<T>) -> Seq<Seq<char>> {
    Seq::new(names.len(), |i: int| names[i].text())
}

/// The set `acc` with the names added, the last name first.
pub open spec fn collected(names: Seq<Seq<char>>, acc: Seq<Seq<char>>) -> Seq<Seq<char>>
    decreases names.len(),
{
    if names.len() == 0 {
        acc
    } else {
        collected(names.drop_last(), crate::sorted::set_inserted::<String>(acc, names.last()))
    }
}

fn schema_names(schema: &KeySchema, name: &str) -> (r: bool)
    ensures
        r == names_key(schema@, name@),
{
    if text_equal(schema.partition_key.name.as_str(), name) {
        return true;
    }
    match &schema.sort_key {
        Some(sk) => text_equal(sk.name.as_str(), name),
        None => false,
    }
}

impl Projection {
    /// The projection that keeps the key attributes and the named ones.
    pub fn including<T: IntoText>(attrs: Vec<T>) -> (r: Self)
        ensures
            r@ == ProjectionView::Include(collected(texts_of(attrs@), Seq::empty())),
    {
        let mut set: StringSet = SortedSet::new();
        let mut attrs = attrs;
        let ghost all = texts_of(attrs@);
        while attrs.len() > 0
            invariant
                collected(texts_of(attrs@), set@) == collected(all, Seq::empty()),
            decreases attrs.len(),
        {
            let ghost before = texts_of(attrs@);
            match attrs.pop() {
                Some(a) => {
                    proof {
                        assert(texts_of(attrs@) =~= before.drop_last());
                        assert(before.last() == a.text());
                    }
                    set.insert(a.into_text());
                },
                None => {},
            }
        }
        Projection::Include(set)
    }

    /// Whether the projection keeps the attribute `name`.
    pub fn keeps_name(&self, table_schema: &KeySchema, index_schema: &KeySchema, name: &str) -> (r:
        bool)
        ensures
            r == keeps(self@, table_schema@, index_schema@, name@),
    {
        match self {
            Projection::All => true,
            Projection::KeysOnly => schema_names(table_schema, name) || schema_names(
                index_schema,
                name,
            ),
            Projection::Include(set) => schema_names(table_schema, name) || schema_names(
                index_schema,
                name,
            ) || set.contains(name.as_bytes()),
        }
    }

    /// What the projection keeps of `item`.
    pub fn project_item(&self, item: &Item, table_schema: &KeySchema, index_schema: &KeySchema) -> (r:
        Item)
        ensures
            r@ == projected(item@, self@, table_schema@, index_schema@),
    {
        let mut out: Vec<(String, AttributeValue)> = Vec::new();
        let mut i: usize = 0;
        let ghost mut built: ItemView = Seq::empty();
        while i < item.len()
            invariant
                i <= item@.len(),
                built == kept(item@, self@, table_schema@, index_schema@, i as nat),
                built.len() == out@.len(),
                forall|j: int|
                    0 <= j < out@.len() ==> (#[trigger] out@[j]).0@ == built[j].0 && out@[j].1@
                        == built[j].1,
            decreases item@.len() - i,
        {
            let name = item.name_at(i);
            if self.keeps_name(table_schema, index_schema, name) {
                out.push((crate::text::owned(name), item.value_at(i).duplicate()));
                proof {
                    built = built.push(item@[i as int]);
                }
            }
            i += 1;
        }
        let r = Item { attributes: crate::sorted::SortedMap { entries: out } };
        proof {
            assert(r@ =~= built);
        }
        r
    }

    /// A copy with the same content.
    pub fn duplicate(&self) -> (r: Self)
        ensures
            r@ == self@,
    {
        match self {
            Projection::All => Projection::All,
            Projection::KeysOnly => Projection::KeysOnly,
            Projection::Include(s) => Projection::Include(s.duplicate()),
        }
    }

    /// Whether two projections have the same content.
    pub fn same(&self, other: &Self) -> (r: bool)
        ensures
            r == (self@ == other@),
    {
        match (self, other) {
            (Projection::All, Projection::All) => true,
            (Projection::KeysOnly, Projection::KeysOnly) => true,
            (Projection::Include(a), Projection::Include(b)) => a.same(b),
            _ => false,
        }
    }
}

impl Clone for Projection {
    fn clone(&self) -> (r: Self)
        ensures
            r@ == self@,
    {
        self.duplicate()
    }
}

impl Default for Projection {
    fn default() -> (r: Self)
        ensures
            r@ == ProjectionView::All,
    {
        Projection::All
    }
}

impl PartialEq for Projection {
    fn eq(&self, other: &Self) -> (r: bool) {
        self.same(other)
    }
}

impl vstd::std_specs::cmp::PartialEqSpecImpl for Projection {
    open spec fn obeys_eq_spec() -> bool {
        true
    }

    open spec fn eq_spec(&self, other: &Self) -> bool {
        self@ == other@
    }
}

} // verus!
