//! Attribute paths: how conditions and updates name a place in an item.

use crate::sorted::lookup;
use crate::text::{text_bytes, IntoText};
use crate::types::attributes::{lemma_map_view, lemma_values_view_lookup, AttrView, AttributeValue};
use crate::types::item::{Item, ItemView};
use vstd::prelude::*;
use vstd::string::StringSliceAdditionalSpecFns;

verus! {

/// One step of a path.
#[derive(Debug)]
pub enum PathSegment {
    /// Into a map, by name.
    Key(String),
    /// Into a list, by position.
    Index(usize),
}

/// The content of a path segment.
pub ghost enum SegmentView {
    Key(Seq<char>),
    Index(usize),
}

impl View for PathSegment {
    type V = SegmentView;

    open spec fn view(&self) -> SegmentView {
        match self {
            PathSegment::Key(k) => SegmentView::Key(k@),
            PathSegment::Index(i) => SegmentView::Index(*i),
        }
    }
}

impl PathSegment {
    /// A copy with the same content.
    pub fn duplicate(&self) -> (r: Self)
        ensures
            r@ == self@,
    {
        match self {
            PathSegment::Key(k) => PathSegment::Key(k.clone()),
            PathSegment::Index(i) => PathSegment::Index(*i),
        }
    }

    /// Whether two segments have the same content.
    pub fn same(&self, other: &Self) -> (r: bool)
        ensures
            r == (self@ == other@),
    {
        match (self, other) {
            (PathSegment::Key(a), PathSegment::Key(b)) => *a == *b,
            (PathSegment::Index(a), PathSegment::Index(b)) => *a == *b,
            _ => false,
        }
    }
}

impl Clone for PathSegment {
    fn clone(&self) -> (r: Self)
        ensures
            r@ == self@,
    {
        self.duplicate()
    }
}

impl PartialEq for PathSegment {
    fn eq(&self, other: &Self) -> (r: bool) {
        self.same(other)
    }
}

impl vstd::std_specs::cmp::PartialEqSpecImpl for PathSegment {
    open spec fn obeys_eq_spec() -> bool {
        true
    }

    open spec fn eq_spec(&self, other: &Self) -> bool {
        self@ == other@
    }
}

/// The content of a path: its segments.
pub type PathView = Seq<SegmentView>;

/// One step from a value: a key leads into a map, an index into a list;
/// anything else leads nowhere.
pub open spec fn step(v: AttrView, seg: SegmentView) -> Option<AttrView> {
    match (seg, v) {
        (SegmentView::Key(k), AttrView::M(e)) => lookup::<String, AttrView>(e, text_bytes(k)),
        (SegmentView::Index(i), AttrView::L(l)) => if i < l.len() {
            Some(l[i as int])
        } else {
            None
        },
        _ => None,
    }
}

/// The value that the segments lead to from `v`, step by step.
pub open spec fn walk(v: AttrView, segs: PathView) -> Option<AttrView>
    decreases segs.len(),
{
    if segs.len() == 0 {
        Some(v)
    } else {
        match step(v, segs[0]) {
            Some(next) => walk(next, segs.skip(1)),
            None => None,
        }
    }
}

/// The value that a path names in an item. A path that is empty or starts with
/// an index names nothing.
pub open spec fn resolved(path: PathView, item: ItemView) -> Option<AttrView> {
    if path.len() == 0 || path[0] is Index {
        None
    } else {
        walk(AttrView::M(item), path)
    }
}

/// The content of a list of segments.
pub open spec fn segments_view(s: Seq<PathSegment>) -> PathView {
    Seq::new(s.len(), |i: int| s[i]@)
}

/// A path into an item: a name, then names and positions.
#[derive(Debug)]
pub struct AttributePath {
    /// The segments of the path, the first one first.
    pub segments: Vec<PathSegment>,
}

impl View for AttributePath {
    type V = PathView;

    open spec fn view(&self) -> PathView {
        segments_view(self.segments@)
    }
}

impl AttributePath {
    /// The path to the top-level attribute `name`.
    pub fn new<T: IntoText>(name: T) -> (r: Self)
        ensures
            r@ == seq![SegmentView::Key(name.text())],
    {
        let mut segments: Vec<PathSegment> = Vec::new();
        segments.push(PathSegment::Key(name.into_text()));
        let r = AttributePath { segments };
        proof {
            assert(r@ =~= seq![SegmentView::Key(name.text())]);
        }
        r
    }

    /// The path without segments, which names nothing.
    pub fn empty() -> (r: Self)
        ensures
            r@ == Seq::<SegmentView>::empty(),
    {
        let r = AttributePath { segments: Vec::new() };
        proof {
            assert(r@ =~= Seq::<SegmentView>::empty());
        }
        r
    }

    /// The path with a step into a map added.
    pub fn key<T: IntoText>(self, name: T) -> (r: Self)
        ensures
            r@ == self@.push(SegmentView::Key(name.text())),
    {
        let mut segments = self.segments;
        segments.push(PathSegment::Key(name.into_text()));
        let r = AttributePath { segments };
        proof {
            assert(r@ =~= self@.push(SegmentView::Key(name.text())));
        }
        r
    }

    /// The path with a step into a list added.
    pub fn index(self, i: usize) -> (r: Self)
        ensures
            r@ == self@.push(SegmentView::Index(i)),
    {
        let mut segments = self.segments;
        segments.push(PathSegment::Index(i));
        let r = AttributePath { segments };
        proof {
            assert(r@ =~= self@.push(SegmentView::Index(i)));
        }
        r
    }

    /// The name of the top-level attribute that the path starts at.
    pub fn root(&self) -> (r: Option<&str>)
        ensures
            match r {
                Some(k) => self@.len() > 0 && self@[0] == SegmentView::Key(k@),
                None => self@.len() == 0 || self@[0] is Index,
            },
    {
        if self.segments.len() == 0 {
            return None;
        }
        match &self.segments[0] {
            PathSegment::Key(k) => Some(k.as_str()),
            PathSegment::Index(_) => None,
        }
    }

    /// Whether the path is a single name.
    pub fn is_simple(&self) -> (r: bool)
        ensures
            r == (self@.len() == 1 && self@[0] is Key),
    {
        if self.segments.len() != 1 {
            return false;
        }
        match &self.segments[0] {
            PathSegment::Key(_) => true,
            PathSegment::Index(_) => false,
        }
    }

    /// The number of segments.
    pub fn depth(&self) -> (r: usize)
        ensures
            r == self@.len(),
    {
        self.segments.len()
    }

    /// The segments of the path.
    pub fn segments(&self) -> (r: &Vec<PathSegment>)
        ensures
            segments_view(r@) == self@,
    {
        &self.segments
    }

    /// The value that the path names in `item`. Each name needs a map at its
    /// place and each position a list; anything else names nothing.
    pub fn resolve<'a>(&self, item: &'a Item) -> (r: Option<&'a AttributeValue>)
        ensures
            match r {
                Some(v) => resolved(self@, item@) == Some(v@),
                None => resolved(self@, item@).is_none(),
            },
    {
        if self.segments.len() == 0 {
            return None;
        }
        let root = match &self.segments[0] {
            PathSegment::Key(k) => k,
            PathSegment::Index(_) => {
                return None;
            },
        };
        let mut current: &'a AttributeValue = match item.get(root.as_str()) {
            Some(v) => v,
            None => {
                return None;
            },
        };
        proof {
            assert(self@[0] == SegmentView::Key(root@));
        }
        let mut i: usize = 1;
        while i < self.segments.len()
            invariant
                1 <= i <= self.segments.len(),
                resolved(self@, item@) == walk(current@, self@.skip(i as int)),
            decreases self.segments.len() - i,
        {
            proof {
                assert(self@.skip(i as int)[0] == self@[i as int]);
                assert(self@.skip(i as int).skip(1) =~= self@.skip(i + 1));
                assert(self@[i as int] == self.segments@[i as int]@);
            }
            let next: &'a AttributeValue = match (&self.segments[i], current) {
                (PathSegment::Key(k), AttributeValue::M(map)) => {
                    proof {
                        lemma_map_view(*map);
                        lemma_values_view_lookup(map@, text_bytes(k@));
                    }
                    match map.get(k.as_str().as_bytes()) {
                        Some(v) => v,
                        None => {
                            return None;
                        },
                    }
                },
                (PathSegment::Index(idx), AttributeValue::L(list)) => {
                    if *idx < list.len() {
                        &list[*idx]
                    } else {
                        return None;
                    }
                },
                _ => {
                    return None;
                },
            };
            current = next;
            i += 1;
        }
        proof {
            assert(self@.skip(i as int) =~= Seq::<SegmentView>::empty());
        }
        Some(current)
    }

    /// A copy with the same content.
    pub fn duplicate(&self) -> (r: Self)
        ensures
            r@ == self@,
    {
        let mut out: Vec<PathSegment> = Vec::new();
        let mut i: usize = 0;
        while i < self.segments.len()
            invariant
                i <= self.segments.len(),
                out@.len() == i,
                forall|j: int| 0 <= j < i ==> (#[trigger] out@[j])@ == self.segments@[j]@,
            decreases self.segments.len() - i,
        {
            out.push(self.segments[i].duplicate());
            i += 1;
        }
        let r = AttributePath { segments: out };
        proof {
            assert(r@ =~= self@);
        }
        r
    }

    /// Whether two paths have the same segments.
    pub fn same(&self, other: &Self) -> (r: bool)
        ensures
            r == (self@ == other@),
    {
        if self.segments.len() != other.segments.len() {
            proof {
                assert(self@.len() != other@.len());
            }
            return false;
        }
        let mut i: usize = 0;
        while i < self.segments.len()
            invariant
                i <= self.segments.len(),
                self.segments.len() == other.segments.len(),
                forall|j: int| 0 <= j < i ==> (#[trigger] self@[j]) == other@[j],
            decreases self.segments.len() - i,
        {
            if !self.segments[i].same(&other.segments[i]) {
                proof {
                    assert(self@[i as int] != other@[i as int]);
                }
                return false;
            }
            i += 1;
        }
        proof {
            assert(self@ =~= other@);
        }
        true
    }
}

impl Clone for AttributePath {
    fn clone(&self) -> (r: Self)
        ensures
            r@ == self@,
    {
        self.duplicate()
    }
}

impl PartialEq for AttributePath {
    fn eq(&self, other: &Self) -> (r: bool) {
        self.same(other)
    }
}

impl vstd::std_specs::cmp::PartialEqSpecImpl for AttributePath {
    open spec fn obeys_eq_spec() -> bool {
        true
    }

    open spec fn eq_spec(&self, other: &Self) -> bool {
        self@ == other@
    }
}

/// What can be turned into a path: a path, or the name of a top-level
/// attribute.
pub trait IntoPath: Sized {
    /// The content of the path that this turns into.
    spec fn path(&self) -> PathView;

    fn into_path(self) -> (r: AttributePath)
        ensures
            r@ == self.path(),
    ;
}

impl IntoPath for AttributePath {
    open spec fn path(&self) -> PathView {
        self@
    }

    fn into_path(self) -> (r: AttributePath) {
        self
    }
}

impl IntoPath for &str {
    open spec fn path(&self) -> PathView {
        seq![SegmentView::Key(self@)]
    }

    fn into_path(self) -> (r: AttributePath) {
        AttributePath::new(self)
    }
}

impl IntoPath for String {
    open spec fn path(&self) -> PathView {
        seq![SegmentView::Key(self@)]
    }

    fn into_path(self) -> (r: AttributePath) {
        AttributePath::new(self)
    }
}

} // verus!
