//! Carrying out updates on an item.

use crate::condition::path::{resolved, AttributePath, PathSegment, PathView, SegmentView};
use crate::error::{TableError, TableErrorView, TableResult};
use crate::sorted::{inserted, lookup, removed, set_difference, set_union, SortedMap};
use crate::text::{owned, text_bytes};
use crate::types::attributes::{
    lemma_map_view, lemma_values_view_inserted, lemma_values_view_lookup,
    lemma_values_view_removed, list_view, values_view, AttrMap, AttrView, AttributeValue,
};
use crate::types::item::{Item, ItemView, KeyErrorView, KeyValidationError};
use crate::update::expression::{ActionView, UpdateAction, UpdateExpression};
use crate::utils::{add_numeric_strings, number_sum};
use vstd::prelude::*;
use vstd::string::StringSliceAdditionalSpecFns;

verus! {

/// The map without entries, as a value.
pub open spec fn empty_map() -> AttrView {
    AttrView::M(Seq::empty())
}

/// The error for a list position beyond the end of the list.
pub open spec fn out_of_bounds() -> TableErrorView {
    TableErrorView::UpdateError("list index out of bounds"@)
}

/// `current` with `value` set at the place that the segments lead to. A name
/// leads into a map, which is created where the place holds none; a position
/// leads into a list, where it may replace an element or stand right behind the
/// last one.
pub open spec fn set_at(current: AttrView, segs: PathView, value: AttrView) -> Result<
    AttrView,
    TableErrorView,
>
    decreases segs.len(),
{
    if segs.len() == 0 {
        Ok(value)
    } else {
        let rest = segs.skip(1);
        match segs[0] {
            SegmentView::Key(k) => {
                let map = match current {
                    AttrView::M(m) => m,
                    _ => Seq::empty(),
                };
                if segs.len() == 1 {
                    Ok(AttrView::M(inserted::<String, AttrView>(map, k, value)))
                } else {
                    let child = match lookup::<String, AttrView>(map, text_bytes(k)) {
                        Some(c) => c,
                        None => empty_map(),
                    };
                    match set_at(child, rest, value) {
                        Ok(u) => Ok(
                            AttrView::M(
                                inserted::<String, AttrView>(
                                    removed::<String, AttrView>(map, text_bytes(k)),
                                    k,
                                    u,
                                ),
                            ),
                        ),
                        Err(e) => Err(e),
                    }
                }
            },
            SegmentView::Index(i) => match current {
                AttrView::L(list) => if segs.len() == 1 {
                    if i < list.len() {
                        Ok(AttrView::L(list.update(i as int, value)))
                    } else if i == list.len() {
                        Ok(AttrView::L(list.push(value)))
                    } else {
                        Err(out_of_bounds())
                    }
                } else if i >= list.len() {
                    Err(out_of_bounds())
                } else {
                    match set_at(list[i as int], rest, value) {
                        Ok(u) => Ok(AttrView::L(list.update(i as int, u))),
                        Err(e) => Err(e),
                    }
                },
                _ => Err(TableErrorView::UpdateError("cannot index into non-list type"@)),
            },
        }
    }
}

/// `current` without the value at the place that the segments lead to; the
/// same where they lead nowhere.
pub open spec fn remove_at(current: AttrView, segs: PathView) -> AttrView
    decreases segs.len(),
{
    if segs.len() == 0 {
        current
    } else {
        let rest = segs.skip(1);
        match (segs[0], current) {
            (SegmentView::Key(k), AttrView::M(map)) => if segs.len() == 1 {
                AttrView::M(removed::<String, AttrView>(map, text_bytes(k)))
            } else {
                match lookup::<String, AttrView>(map, text_bytes(k)) {
                    Some(child) => AttrView::M(
                        inserted::<String, AttrView>(
                            removed::<String, AttrView>(map, text_bytes(k)),
                            k,
                            remove_at(child, rest),
                        ),
                    ),
                    None => current,
                }
            },
            (SegmentView::Index(i), AttrView::L(list)) => if i < list.len() {
                if segs.len() == 1 {
                    AttrView::L(list.remove(i as int))
                } else {
                    AttrView::L(list.update(i as int, remove_at(list[i as int], rest)))
                }
            } else {
                current
            },
            _ => current,
        }
    }
}

/// The entries of a map value.
pub open spec fn entries_of(v: AttrView) -> ItemView {
    match v {
        AttrView::M(m) => m,
        _ => Seq::empty(),
    }
}

/// The item with `value` set at `path`. The path must start with a name.
pub open spec fn set_in_item(item: ItemView, path: PathView, value: AttrView) -> Result<
    ItemView,
    TableErrorView,
> {
    if path.len() == 0 {
        Err(TableErrorView::InvalidKey(KeyErrorView::MissingAttribute { name: "path"@ }))
    } else if path[0] is Index {
        Err(TableErrorView::UpdateError("path must start with attribute name"@))
    } else {
        match set_at(AttrView::M(item), path, value) {
            Ok(v) => Ok(entries_of(v)),
            Err(e) => Err(e),
        }
    }
}

/// The item without the value at `path`; the same where the path names
/// nothing.
pub open spec fn remove_in_item(item: ItemView, path: PathView) -> ItemView {
    if path.len() == 0 || path[0] is Index {
        item
    } else {
        entries_of(remove_at(AttrView::M(item), path))
    }
}

/// The error of an `Add` on a value that is no number or set of the operand's
/// type.
pub open spec fn add_mismatch() -> TableErrorView {
    TableErrorView::UpdateError("ADD requires number or set types with matching operand"@)
}

/// The error of a `Delete` on a value that is no set of the operand's type.
pub open spec fn delete_mismatch() -> TableErrorView {
    TableErrorView::UpdateError("DELETE requires set types with matching operand"@)
}

/// The value that an `Add` stores: the sum of two numbers, the union of two
/// sets of one type, or the operand where the path names nothing.
pub open spec fn add_result(current: Option<AttrView>, value: AttrView) -> Result<
    AttrView,
    TableErrorView,
> {
    match (current, value) {
        (Some(AttrView::N(n)), AttrView::N(delta)) => match number_sum(n, delta) {
            Ok(t) => Ok(AttrView::N(t)),
            Err(e) => Err(e),
        },
        (None, AttrView::N(_)) => Ok(value),
        (Some(AttrView::Ss(set)), AttrView::Ss(more)) => Ok(
            AttrView::Ss(set_union::<String>(set, more, 0)),
        ),
        (None, AttrView::Ss(_)) => Ok(value),
        (Some(AttrView::Ns(set)), AttrView::Ns(more)) => Ok(
            AttrView::Ns(set_union::<String>(set, more, 0)),
        ),
        (None, AttrView::Ns(_)) => Ok(value),
        (Some(AttrView::Bs(set)), AttrView::Bs(more)) => Ok(
            AttrView::Bs(set_union::<Vec<u8>>(set, more, 0)),
        ),
        (None, AttrView::Bs(_)) => Ok(value),
        _ => Err(add_mismatch()),
    }
}

/// The item after an `Add`.
pub open spec fn add_in_item(item: ItemView, path: PathView, value: AttrView) -> Result<
    ItemView,
    TableErrorView,
> {
    match add_result(resolved(path, item), value) {
        Ok(v) => set_in_item(item, path, v),
        Err(e) => Err(e),
    }
}

/// The value that a `Delete` stores: the set without the operand's elements.
/// `None` where the path names nothing, so that nothing is stored.
pub open spec fn delete_result(current: Option<AttrView>, value: AttrView) -> Result<
    Option<AttrView>,
    TableErrorView,
> {
    match (current, value) {
        (Some(AttrView::Ss(set)), AttrView::Ss(less)) => Ok(
            Some(AttrView::Ss(set_difference::<String>(set, less, 0))),
        ),
        (Some(AttrView::Ns(set)), AttrView::Ns(less)) => Ok(
            Some(AttrView::Ns(set_difference::<String>(set, less, 0))),
        ),
        (Some(AttrView::Bs(set)), AttrView::Bs(less)) => Ok(
            Some(AttrView::Bs(set_difference::<Vec<u8>>(set, less, 0))),
        ),
        (None, _) => Ok(None),
        _ => Err(delete_mismatch()),
    }
}

/// The item after a `Delete`.
pub open spec fn delete_in_item(item: ItemView, path: PathView, value: AttrView) -> Result<
    ItemView,
    TableErrorView,
> {
    match delete_result(resolved(path, item), value) {
        Ok(Some(v)) => set_in_item(item, path, v),
        Ok(None) => Ok(item),
        Err(e) => Err(e),
    }
}

/// The item after one action.
pub open spec fn applied(item: ItemView, action: ActionView) -> Result<ItemView, TableErrorView> {
    match action {
        ActionView::Assign { path, value } => set_in_item(item, path, value),
        ActionView::SetIfNotExists { path, value } => if resolved(path, item).is_none() {
            set_in_item(item, path, value)
        } else {
            Ok(item)
        },
        ActionView::Remove { path } => Ok(remove_in_item(item, path)),
        ActionView::Add { path, value } => add_in_item(item, path, value),
        ActionView::Delete { path, value } => delete_in_item(item, path, value),
    }
}

/// The item after the actions from index `i` on, each applied to the outcome
/// of the one before; the first error ends the update.
pub open spec fn executed(item: ItemView, actions: Seq<ActionView>, i: nat) -> Result<
    ItemView,
    TableErrorView,
>
    decreases actions.len() - i,
{
    if i >= actions.len() {
        Ok(item)
    } else {
        match applied(item, actions[i as int]) {
            Ok(next) => executed(next, actions, i + 1),
            Err(e) => Err(e),
        }
    }
}

/// Sets `value` at the place that the segments from `from` on lead to.
fn set_at_path(current: AttributeValue, path: &AttributePath, from: usize, value: AttributeValue) -> (r:
    TableResult<AttributeValue>)
    requires
        from <= path@.len(),
    ensures
        match r {
            Ok(v) => set_at(current@, path@.skip(from as int), value@) == Ok::<_, TableErrorView>(
                v@,
            ),
            Err(e) => set_at(current@, path@.skip(from as int), value@) == Err::<AttrView, _>(e@),
        },
    decreases path@.len() - from,
{
    if from >= path.segments.len() {
        return Ok(value);
    }
    let ghost segs = path@.skip(from as int);
    proof {
        assert(segs[0] == path.segments@[from as int]@);
        assert(segs.skip(1) =~= path@.skip(from + 1));
    }
    let last = from + 1 == path.segments.len();
    match &path.segments[from] {
        PathSegment::Key(k) => {
            let mut map: AttrMap = match current {
                AttributeValue::M(m) => {
                    proof {
                        lemma_map_view(m);
                    }
                    m
                },
                _ => {
                    let m: AttrMap = SortedMap::new();
                    proof {
                        assert(values_view(m@) =~= Seq::empty());
                    }
                    m
                },
            };
            let ghost before = map@;
            if last {
                proof {
                    lemma_values_view_inserted(map@, k@, value);
                }
                map.insert(k.clone(), value);
                proof {
                    lemma_map_view(map);
                }
                Ok(AttributeValue::M(map))
            } else {
                proof {
                    lemma_values_view_lookup(map@, text_bytes(k@));
                    lemma_values_view_removed(map@, text_bytes(k@));
                }
                let child = match map.remove(k.as_str().as_bytes()) {
                    Some(c) => c,
                    None => {
                        let m: AttrMap = SortedMap::new();
                        proof {
                            assert(values_view(m@) =~= Seq::empty());
                            lemma_map_view(m);
                        }
                        AttributeValue::M(m)
                    },
                };
                match set_at_path(child, path, from + 1, value) {
                    Ok(u) => {
                        proof {
                            lemma_values_view_inserted(map@, k@, u);
                        }
                        map.insert(k.clone(), u);
                        proof {
                            lemma_map_view(map);
                        }
                        Ok(AttributeValue::M(map))
                    },
                    Err(e) => Err(e),
                }
            }
        },
        PathSegment::Index(idx) => {
            match current {
                AttributeValue::L(l) => {
                    let mut list = l;
                    let ghost before = list@;
                    if last {
                        if *idx < list.len() {
                            list.set(*idx, value);
                            proof {
                                assert(list_view(list@) =~= list_view(before).update(
                                    *idx as int,
                                    value@,
                                ));
                            }
                            Ok(AttributeValue::L(list))
                        } else if *idx == list.len() {
                            list.push(value);
                            proof {
                                assert(list_view(list@) =~= list_view(before).push(value@));
                            }
                            Ok(AttributeValue::L(list))
                        } else {
                            Err(TableError::update_error("list index out of bounds"))
                        }
                    } else {
                        if *idx >= list.len() {
                            return Err(TableError::update_error("list index out of bounds"));
                        }
                        let child = list.remove(*idx);
                        proof {
                            assert(list_view(before)[*idx as int] == child@);
                        }
                        match set_at_path(child, path, from + 1, value) {
                            Ok(u) => {
                                list.insert(*idx, u);
                                proof {
                                    assert(list_view(list@) =~= list_view(before).update(
                                        *idx as int,
                                        u@,
                                    ));
                                }
                                Ok(AttributeValue::L(list))
                            },
                            Err(e) => Err(e),
                        }
                    }
                },
                _ => Err(TableError::update_error("cannot index into non-list type")),
            }
        },
    }
}

/// Removes the value at the place that the segments from `from` on lead to.
fn remove_at_path(current: AttributeValue, path: &AttributePath, from: usize) -> (r: AttributeValue)
    requires
        from <= path@.len(),
    ensures
        r@ == remove_at(current@, path@.skip(from as int)),
    decreases path@.len() - from,
{
    if from >= path.segments.len() {
        return current;
    }
    let ghost segs = path@.skip(from as int);
    proof {
        assert(segs[0] == path.segments@[from as int]@);
        assert(segs.skip(1) =~= path@.skip(from + 1));
    }
    let last = from + 1 == path.segments.len();
    match (&path.segments[from], current) {
        (PathSegment::Key(k), AttributeValue::M(m)) => {
            let mut map = m;
            let ghost before = map@;
            proof {
                lemma_map_view(map);
                lemma_values_view_lookup(map@, text_bytes(k@));
                lemma_values_view_removed(map@, text_bytes(k@));
            }
            match map.remove(k.as_str().as_bytes()) {
                Some(child) => {
                    if !last {
                        let updated = remove_at_path(child, path, from + 1);
                        proof {
                            lemma_values_view_inserted(map@, k@, updated);
                        }
                        map.insert(k.clone(), updated);
                    }
                },
                None => {},
            }
            proof {
                lemma_map_view(map);
            }
            AttributeValue::M(map)
        },
        (PathSegment::Index(idx), AttributeValue::L(l)) => {
            let mut list = l;
            let ghost before = list@;
            if *idx < list.len() {
                let child = list.remove(*idx);
                proof {
                    assert(list_view(before)[*idx as int] == child@);
                    assert(list_view(list@) =~= list_view(before).remove(*idx as int));
                }
                if !last {
                    let updated = remove_at_path(child, path, from + 1);
                    list.insert(*idx, updated);
                    proof {
                        assert(list_view(list@) =~= list_view(before).update(
                            *idx as int,
                            updated@,
                        ));
                    }
                }
            }
            AttributeValue::L(list)
        },
        (_, other) => other,
    }
}

/// Carries out updates.
pub struct UpdateExecutor;

impl UpdateExecutor {
    /// An executor.
    pub fn new() -> (r: Self) {
        UpdateExecutor
    }

    /// The item after the actions of `expression`, carried out from first to
    /// last; each action works on the outcome of the one before. The first
    /// action that fails ends the update.
    pub fn execute(&self, item: Item, expression: &UpdateExpression) -> (r: TableResult<Item>)
        ensures
            match r {
                Ok(out) => executed(item@, expression@, 0) == Ok::<_, TableErrorView>(out@),
                Err(e) => executed(item@, expression@, 0) == Err::<ItemView, _>(e@),
            },
    {
        let mut current = item;
        let mut i: usize = 0;
        while i < expression.actions.len()
            invariant
                i <= expression.actions.len(),
                executed(item@, expression@, 0) == executed(current@, expression@, i as nat),
            decreases expression.actions.len() - i,
        {
            proof {
                assert(expression@[i as int] == expression.actions@[i as int]@);
            }
            current = match self.apply_action(current, &expression.actions[i]) {
                Ok(next) => next,
                Err(e) => {
                    return Err(e);
                },
            };
            i += 1;
        }
        Ok(current)
    }

    /// The item after one action.
    pub fn apply_action(&self, item: Item, action: &UpdateAction) -> (r: TableResult<Item>)
        ensures
            match r {
                Ok(out) => applied(item@, action@) == Ok::<_, TableErrorView>(out@),
                Err(e) => applied(item@, action@) == Err::<ItemView, _>(e@),
            },
    {
        match action {
            UpdateAction::Assign { path, value } => self.set_path(item, path, value.duplicate()),
            UpdateAction::SetIfNotExists { path, value } => {
                if path.resolve(&item).is_none() {
                    self.set_path(item, path, value.duplicate())
                } else {
                    Ok(item)
                }
            },
            UpdateAction::Remove { path } => Ok(self.remove_path(item, path)),
            UpdateAction::Add { path, value } => self.add_to_path(item, path, value),
            UpdateAction::Delete { path, value } => self.delete_from_path(item, path, value),
        }
    }

    /// The item with `value` set at `path`.
    pub fn set_path(&self, item: Item, path: &AttributePath, value: AttributeValue) -> (r: TableResult<
        Item,
    >)
        ensures
            match r {
                Ok(out) => set_in_item(item@, path@, value@) == Ok::<_, TableErrorView>(out@),
                Err(e) => set_in_item(item@, path@, value@) == Err::<ItemView, _>(e@),
            },
    {
        if path.segments.len() == 0 {
            return Err(
                TableError::InvalidKey(KeyValidationError::MissingAttribute { name: owned("path") }),
            );
        }
        match &path.segments[0] {
            PathSegment::Index(_) => {
                return Err(TableError::update_error("path must start with attribute name"));
            },
            PathSegment::Key(_) => {},
        }
        proof {
            assert(path@[0] == path.segments@[0]@);
            assert(path@.skip(0) =~= path@);
            lemma_map_view(item.attributes);
        }
        match set_at_path(AttributeValue::M(item.attributes), path, 0, value) {
            Ok(AttributeValue::M(m)) => {
                proof {
                    lemma_map_view(m);
                }
                Ok(Item { attributes: m })
            },
            Ok(_) => {
                proof {
                    assert(false);
                }
                Ok(Item::new())
            },
            Err(e) => Err(e),
        }
    }

    /// The item without the value at `path`.
    pub fn remove_path(&self, item: Item, path: &AttributePath) -> (r: Item)
        ensures
            r@ == remove_in_item(item@, path@),
    {
        if path.segments.len() == 0 {
            return item;
        }
        match &path.segments[0] {
            PathSegment::Index(_) => {
                return item;
            },
            PathSegment::Key(_) => {},
        }
        proof {
            assert(path@[0] == path.segments@[0]@);
            assert(path@.skip(0) =~= path@);
            lemma_map_view(item.attributes);
        }
        match remove_at_path(AttributeValue::M(item.attributes), path, 0) {
            AttributeValue::M(m) => {
                proof {
                    lemma_map_view(m);
                }
                Item { attributes: m }
            },
            _ => {
                proof {
                    assert(false);
                }
                Item::new()
            },
        }
    }

    /// The item after adding `value` to the number or set at `path`.
    pub fn add_to_path(&self, item: Item, path: &AttributePath, value: &AttributeValue) -> (r:
        TableResult<Item>)
        ensures
            match r {
                Ok(out) => add_in_item(item@, path@, value@) == Ok::<_, TableErrorView>(out@),
                Err(e) => add_in_item(item@, path@, value@) == Err::<ItemView, _>(e@),
            },
    {
        let new_value = match (path.resolve(&item), value) {
            (Some(AttributeValue::N(n)), AttributeValue::N(delta)) => {
                match add_numeric_strings(n.as_str(), delta.as_str()) {
                    Ok(t) => AttributeValue::N(t),
                    Err(e) => {
                        return Err(e);
                    },
                }
            },
            (None, AttributeValue::N(_)) => value.duplicate(),
            (Some(AttributeValue::Ss(set)), AttributeValue::Ss(more)) => {
                let mut out = set.duplicate();
                out.extend_from(more);
                AttributeValue::Ss(out)
            },
            (None, AttributeValue::Ss(_)) => value.duplicate(),
            (Some(AttributeValue::Ns(set)), AttributeValue::Ns(more)) => {
                let mut out = set.duplicate();
                out.extend_from(more);
                AttributeValue::Ns(out)
            },
            (None, AttributeValue::Ns(_)) => value.duplicate(),
            (Some(AttributeValue::Bs(set)), AttributeValue::Bs(more)) => {
                let mut out = set.duplicate();
                out.extend_from(more);
                AttributeValue::Bs(out)
            },
            (None, AttributeValue::Bs(_)) => value.duplicate(),
            _ => {
                return Err(
                    TableError::update_error(
                        "ADD requires number or set types with matching operand",
                    ),
                );
            },
        };
        self.set_path(item, path, new_value)
    }

    /// The item after taking the elements of `value` out of the set at `path`.
    pub fn delete_from_path(&self, item: Item, path: &AttributePath, value: &AttributeValue) -> (r:
        TableResult<Item>)
        ensures
            match r {
                Ok(out) => delete_in_item(item@, path@, value@) == Ok::<_, TableErrorView>(out@),
                Err(e) => delete_in_item(item@, path@, value@) == Err::<ItemView, _>(e@),
            },
    {
        let new_value = match (path.resolve(&item), value) {
            (Some(AttributeValue::Ss(set)), AttributeValue::Ss(less)) => {
                let mut out = set.duplicate();
                out.remove_all(less);
                AttributeValue::Ss(out)
            },
            (Some(AttributeValue::Ns(set)), AttributeValue::Ns(less)) => {
                let mut out = set.duplicate();
                out.remove_all(less);
                AttributeValue::Ns(out)
            },
            (Some(AttributeValue::Bs(set)), AttributeValue::Bs(less)) => {
                let mut out = set.duplicate();
                out.remove_all(less);
                AttributeValue::Bs(out)
            },
            (None, _) => {
                return Ok(item);
            },
            _ => {
                return Err(
                    TableError::update_error("DELETE requires set types with matching operand"),
                );
            },
        };
        self.set_path(item, path, new_value)
    }
}

impl Default for UpdateExecutor {
    fn default() -> (r: Self) {
        UpdateExecutor::new()
    }
}

} // verus!
