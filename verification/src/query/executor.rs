//! Running a query: select by key condition, order by sort key, then cut to
//! the limit.

use crate::bytes::{lemma_lex_rank_mirror, Rank};
use crate::compare::{key_rank, key_rank_of};
use crate::error::{TableError, TableErrorView, TableResult};
use crate::number::{decimal_of, flip, is_decimal, number_rank, significant};
use crate::query::condition::{op_value, sort_key_matches, KeyCondition, KeyConditionView};
use crate::text::{compare_text, owned, text_bytes, text_rank};
use crate::types::item::{Item, ItemView, KeyErrorView, KeyValidationError};
use crate::types::key::{
    key_label_of, key_type_label, key_type_of, storage_key_text, KeySchema, KeySchemaView,
    KeyView, PrimaryKey, PrimaryKeyView,
};
use vstd::prelude::*;

verus! {

/// The content of a list of items.
pub open spec fn items_view(items: Seq<Item>) -> Seq<ItemView> {
    Seq::new(items.len(), |i: int| items[i]@)
}

/// The outcome of a query.
#[derive(Debug)]
pub struct QueryResult {
    /// The items found, in the order asked for.
    pub items: Vec<Item>,
    /// The number of items looked at, before any selection.
    pub scanned_count: usize,
    /// The number of items found.
    pub count: usize,
}

impl QueryResult {
    /// A result without items.
    pub fn empty() -> (r: Self)
        ensures
            r.items@.len() == 0,
            r.scanned_count == 0,
            r.count == 0,
    {
        QueryResult { items: Vec::new(), scanned_count: 0, count: 0 }
    }

    /// A copy with the same content.
    pub fn duplicate(&self) -> (r: Self)
        ensures
            items_view(r.items@) == items_view(self.items@),
            r.scanned_count == self.scanned_count,
            r.count == self.count,
    {
        let mut out: Vec<Item> = Vec::new();
        let mut i: usize = 0;
        while i < self.items.len()
            invariant
                i <= self.items.len(),
                out@.len() == i,
                forall|j: int| 0 <= j < i ==> (#[trigger] out@[j])@ == self.items@[j]@,
            decreases self.items.len() - i,
        {
            out.push(self.items[i].duplicate());
            i += 1;
        }
        proof {
            assert(items_view(out@) =~= items_view(self.items@));
        }
        QueryResult { items: out, scanned_count: self.scanned_count, count: self.count }
    }
}

impl Clone for QueryResult {
    fn clone(&self) -> (r: Self)
        ensures
            items_view(r.items@) == items_view(self.items@),
            r.scanned_count == self.scanned_count,
            r.count == self.count,
    {
        self.duplicate()
    }
}

/// How many items a query hands back, and in which order.
#[derive(Debug, Clone, Copy)]
pub struct QueryOptions {
    /// The largest number of items to hand back.
    pub limit: Option<usize>,
    /// Ascending order of the sort key; descending where `false`.
    pub scan_forward: bool,
}

impl QueryOptions {
    /// No limit, ascending order.
    pub fn new() -> (r: Self)
        ensures
            r.limit.is_none(),
            r.scan_forward,
    {
        QueryOptions { limit: None, scan_forward: true }
    }

    /// The options with a limit.
    pub fn with_limit(self, limit: usize) -> (r: Self)
        ensures
            r.limit == Some(limit),
            r.scan_forward == self.scan_forward,
    {
        QueryOptions { limit: Some(limit), scan_forward: self.scan_forward }
    }

    /// The options with ascending order.
    pub fn forward(self) -> (r: Self)
        ensures
            r.limit == self.limit,
            r.scan_forward,
    {
        QueryOptions { limit: self.limit, scan_forward: true }
    }

    /// The options with descending order.
    pub fn reverse(self) -> (r: Self)
        ensures
            r.limit == self.limit,
            !r.scan_forward,
    {
        QueryOptions { limit: self.limit, scan_forward: false }
    }
}

impl Default for QueryOptions {
    fn default() -> (r: Self)
        ensures
            r.limit.is_none(),
            r.scan_forward,
    {
        QueryOptions::new()
    }
}

/// An item with its key, as a query sees it.
pub type Entry = (PrimaryKeyView, ItemView);

/// The content of a list of keyed items.
pub open spec fn entries_of_pairs(items: Seq<(PrimaryKey, Item)>) -> Seq<Entry> {
    Seq::new(items.len(), |i: int| (items[i].0@, items[i].1@))
}

/// Whether a key meets a key condition: it has the partition key, and its sort
/// key, which must be there, meets the sort key condition where there is one.
pub open spec fn entry_selected(key: PrimaryKeyView, cond: KeyConditionView) -> bool {
    key.pk == cond.partition_key && match cond.sort_key {
        None => true,
        Some(op) => match key.sk {
            Some(sk) => sort_key_matches(op, sk),
            None => false,
        },
    }
}

/// The order of query results: by sort key, a key without one first; where the
/// sort keys compare equal, by storage key.
#[verifier::opaque]
pub open spec fn sortable_rank(a: PrimaryKeyView, b: PrimaryKeyView) -> Rank {
    match (a.sk, b.sk) {
        (Some(x), Some(y)) => {
            let r = key_rank(x, y);
            if r == Rank::Equal {
                text_rank(storage_key_text(a), storage_key_text(b))
            } else {
                r
            }
        },
        (Some(_), None) => Rank::Greater,
        (None, Some(_)) => Rank::Less,
        (None, None) => text_rank(storage_key_text(a), storage_key_text(b)),
    }
}

/// The number of leading entries of `s` that are not above `key`: the place
/// where an entry of that key goes, behind every entry that compares equal.
pub open spec fn slot(s: Seq<Entry>, key: PrimaryKeyView) -> int
    decreases s.len(),
{
    if s.len() == 0 || sortable_rank(s[0].0, key) == Rank::Greater {
        0
    } else {
        1 + slot(s.skip(1), key)
    }
}

/// The selected ones among the first `n` items, in ascending order; items that
/// compare equal keep the order in which they came.
pub open spec fn selected_sorted(items: Seq<Entry>, cond: KeyConditionView, n: nat) -> Seq<Entry>
    decreases n,
{
    if n == 0 || n > items.len() {
        Seq::empty()
    } else {
        let prev = selected_sorted(items, cond, (n - 1) as nat);
        let e = items[n - 1];
        if entry_selected(e.0, cond) {
            prev.insert(slot(prev, e.0), e)
        } else {
            prev
        }
    }
}

/// The selected items in the order asked for: ascending, or the exact reverse
/// of it.
pub open spec fn ordered(items: Seq<Entry>, cond: KeyConditionView, forward: bool) -> Seq<Entry> {
    let s = selected_sorted(items, cond, items.len());
    if forward {
        s
    } else {
        s.reverse()
    }
}

/// The first `limit` entries, or all where there are fewer or no limit is set.
pub open spec fn limited<T>(s: Seq<T>, limit: Option<usize>) -> Seq<T> {
    match limit {
        Some(n) => if n < s.len() {
            s.take(n as int)
        } else {
            s
        },
        None => s,
    }
}

/// The entries that a query hands back.
pub open spec fn query_entries(items: Seq<Entry>, cond: KeyConditionView, options: QueryOptions) -> Seq<
    Entry,
> {
    limited(ordered(items, cond, options.scan_forward), options.limit)
}

/// The items that a query hands back.
pub open spec fn query_items(items: Seq<Entry>, cond: KeyConditionView, options: QueryOptions) -> Seq<
    ItemView,
> {
    let e = query_entries(items, cond, options);
    Seq::new(e.len(), |i: int| e[i].1)
}

/// What the check of a key condition against a schema says: the partition key
/// must have the schema's type, and a sort key condition needs a sort key in
/// the schema, of the type of the condition's value.
pub open spec fn condition_checked(schema: KeySchemaView, cond: KeyConditionView) -> Result<
    (),
    TableErrorView,
> {
    if key_type_of(cond.partition_key) != schema.partition_key.key_type {
        Err(
            TableErrorView::InvalidKey(
                KeyErrorView::TypeMismatch {
                    name: schema.partition_key.name,
                    expected: key_type_label(schema.partition_key.key_type),
                    actual: key_label_of(cond.partition_key),
                },
            ),
        )
    } else {
        match cond.sort_key {
            None => Ok(()),
            Some(op) => match schema.sort_key {
                Some(def) => if key_type_of(op_value(op)) != def.key_type {
                    Err(
                        TableErrorView::InvalidKey(
                            KeyErrorView::TypeMismatch {
                                name: def.name,
                                expected: key_type_label(def.key_type),
                                actual: key_label_of(op_value(op)),
                            },
                        ),
                    )
                } else {
                    Ok(())
                },
                None => Err(
                    TableErrorView::InvalidKey(
                        KeyErrorView::MissingAttribute { name: "sort_key"@ },
                    ),
                ),
            },
        }
    }
}

/// Comparing two numbers the other way round mirrors the outcome.
pub proof fn lemma_number_rank_mirror(a: Seq<u8>, b: Seq<u8>)
    ensures
        number_rank(b, a) == flip(number_rank(a, b)),
{
    lemma_lex_rank_mirror(a, b);
    if is_decimal(a) && is_decimal(b) {
        lemma_lex_rank_mirror(significant(decimal_of(a)), significant(decimal_of(b)));
    }
}

/// Comparing two key values the other way round mirrors the outcome.
pub proof fn lemma_key_rank_mirror(a: KeyView, b: KeyView)
    ensures
        key_rank(b, a) == flip(key_rank(a, b)),
{
    match (a, b) {
        (KeyView::S(x), KeyView::S(y)) => {
            lemma_lex_rank_mirror(text_bytes(x), text_bytes(y));
        },
        (KeyView::N(x), KeyView::N(y)) => {
            lemma_number_rank_mirror(text_bytes(x), text_bytes(y));
        },
        (KeyView::B(x), KeyView::B(y)) => {
            lemma_lex_rank_mirror(x, y);
        },
        _ => {
            lemma_lex_rank_mirror(text_bytes(key_label_of(a)), text_bytes(key_label_of(b)));
        },
    }
}

/// Comparing two keys the other way round mirrors the outcome.
pub proof fn lemma_sortable_rank_mirror(a: PrimaryKeyView, b: PrimaryKeyView)
    ensures
        sortable_rank(b, a) == flip(sortable_rank(a, b)),
{
    reveal(sortable_rank);
    lemma_lex_rank_mirror(text_bytes(storage_key_text(a)), text_bytes(storage_key_text(b)));
    match (a.sk, b.sk) {
        (Some(x), Some(y)) => {
            lemma_key_rank_mirror(x, y);
        },
        _ => {},
    }
}

/// The slot lies within the sequence, no entry before it is above the key, and
/// the entry at it is.
pub proof fn lemma_slot_bounds(s: Seq<Entry>, key: PrimaryKeyView)
    ensures
        0 <= slot(s, key) <= s.len(),
        forall|i: int| 0 <= i < slot(s, key) ==> sortable_rank((#[trigger] s[i]).0, key) != Rank::Greater,
        slot(s, key) < s.len() ==> sortable_rank(s[slot(s, key)].0, key) == Rank::Greater,
    decreases s.len(),
{
    if s.len() == 0 || sortable_rank(s[0].0, key) == Rank::Greater {
    } else {
        let t = s.skip(1);
        lemma_slot_bounds(t, key);
        let p = slot(s, key);
        assert forall|i: int| 0 <= i < p implies sortable_rank((#[trigger] s[i]).0, key)
            != Rank::Greater by {
            if i > 0 {
                assert(s[i] == t[i - 1]);
            }
        }
        if p < s.len() {
            assert(s[p] == t[p - 1]);
        }
    }
}

/// No entry is above the one behind it.
pub open spec fn ascending(s: Seq<Entry>) -> bool {
    forall|i: int, j: int|
        0 <= i && j == i + 1 && j < s.len() ==> sortable_rank(
            (#[trigger] s[i]).0,
            (#[trigger] s[j]).0,
        ) != Rank::Greater
}

/// An entry put at its slot keeps an ascending sequence ascending.
pub proof fn lemma_insert_keeps_ascending(prev: Seq<Entry>, e: Entry)
    requires
        ascending(prev),
    ensures
        ascending(prev.insert(slot(prev, e.0), e)),
{
    let p = slot(prev, e.0);
    let t = prev.insert(p, e);
    lemma_slot_bounds(prev, e.0);
    if p < prev.len() {
        lemma_sortable_rank_mirror(prev[p].0, e.0);
    }
    assert forall|i: int, j: int| 0 <= i && j == i + 1 && j < t.len() implies sortable_rank(
        (#[trigger] t[i]).0,
        (#[trigger] t[j]).0,
    ) != Rank::Greater by {
        if j < p {
            assert(t[i] == prev[i] && t[j] == prev[j]);
        } else if j == p {
            assert(t[i] == prev[i] && t[j] == e);
        } else if i == p {
            assert(t[i] == e && t[j] == prev[p]);
        } else {
            assert(t[i] == prev[i - 1] && t[j] == prev[j - 1]);
        }
    }
}

/// The results of a query in forward mode ascend: no item is above the one
/// behind it, by sort key and then by storage key.
pub proof fn lemma_selected_sorted_ascending(items: Seq<Entry>, cond: KeyConditionView, n: nat)
    requires
        n <= items.len(),
    ensures
        ascending(selected_sorted(items, cond, n)),
    decreases n,
{
    if n > 0 {
        lemma_selected_sorted_ascending(items, cond, (n - 1) as nat);
        let prev = selected_sorted(items, cond, (n - 1) as nat);
        let e = items[n - 1];
        if entry_selected(e.0, cond) {
            lemma_insert_keeps_ascending(prev, e);
        }
    }
}

/// The entries among the first `n` that meet the condition, in the order in
/// which they were given.
pub open spec fn selected(items: Seq<Entry>, cond: KeyConditionView, n: nat) -> Seq<Entry>
    decreases n,
{
    if n == 0 || n > items.len() {
        Seq::empty()
    } else {
        let prev = selected(items, cond, (n - 1) as nat);
        if entry_selected(items[n - 1].0, cond) {
            prev.push(items[n - 1])
        } else {
            prev
        }
    }
}

/// Ordering loses and adds nothing: the ordered entries are the entries that
/// meet the condition, each as often as it was given.
pub proof fn lemma_sorted_holds_selected(items: Seq<Entry>, cond: KeyConditionView, n: nat)
    requires
        n <= items.len(),
    ensures
        selected_sorted(items, cond, n).to_multiset() == selected(items, cond, n).to_multiset(),
    decreases n,
{
    if n > 0 {
        lemma_sorted_holds_selected(items, cond, (n - 1) as nat);
        let prev = selected_sorted(items, cond, (n - 1) as nat);
        let e = items[n - 1];
        if entry_selected(e.0, cond) {
            lemma_slot_bounds(prev, e.0);
            vstd::seq_lib::to_multiset_insert(prev, slot(prev, e.0), e);
            vstd::seq_lib::to_multiset_build(selected(items, cond, (n - 1) as nat), e);
        }
    }
}

/// A query without limit finds exactly the entries that meet its condition,
/// each as often as it was given, in forward and in reverse mode; a limit
/// keeps the first of them.
pub proof fn lemma_query_holds_selected(items: Seq<Entry>, cond: KeyConditionView, forward: bool)
    ensures
        ordered(items, cond, forward).to_multiset() == selected(
            items,
            cond,
            items.len(),
        ).to_multiset(),
        forall|limit: Option<usize>|
            (#[trigger] query_entries(items, cond, QueryOptions { limit, scan_forward: forward }))
                .is_prefix_of(ordered(items, cond, forward)),
{
    lemma_sorted_holds_selected(items, cond, items.len());
    selected_sorted(items, cond, items.len()).lemma_reverse_to_multiset();
}

/// Forward mode ascends, and reverse mode is exactly the reverse of forward
/// mode.
pub proof fn lemma_query_order(items: Seq<Entry>, cond: KeyConditionView)
    ensures
        ascending(ordered(items, cond, true)),
        ordered(items, cond, false) == ordered(items, cond, true).reverse(),
{
    lemma_selected_sorted_ascending(items, cond, items.len());
}

/// Compares two keys for the order of query results; the texts are the keys'
/// storage keys.
fn sortable_rank_of(a: &PrimaryKey, a_text: &str, b: &PrimaryKey, b_text: &str) -> (r: Rank)
    requires
        a_text@ == storage_key_text(a@),
        b_text@ == storage_key_text(b@),
    ensures
        r == sortable_rank(a@, b@),
{
    proof {
        reveal(sortable_rank);
    }
    match (&a.sk, &b.sk) {
        (Some(x), Some(y)) => {
            let r = key_rank_of(x, y);
            if r.is_eq() {
                compare_text(a_text, b_text)
            } else {
                r
            }
        },
        (Some(_), None) => Rank::Greater,
        (None, Some(_)) => Rank::Less,
        (None, None) => compare_text(a_text, b_text),
    }
}

/// Compares two keys for the order of query results: by sort key, a key
/// without one first, and by storage key where the sort keys compare equal.
pub fn key_order(a: &PrimaryKey, b: &PrimaryKey) -> (r: Rank)
    ensures
        r == sortable_rank(a@, b@),
{
    let a_text = a.to_storage_key();
    let b_text = b.to_storage_key();
    sortable_rank_of(a, a_text.as_str(), b, b_text.as_str())
}

/// The entries that an order of indices picks from a list of items.
pub open spec fn picked(items: Seq<(PrimaryKey, Item)>, order: Seq<(usize, String)>) -> Seq<Entry> {
    Seq::new(order.len(), |k: int| (items[order[k].0 as int].0@, items[order[k].0 as int].1@))
}

/// Runs queries against the key schema of a table or an index.
pub struct QueryExecutor<'a> {
    /// The schema that the keys follow.
    pub schema: &'a KeySchema,
}

impl<'a> QueryExecutor<'a> {
    /// An executor for `schema`.
    pub fn new(schema: &'a KeySchema) -> (r: Self)
        ensures
            r.schema@ == schema@,
    {
        QueryExecutor { schema }
    }

    /// Selects the items that meet `condition`, orders them by sort key and
    /// then by storage key, items that compare equal in the order in which
    /// they came, reverses the order where asked to, and cuts it to the limit.
    /// Every item given counts as scanned.
    pub fn execute(
        &self,
        items: Vec<(PrimaryKey, Item)>,
        condition: &KeyCondition,
        options: &QueryOptions,
    ) -> (r: TableResult<QueryResult>)
        ensures
            r matches Ok(res) && items_view(res.items@) == query_items(
                entries_of_pairs(items@),
                condition@,
                *options,
            ) && res.scanned_count == items@.len() && res.count == res.items@.len(),
    {
        let ghost all = entries_of_pairs(items@);
        let mut order: Vec<(usize, String)> = Vec::new();
        let mut i: usize = 0;
        proof {
            assert(picked(items@, order@) =~= selected_sorted(all, condition@, 0));
        }
        while i < items.len()
            invariant
                i <= items.len(),
                all == entries_of_pairs(items@),
                picked(items@, order@) == selected_sorted(all, condition@, i as nat),
                forall|k: int|
                    0 <= k < order@.len() ==> (#[trigger] order@[k]).0 < items.len() && order@[k].1@
                        == storage_key_text(items@[order@[k].0 as int].0@),
            decreases items.len() - i,
        {
            let key = &items[i].0;
            proof {
                assert(all[i as int] == (items@[i as int].0@, items@[i as int].1@));
            }
            let mut selected = key.pk.same(&condition.partition_key);
            if selected {
                match &condition.sort_key {
                    None => {},
                    Some(op) => {
                        match &key.sk {
                            Some(sk) => {
                                selected = op.matches(sk);
                            },
                            None => {
                                selected = false;
                            },
                        }
                    },
                }
            }
            if selected {
                let text = key.to_storage_key();
                let ghost prev = picked(items@, order@);
                let mut p: usize = 0;
                let mut found = false;
                proof {
                    assert(prev.skip(0) =~= prev);
                }
                while !found && p < order.len()
                    invariant
                        p <= order.len(),
                        i < items.len(),
                        prev == picked(items@, order@),
                        text@ == storage_key_text(items@[i as int].0@),
                        slot(prev, items@[i as int].0@) == p + slot(
                            prev.skip(p as int),
                            items@[i as int].0@,
                        ),
                        found ==> p < order.len() && sortable_rank(
                            prev[p as int].0,
                            items@[i as int].0@,
                        ) == Rank::Greater,
                        forall|k: int|
                            0 <= k < order@.len() ==> (#[trigger] order@[k]).0 < items.len()
                                && order@[k].1@ == storage_key_text(items@[order@[k].0 as int].0@),
                    decreases order.len() - p + (if found { 0int } else { 1int }),
                {
                    let other = order[p].0;
                    proof {
                        assert(prev.skip(p as int)[0] == prev[p as int]);
                        assert(prev.skip(p as int).skip(1) =~= prev.skip(p + 1));
                        assert(prev[p as int].0 == items@[other as int].0@);
                    }
                    let rank = sortable_rank_of(
                        &items[other].0,
                        order[p].1.as_str(),
                        &items[i].0,
                        text.as_str(),
                    );
                    if rank.is_gt() {
                        found = true;
                    } else {
                        p += 1;
                    }
                }
                proof {
                    if found {
                        assert(prev.skip(p as int)[0] == prev[p as int]);
                    }
                    assert(slot(prev, items@[i as int].0@) == p);
                }
                order.insert(p, (i, text));
                proof {
                    assert(picked(items@, order@) =~= prev.insert(p as int, all[i as int]));
                }
            }
            i += 1;
        }
        let total: usize = order.len();
        let take: usize = match options.limit {
            Some(n) => if n < total {
                n
            } else {
                total
            },
            None => total,
        };
        let ghost sorted = picked(items@, order@);
        let ghost wanted = query_entries(all, condition@, *options);
        proof {
            assert(sorted == selected_sorted(all, condition@, items@.len()));
            assert(wanted.len() == take);
        }
        let mut out: Vec<Item> = Vec::new();
        let mut k: usize = 0;
        while k < take
            invariant
                k <= take <= total,
                total == order@.len(),
                sorted == picked(items@, order@),
                wanted.len() == take,
                forall|j: int|
                    0 <= j < take ==> (#[trigger] wanted[j]) == (if options.scan_forward {
                        sorted[j]
                    } else {
                        sorted[total - 1 - j]
                    }),
                forall|j: int| 0 <= j < order@.len() ==> (#[trigger] order@[j]).0 < items.len(),
                out@.len() == k,
                forall|j: int| 0 <= j < k ==> (#[trigger] out@[j])@ == wanted[j].1,
            decreases take - k,
        {
            let at: usize = if options.scan_forward {
                k
            } else {
                total - 1 - k
            };
            let index = order[at].0;
            proof {
                assert(sorted[at as int].1 == items@[index as int].1@);
            }
            out.push(items[index].1.duplicate());
            k += 1;
        }
        proof {
            assert(items_view(out@) =~= query_items(all, condition@, *options));
        }
        Ok(QueryResult { items: out, scanned_count: items.len(), count: take })
    }

    /// Checks a key condition against the schema.
    pub fn validate_condition(&self, condition: &KeyCondition) -> (r: TableResult<()>)
        ensures
            match r {
                Ok(_) => condition_checked(self.schema@, condition@) is Ok,
                Err(e) => condition_checked(self.schema@, condition@) == Err::<(), _>(e@),
            },
    {
        if !self.schema.partition_key.key_type.matches(&condition.partition_key) {
            return Err(
                TableError::InvalidKey(
                    KeyValidationError::TypeMismatch {
                        name: self.schema.partition_key.name.clone(),
                        expected: self.schema.partition_key.key_type.as_str(),
                        actual: condition.partition_key.type_label(),
                    },
                ),
            );
        }
        match &condition.sort_key {
            None => Ok(()),
            Some(op) => {
                match &self.schema.sort_key {
                    Some(def) => {
                        let value = op.value();
                        if !def.key_type.matches(value) {
                            return Err(
                                TableError::InvalidKey(
                                    KeyValidationError::TypeMismatch {
                                        name: def.name.clone(),
                                        expected: def.key_type.as_str(),
                                        actual: value.type_label(),
                                    },
                                ),
                            );
                        }
                        Ok(())
                    },
                    None => Err(
                        TableError::InvalidKey(
                            KeyValidationError::MissingAttribute { name: owned("sort_key") },
                        ),
                    ),
                }
            },
        }
    }
}

} // verus!
