//! The requests that a table takes.

use crate::condition::expression::{Condition, ConditionView};
use crate::query::condition::{KeyCondition, KeyConditionView};
use crate::query::executor::QueryOptions;
use crate::text::IntoText;
use crate::types::item::{Item, ItemView};
use crate::types::key::{PrimaryKey, PrimaryKeyView};
use crate::types::outcome::ReturnValue;
use crate::update::expression::UpdateExpression;
use vstd::prelude::*;

verus! {

/// The content of an optional condition.
pub open spec fn condition_view(c: Option<Condition>) -> Option<ConditionView> {
    match c {
        Some(c) => Some(c@),
        None => None,
    }
}

/// The content of an optional list of names.
pub open spec fn names_view(p: Option<Vec<String>>) -> Option<Seq<Seq<char>>> {
    match p {
        Some(v) => Some(Seq::new(v@.len(), |i: int| v@[i]@)),
        None => None,
    }
}

fn duplicate_names(p: &Option<Vec<String>>) -> (r: Option<Vec<String>>)
    ensures
        names_view(r) == names_view(*p),
{
    match p {
        None => None,
        Some(v) => {
            let mut out: Vec<String> = Vec::new();
            let mut i: usize = 0;
            while i < v.len()
                invariant
                    i <= v.len(),
                    out@.len() == i,
                    forall|j: int| 0 <= j < i ==> (#[trigger] out@[j])@ == v@[j]@,
                decreases v.len() - i,
            {
                out.push(v[i].clone());
                i += 1;
            }
            proof {
                assert(names_view(Some(out)).unwrap() =~= names_view(*p).unwrap());
            }
            Some(out)
        },
    }
}

fn duplicate_condition(c: &Option<Condition>) -> (r: Option<Condition>)
    ensures
        condition_view(r) == condition_view(*c),
{
    match c {
        Some(c) => Some(c.duplicate()),
        None => None,
    }
}

/// A request to put an item.
#[derive(Debug)]
pub struct PutRequest {
    /// The item to put.
    pub item: Item,
    /// The condition that the item as it is must meet.
    pub condition: Option<Condition>,
    /// What the write hands back.
    pub return_value: ReturnValue,
    /// Put the item only where there is none of its key.
    pub if_not_exists: bool,
}

impl PutRequest {
    /// A request to put `item`, without condition, that hands nothing back.
    pub fn new(item: Item) -> (r: Self)
        ensures
            r.item@ == item@,
            r.condition.is_none(),
            r.return_value == ReturnValue::Nothing,
            !r.if_not_exists,
    {
        PutRequest { item, condition: None, return_value: ReturnValue::Nothing, if_not_exists: false }
    }

    /// The request with a condition.
    pub fn condition(self, condition: Condition) -> (r: Self)
        ensures
            r.item@ == self.item@,
            condition_view(r.condition) == Some(condition@),
            r.return_value == self.return_value,
            r.if_not_exists == self.if_not_exists,
    {
        Self {
            item: self.item,
            condition: Some(condition),
            return_value: self.return_value,
            if_not_exists: self.if_not_exists,
        }
    }

    /// The request with the condition, or without one.
    pub fn condition_if(self, condition: Option<Condition>) -> (r: Self)
        ensures
            r.item@ == self.item@,
            condition_view(r.condition) == condition_view(condition),
            r.return_value == self.return_value,
            r.if_not_exists == self.if_not_exists,
    {
        Self {
            item: self.item,
            condition: condition,
            return_value: self.return_value,
            if_not_exists: self.if_not_exists,
        }
    }

    /// The request that puts the item only where there is none of its key.
    pub fn if_not_exists(self) -> (r: Self)
        ensures
            r.item@ == self.item@,
            condition_view(r.condition) == condition_view(self.condition),
            r.return_value == self.return_value,
            r.if_not_exists,
    {
        Self {
            item: self.item,
            condition: self.condition,
            return_value: self.return_value,
            if_not_exists: true,
        }
    }

    /// The request that hands back the item as it was.
    pub fn return_old(self) -> (r: Self)
        ensures
            r.item@ == self.item@,
            condition_view(r.condition) == condition_view(self.condition),
            r.return_value == ReturnValue::AllOld,
            r.if_not_exists == self.if_not_exists,
    {
        Self {
            item: self.item,
            condition: self.condition,
            return_value: ReturnValue::AllOld,
            if_not_exists: self.if_not_exists,
        }
    }

    /// The request that hands back the item as it is after the write.
    pub fn return_new(self) -> (r: Self)
        ensures
            r.item@ == self.item@,
            condition_view(r.condition) == condition_view(self.condition),
            r.return_value == ReturnValue::AllNew,
            r.if_not_exists == self.if_not_exists,
    {
        Self {
            item: self.item,
            condition: self.condition,
            return_value: ReturnValue::AllNew,
            if_not_exists: self.if_not_exists,
        }
    }

    /// The request that hands back what `rv` says.
    pub fn return_value(self, rv: ReturnValue) -> (r: Self)
        ensures
            r.item@ == self.item@,
            condition_view(r.condition) == condition_view(self.condition),
            r.return_value == rv,
            r.if_not_exists == self.if_not_exists,
    {
        Self {
            item: self.item,
            condition: self.condition,
            return_value: rv,
            if_not_exists: self.if_not_exists,
        }
    }

    /// A copy with the same content.
    pub fn duplicate(&self) -> (r: Self)
        ensures
            r.item@ == self.item@,
            condition_view(r.condition) == condition_view(self.condition),
            r.return_value == self.return_value,
            r.if_not_exists == self.if_not_exists,
    {
        PutRequest {
            item: self.item.duplicate(),
            condition: duplicate_condition(&self.condition),
            return_value: self.return_value,
            if_not_exists: self.if_not_exists,
        }
    }
}

impl Clone for PutRequest {
    fn clone(&self) -> (r: Self)
        ensures
            r.item@ == self.item@,
            condition_view(r.condition) == condition_view(self.condition),
            r.return_value == self.return_value,
            r.if_not_exists == self.if_not_exists,
    {
        self.duplicate()
    }
}

/// A request to update an item.
#[derive(Debug)]
pub struct UpdateRequest {
    /// The key of the item to update.
    pub key: PrimaryKey,
    /// The actions to carry out.
    pub expression: UpdateExpression,
    /// The condition that the item as it is must meet.
    pub condition: Option<Condition>,
    /// What the write hands back.
    pub return_value: ReturnValue,
}

impl UpdateRequest {
    /// A request to update the item of `key`, without condition, that hands back the item as it is after the write.
    pub fn new(key: PrimaryKey, expression: UpdateExpression) -> (r: Self)
        ensures
            r.key@ == key@,
            r.expression@ == expression@,
            r.condition.is_none(),
            r.return_value == ReturnValue::AllNew,
    {
        UpdateRequest { key, expression, condition: None, return_value: ReturnValue::AllNew }
    }

    /// The request with a condition.
    pub fn condition(self, condition: Condition) -> (r: Self)
        ensures
            r.key@ == self.key@,
            r.expression@ == self.expression@,
            condition_view(r.condition) == Some(condition@),
            r.return_value == self.return_value,
    {
        Self {
            key: self.key,
            expression: self.expression,
            condition: Some(condition),
            return_value: self.return_value,
        }
    }

    /// The request with the condition, or without one.
    pub fn condition_if(self, condition: Option<Condition>) -> (r: Self)
        ensures
            r.key@ == self.key@,
            r.expression@ == self.expression@,
            condition_view(r.condition) == condition_view(condition),
            r.return_value == self.return_value,
    {
        Self {
            key: self.key,
            expression: self.expression,
            condition: condition,
            return_value: self.return_value,
        }
    }

    /// The request that hands nothing back.
    pub fn return_none(self) -> (r: Self)
        ensures
            r.key@ == self.key@,
            r.expression@ == self.expression@,
            condition_view(r.condition) == condition_view(self.condition),
            r.return_value == ReturnValue::Nothing,
    {
        Self {
            key: self.key,
            expression: self.expression,
            condition: self.condition,
            return_value: ReturnValue::Nothing,
        }
    }

    /// The request that hands back the item as it was.
    pub fn return_old(self) -> (r: Self)
        ensures
            r.key@ == self.key@,
            r.expression@ == self.expression@,
            condition_view(r.condition) == condition_view(self.condition),
            r.return_value == ReturnValue::AllOld,
    {
        Self {
            key: self.key,
            expression: self.expression,
            condition: self.condition,
            return_value: ReturnValue::AllOld,
        }
    }

    /// The request that hands back the item as it is after the write.
    pub fn return_new(self) -> (r: Self)
        ensures
            r.key@ == self.key@,
            r.expression@ == self.expression@,
            condition_view(r.condition) == condition_view(self.condition),
            r.return_value == ReturnValue::AllNew,
    {
        Self {
            key: self.key,
            expression: self.expression,
            condition: self.condition,
            return_value: ReturnValue::AllNew,
        }
    }

    /// The request that hands back what `rv` says.
    pub fn return_value(self, rv: ReturnValue) -> (r: Self)
        ensures
            r.key@ == self.key@,
            r.expression@ == self.expression@,
            condition_view(r.condition) == condition_view(self.condition),
            r.return_value == rv,
    {
        Self {
            key: self.key,
            expression: self.expression,
            condition: self.condition,
            return_value: rv,
        }
    }

    /// A copy with the same content.
    pub fn duplicate(&self) -> (r: Self)
        ensures
            r.key@ == self.key@,
            r.expression@ == self.expression@,
            condition_view(r.condition) == condition_view(self.condition),
            r.return_value == self.return_value,
    {
        UpdateRequest {
            key: self.key.duplicate(),
            expression: self.expression.duplicate(),
            condition: duplicate_condition(&self.condition),
            return_value: self.return_value,
        }
    }
}

impl Clone for UpdateRequest {
    fn clone(&self) -> (r: Self)
        ensures
            r.key@ == self.key@,
            r.expression@ == self.expression@,
            condition_view(r.condition) == condition_view(self.condition),
            r.return_value == self.return_value,
    {
        self.duplicate()
    }
}

/// A request to delete an item.
#[derive(Debug)]
pub struct DeleteRequest {
    /// The key of the item to delete.
    pub key: PrimaryKey,
    /// The condition that the item as it is must meet.
    pub condition: Option<Condition>,
    /// What the write hands back.
    pub return_value: ReturnValue,
}

impl DeleteRequest {
    /// A request to delete the item of `key`, without condition, that hands nothing back.
    pub fn new(key: PrimaryKey) -> (r: Self)
        ensures
            r.key@ == key@,
            r.condition.is_none(),
            r.return_value == ReturnValue::Nothing,
    {
        DeleteRequest { key, condition: None, return_value: ReturnValue::Nothing }
    }

    /// The request with a condition.
    pub fn condition(self, condition: Condition) -> (r: Self)
        ensures
            r.key@ == self.key@,
            condition_view(r.condition) == Some(condition@),
            r.return_value == self.return_value,
    {
        Self {
            key: self.key,
            condition: Some(condition),
            return_value: self.return_value,
        }
    }

    /// The request with the condition, or without one.
    pub fn condition_if(self, condition: Option<Condition>) -> (r: Self)
        ensures
            r.key@ == self.key@,
            condition_view(r.condition) == condition_view(condition),
            r.return_value == self.return_value,
    {
        Self {
            key: self.key,
            condition: condition,
            return_value: self.return_value,
        }
    }

    /// The request that hands back the item as it was.
    pub fn return_old(self) -> (r: Self)
        ensures
            r.key@ == self.key@,
            condition_view(r.condition) == condition_view(self.condition),
            r.return_value == ReturnValue::AllOld,
    {
        Self {
            key: self.key,
            condition: self.condition,
            return_value: ReturnValue::AllOld,
        }
    }

    /// The request that asks for the item after the write; a delete leaves none.
    pub fn return_new(self) -> (r: Self)
        ensures
            r.key@ == self.key@,
            condition_view(r.condition) == condition_view(self.condition),
            r.return_value == ReturnValue::AllNew,
    {
        Self {
            key: self.key,
            condition: self.condition,
            return_value: ReturnValue::AllNew,
        }
    }

    /// The request that hands back what `rv` says.
    pub fn return_value(self, rv: ReturnValue) -> (r: Self)
        ensures
            r.key@ == self.key@,
            condition_view(r.condition) == condition_view(self.condition),
            r.return_value == rv,
    {
        Self {
            key: self.key,
            condition: self.condition,
            return_value: rv,
        }
    }

    /// A copy with the same content.
    pub fn duplicate(&self) -> (r: Self)
        ensures
            r.key@ == self.key@,
            condition_view(r.condition) == condition_view(self.condition),
            r.return_value == self.return_value,
    {
        DeleteRequest {
            key: self.key.duplicate(),
            condition: duplicate_condition(&self.condition),
            return_value: self.return_value,
        }
    }
}

impl Clone for DeleteRequest {
    fn clone(&self) -> (r: Self)
        ensures
            r.key@ == self.key@,
            condition_view(r.condition) == condition_view(self.condition),
            r.return_value == self.return_value,
    {
        self.duplicate()
    }
}

/// A request to get an item.
#[derive(Debug)]
pub struct GetRequest {
    /// The key of the item to get.
    pub key: PrimaryKey,
    /// The attributes asked for; the table hands back all of them in any case.
    pub projection: Option<Vec<String>>,
}

impl GetRequest {
    /// A request to get the item of `key`.
    pub fn new(key: PrimaryKey) -> (r: Self)
        ensures
            r.key@ == key@,
            r.projection.is_none(),
    {
        GetRequest { key, projection: None }
    }

    /// The request with the names of the attributes asked for.
    pub fn project<T: IntoText>(self, attrs: Vec<T>) -> (r: Self)
        ensures
            r.key@ == self.key@,
            r.projection matches Some(p) && p@.len() == attrs@.len() && forall|i: int|
                0 <= i < p@.len() ==> (#[trigger] p@[i])@ == attrs@[attrs@.len() - 1 - i].text(),
    {
        let mut names: Vec<String> = Vec::new();
        let mut attrs = attrs;
        let ghost all = attrs@;
        while attrs.len() > 0
            invariant
                attrs@.len() + names@.len() == all.len(),
                attrs@ == all.take(attrs@.len() as int),
                forall|i: int|
                    0 <= i < names@.len() ==> (#[trigger] names@[i])@ == all[all.len() - 1 - i].text(),
            decreases attrs.len(),
        {
            let ghost before = attrs@;
            match attrs.pop() {
                Some(a) => {
                    proof {
                        assert(attrs@ =~= all.take(attrs@.len() as int));
                        assert(before.last() == all[before.len() - 1]);
                    }
                    names.push(a.into_text());
                },
                None => {},
            }
        }
        GetRequest { key: self.key, projection: Some(names) }
    }

    /// A copy with the same content.
    pub fn duplicate(&self) -> (r: Self)
        ensures
            r.key@ == self.key@,
            names_view(r.projection) == names_view(self.projection),
    {
        GetRequest {
            key: self.key.duplicate(),
            projection: duplicate_names(&self.projection),
        }
    }
}

impl Clone for GetRequest {
    fn clone(&self) -> (r: Self)
        ensures
            r.key@ == self.key@,
            names_view(r.projection) == names_view(self.projection),
    {
        self.duplicate()
    }
}

/// A request to query a table or an index.
#[derive(Debug)]
pub struct QueryRequest {
    /// Which items of which partition the query selects.
    pub key_condition: KeyCondition,
    /// The condition that the items handed back must meet.
    pub filter: Option<Condition>,
    /// Order and limit.
    pub options: QueryOptions,
}

impl QueryRequest {
    /// A request for the items that meet `key_condition`, in ascending order, without filter or limit.
    pub fn new(key_condition: KeyCondition) -> (r: Self)
        ensures
            r.key_condition@ == key_condition@,
            r.filter.is_none(),
            r.options.limit.is_none(),
            r.options.scan_forward,
    {
        QueryRequest { key_condition, filter: None, options: QueryOptions::new() }
    }

    /// The request with a filter.
    pub fn filter(self, filter: Condition) -> (r: Self)
        ensures
            r.key_condition@ == self.key_condition@,
            condition_view(r.filter) == Some(filter@),
            r.options == self.options,
    {
        Self {
            key_condition: self.key_condition,
            filter: Some(filter),
            options: self.options,
        }
    }

    /// The request with the filter, or without one.
    pub fn filter_if(self, filter: Option<Condition>) -> (r: Self)
        ensures
            r.key_condition@ == self.key_condition@,
            condition_view(r.filter) == condition_view(filter),
            r.options == self.options,
    {
        Self {
            key_condition: self.key_condition,
            filter: filter,
            options: self.options,
        }
    }

    /// The request with a limit.
    pub fn limit(self, limit: usize) -> (r: Self)
        ensures
            r.key_condition@ == self.key_condition@,
            condition_view(r.filter) == condition_view(self.filter),
            r.options.limit == Some(limit) && r.options.scan_forward == self.options.scan_forward,
    {
        Self {
            key_condition: self.key_condition,
            filter: self.filter,
            options: self.options.with_limit(limit),
        }
    }

    /// The request in descending order.
    pub fn reverse(self) -> (r: Self)
        ensures
            r.key_condition@ == self.key_condition@,
            condition_view(r.filter) == condition_view(self.filter),
            r.options.limit == self.options.limit && !r.options.scan_forward,
    {
        Self {
            key_condition: self.key_condition,
            filter: self.filter,
            options: self.options.reverse(),
        }
    }

    /// The request in ascending order.
    pub fn forward(self) -> (r: Self)
        ensures
            r.key_condition@ == self.key_condition@,
            condition_view(r.filter) == condition_view(self.filter),
            r.options.limit == self.options.limit && r.options.scan_forward,
    {
        Self {
            key_condition: self.key_condition,
            filter: self.filter,
            options: self.options.forward(),
        }
    }

    /// The request with the given order and limit.
    pub fn options(self, options: QueryOptions) -> (r: Self)
        ensures
            r.key_condition@ == self.key_condition@,
            condition_view(r.filter) == condition_view(self.filter),
            r.options == options,
    {
        Self {
            key_condition: self.key_condition,
            filter: self.filter,
            options: options,
        }
    }

    /// A copy with the same content.
    pub fn duplicate(&self) -> (r: Self)
        ensures
            r.key_condition@ == self.key_condition@,
            condition_view(r.filter) == condition_view(self.filter),
            r.options == self.options,
    {
        QueryRequest {
            key_condition: self.key_condition.duplicate(),
            filter: duplicate_condition(&self.filter),
            options: self.options,
        }
    }
}

impl Clone for QueryRequest {
    fn clone(&self) -> (r: Self)
        ensures
            r.key_condition@ == self.key_condition@,
            condition_view(r.filter) == condition_view(self.filter),
            r.options == self.options,
    {
        self.duplicate()
    }
}

/// A request to scan a table.
#[derive(Debug)]
pub struct ScanRequest {
    /// The condition that the items handed back must meet.
    pub filter: Option<Condition>,
    /// The largest number of items to hand back.
    pub limit: Option<usize>,
}

impl ScanRequest {
    /// A request for every item.
    pub fn new() -> (r: Self)
        ensures
            r.filter.is_none(),
            r.limit.is_none(),
    {
        ScanRequest { filter: None, limit: None }
    }

    /// The request with a filter.
    pub fn filter(self, filter: Condition) -> (r: Self)
        ensures
            condition_view(r.filter) == Some(filter@),
            r.limit == self.limit,
    {
        Self {
            filter: Some(filter),
            limit: self.limit,
        }
    }

    /// The request with the filter, or without one.
    pub fn filter_if(self, filter: Option<Condition>) -> (r: Self)
        ensures
            condition_view(r.filter) == condition_view(filter),
            r.limit == self.limit,
    {
        Self {
            filter: filter,
            limit: self.limit,
        }
    }

    /// The request with a limit.
    pub fn limit(self, limit: usize) -> (r: Self)
        ensures
            condition_view(r.filter) == condition_view(self.filter),
            r.limit == Some(limit),
    {
        Self {
            filter: self.filter,
            limit: Some(limit),
        }
    }

    /// A copy with the same content.
    pub fn duplicate(&self) -> (r: Self)
        ensures
            condition_view(r.filter) == condition_view(self.filter),
            r.limit == self.limit,
    {
        ScanRequest {
            filter: duplicate_condition(&self.filter),
            limit: self.limit,
        }
    }
}

impl Clone for ScanRequest {
    fn clone(&self) -> (r: Self)
        ensures
            condition_view(r.filter) == condition_view(self.filter),
            r.limit == self.limit,
    {
        self.duplicate()
    }
}

impl Default for ScanRequest {
    fn default() -> (r: Self)
        ensures
            r.filter.is_none(),
            r.limit.is_none(),
    {
        ScanRequest::new()
    }
}

/// What can be turned into a put request: a request, or the item to put.
pub trait IntoPutRequest: Sized {
    /// The item of the request.
    spec fn put_item(&self) -> ItemView;

    /// The condition of the request.
    spec fn put_condition(&self) -> Option<ConditionView>;

    /// What the request asks to be handed back.
    spec fn put_return(&self) -> ReturnValue;

    /// Whether the request puts the item only where there is none of its key.
    spec fn put_if_absent(&self) -> bool;

    fn into_put_request(self) -> (r: PutRequest)
        ensures
            r.item@ == self.put_item(),
            condition_view(r.condition) == self.put_condition(),
            r.return_value == self.put_return(),
            r.if_not_exists == self.put_if_absent(),
    ;
}

impl IntoPutRequest for PutRequest {
    open spec fn put_item(&self) -> ItemView {
        self.item@
    }

    open spec fn put_condition(&self) -> Option<ConditionView> {
        condition_view(self.condition)
    }

    open spec fn put_return(&self) -> ReturnValue {
        self.return_value
    }

    open spec fn put_if_absent(&self) -> bool {
        self.if_not_exists
    }

    fn into_put_request(self) -> (r: PutRequest) {
        self
    }
}

impl IntoPutRequest for Item {
    open spec fn put_item(&self) -> ItemView {
        self@
    }

    open spec fn put_condition(&self) -> Option<ConditionView> {
        None
    }

    open spec fn put_return(&self) -> ReturnValue {
        ReturnValue::Nothing
    }

    open spec fn put_if_absent(&self) -> bool {
        false
    }

    fn into_put_request(self) -> (r: PutRequest) {
        PutRequest::new(self)
    }
}

/// What can be turned into a delete request: a request, or the key to delete.
pub trait IntoDeleteRequest: Sized {
    /// The key of the request.
    spec fn delete_key(&self) -> PrimaryKeyView;

    /// The condition of the request.
    spec fn delete_condition(&self) -> Option<ConditionView>;

    /// What the request asks to be handed back.
    spec fn delete_return(&self) -> ReturnValue;

    fn into_delete_request(self) -> (r: DeleteRequest)
        ensures
            r.key@ == self.delete_key(),
            condition_view(r.condition) == self.delete_condition(),
            r.return_value == self.delete_return(),
    ;
}

impl IntoDeleteRequest for DeleteRequest {
    open spec fn delete_key(&self) -> PrimaryKeyView {
        self.key@
    }

    open spec fn delete_condition(&self) -> Option<ConditionView> {
        condition_view(self.condition)
    }

    open spec fn delete_return(&self) -> ReturnValue {
        self.return_value
    }

    fn into_delete_request(self) -> (r: DeleteRequest) {
        self
    }
}

impl IntoDeleteRequest for PrimaryKey {
    open spec fn delete_key(&self) -> PrimaryKeyView {
        self@
    }

    open spec fn delete_condition(&self) -> Option<ConditionView> {
        None
    }

    open spec fn delete_return(&self) -> ReturnValue {
        ReturnValue::Nothing
    }

    fn into_delete_request(self) -> (r: DeleteRequest) {
        DeleteRequest::new(self)
    }
}

/// What can be turned into a get request: a request, or the key to get.
pub trait IntoGetRequest: Sized {
    /// The key of the request.
    spec fn get_key(&self) -> PrimaryKeyView;

    fn into_get_request(self) -> (r: GetRequest)
        ensures
            r.key@ == self.get_key(),
    ;
}

impl IntoGetRequest for GetRequest {
    open spec fn get_key(&self) -> PrimaryKeyView {
        self.key@
    }

    fn into_get_request(self) -> (r: GetRequest) {
        self
    }
}

impl IntoGetRequest for PrimaryKey {
    open spec fn get_key(&self) -> PrimaryKeyView {
        self@
    }

    fn into_get_request(self) -> (r: GetRequest) {
        GetRequest::new(self)
    }
}

/// What can be turned into a query request: a request, or a key condition.
pub trait IntoQueryRequest: Sized {
    /// The key condition of the request.
    spec fn query_condition(&self) -> KeyConditionView;

    /// The filter of the request.
    spec fn query_filter(&self) -> Option<ConditionView>;

    /// Order and limit of the request.
    spec fn query_options(&self) -> QueryOptions;

    fn into_query_request(self) -> (r: QueryRequest)
        ensures
            r.key_condition@ == self.query_condition(),
            condition_view(r.filter) == self.query_filter(),
            r.options == self.query_options(),
    ;
}

impl IntoQueryRequest for QueryRequest {
    open spec fn query_condition(&self) -> KeyConditionView {
        self.key_condition@
    }

    open spec fn query_filter(&self) -> Option<ConditionView> {
        condition_view(self.filter)
    }

    open spec fn query_options(&self) -> QueryOptions {
        self.options
    }

    fn into_query_request(self) -> (r: QueryRequest) {
        self
    }
}

impl IntoQueryRequest for KeyCondition {
    open spec fn query_condition(&self) -> KeyConditionView {
        self@
    }

    open spec fn query_filter(&self) -> Option<ConditionView> {
        None
    }

    open spec fn query_options(&self) -> QueryOptions {
        QueryOptions { limit: None, scan_forward: true }
    }

    fn into_query_request(self) -> (r: QueryRequest) {
        QueryRequest::new(self)
    }
}

} // verus!
