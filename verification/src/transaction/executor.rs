//! Carrying out transactions. A write transaction is checked as a whole
//! against the table as it is; only where every operation passes is anything
//! written.

use crate::condition::eval::{evaluate, evaluated};
use crate::condition::expression::{Condition, ConditionView};
use crate::error::{
    key_error_message, key_error_text, CancelReasonView, TableError, TableErrorView, TableResult,
    TransactionCancelReason,
};
use crate::number::{format_uint, int_text};
use crate::sorted::{set_has, set_inserted, SortedSet};
use crate::storage::memory::Stored;
use crate::table::engine::{
    after_delete, after_put, checked_item, encode_item, encoded_item, item_at, item_view, Table,
    TableView,
};
use crate::table::request::condition_view;
use crate::text::{owned, text_bytes};
use crate::transaction::request::{operations_view, read_keys, IntoTransactGet, IntoTransactWrite};
use crate::transaction::types::{
    optional_items_view, read_key, TransactGetItem, TransactGetResult, TransactItemView,
    TransactWriteItem,
};
use crate::types::item::{extracted_key, validated, Item, ItemView};
use crate::types::key::{storage_key_text, KeySchema, KeySchemaView, PrimaryKey, PrimaryKeyView};
use crate::update::executor::{executed, UpdateExecutor};
use vstd::prelude::*;
use vstd::string::{StringExecFns, StringSliceAdditionalSpecFns};

verus! {

/// Why a write transaction did not pass its checks; `index` is the place of the
/// offending operation in the request.
#[derive(Debug)]
pub enum TransactionFailureReason {
    /// A condition did not hold.
    ConditionCheckFailed { index: usize },
    /// The item to update does not exist.
    ItemNotFound { index: usize },
    /// An update would change or remove a key attribute.
    KeyModification { index: usize },
    /// An earlier operation of the transaction has the same key.
    DuplicateItem { index: usize },
    /// The operation is not valid.
    InvalidKey { index: usize, message: String },
}

/// The content of a failure reason.
pub ghost enum FailView {
    ConditionCheckFailed { index: usize },
    ItemNotFound { index: usize },
    KeyModification { index: usize },
    DuplicateItem { index: usize },
    InvalidKey { index: usize, message: Seq<char> },
}

/// The place of the offending operation.
pub open spec fn failure_index(f: FailView) -> usize {
    match f {
        FailView::ConditionCheckFailed { index } => index,
        FailView::ItemNotFound { index } => index,
        FailView::KeyModification { index } => index,
        FailView::DuplicateItem { index } => index,
        FailView::InvalidKey { index, .. } => index,
    }
}

/// The text of a failure reason.
pub open spec fn failure_text(f: FailView) -> Seq<char> {
    match f {
        FailView::ConditionCheckFailed { index } => "condition check failed at index "@
            + int_text(index as int),
        FailView::ItemNotFound { index } => "item not found at index "@ + int_text(index as int),
        FailView::KeyModification { index } => "cannot modify key attributes at index "@
            + int_text(index as int),
        FailView::DuplicateItem { index } => "duplicate item at index "@ + int_text(
            index as int,
        ),
        FailView::InvalidKey { index, message } => "invalid key at index "@ + int_text(
            index as int,
        ) + ": "@ + message,
    }
}

/// The reason that a cancelled transaction reports for a failure.
pub open spec fn cancel_reason(f: FailView) -> CancelReasonView {
    match f {
        FailView::ConditionCheckFailed { index } => CancelReasonView::ConditionCheckFailed {
            index,
        },
        FailView::ItemNotFound { index } => CancelReasonView::ItemNotFound { index },
        FailView::KeyModification { index } => CancelReasonView::ValidationError {
            index,
            message: "cannot modify key attributes"@,
        },
        FailView::DuplicateItem { index } => CancelReasonView::DuplicateItem { index },
        FailView::InvalidKey { index, message } => CancelReasonView::ValidationError {
            index,
            message,
        },
    }
}

impl View for TransactionFailureReason {
    type V = FailView;

    open spec fn view(&self) -> FailView {
        match self {
            TransactionFailureReason::ConditionCheckFailed { index } => FailView::ConditionCheckFailed {
                index: *index,
            },
            TransactionFailureReason::ItemNotFound { index } => FailView::ItemNotFound {
                index: *index,
            },
            TransactionFailureReason::KeyModification { index } => FailView::KeyModification {
                index: *index,
            },
            TransactionFailureReason::DuplicateItem { index } => FailView::DuplicateItem {
                index: *index,
            },
            TransactionFailureReason::InvalidKey { index, message } => FailView::InvalidKey {
                index: *index,
                message: message@,
            },
        }
    }
}

impl TransactionFailureReason {
    /// The place of the offending operation in the request.
    pub fn index(&self) -> (r: usize)
        ensures
            r == failure_index(self@),
    {
        match self {
            TransactionFailureReason::ConditionCheckFailed { index } => *index,
            TransactionFailureReason::ItemNotFound { index } => *index,
            TransactionFailureReason::KeyModification { index } => *index,
            TransactionFailureReason::DuplicateItem { index } => *index,
            TransactionFailureReason::InvalidKey { index, .. } => *index,
        }
    }

    /// The text of the reason.
    pub fn message(&self) -> (r: String)
        ensures
            r@ == failure_text(self@),
    {
        match self {
            TransactionFailureReason::ConditionCheckFailed { index } => {
                let mut out = owned("condition check failed at index ");
                out.append(format_uint(*index as u128).as_str());
                out
            },
            TransactionFailureReason::ItemNotFound { index } => {
                let mut out = owned("item not found at index ");
                out.append(format_uint(*index as u128).as_str());
                out
            },
            TransactionFailureReason::KeyModification { index } => {
                let mut out = owned("cannot modify key attributes at index ");
                out.append(format_uint(*index as u128).as_str());
                out
            },
            TransactionFailureReason::DuplicateItem { index } => {
                let mut out = owned("duplicate item at index ");
                out.append(format_uint(*index as u128).as_str());
                out
            },
            TransactionFailureReason::InvalidKey { index, message } => {
                let mut out = owned("invalid key at index ");
                out.append(format_uint(*index as u128).as_str());
                out.append(": ");
                out.append(message.as_str());
                out
            },
        }
    }

    /// The reason that a cancelled transaction reports for this failure.
    pub fn into_cancel_reason(self) -> (r: TransactionCancelReason)
        ensures
            r@ == cancel_reason(self@),
    {
        match self {
            TransactionFailureReason::ConditionCheckFailed { index } => TransactionCancelReason::ConditionCheckFailed {
                index,
            },
            TransactionFailureReason::ItemNotFound { index } => TransactionCancelReason::ItemNotFound {
                index,
            },
            TransactionFailureReason::KeyModification { index } => TransactionCancelReason::ValidationError {
                index,
                message: owned("cannot modify key attributes"),
            },
            TransactionFailureReason::DuplicateItem { index } => TransactionCancelReason::DuplicateItem {
                index,
            },
            TransactionFailureReason::InvalidKey { index, message } => TransactionCancelReason::ValidationError {
                index,
                message,
            },
        }
    }

    /// Whether two reasons have the same content.
    pub fn same(&self, other: &Self) -> (r: bool)
        ensures
            r == (self@ == other@),
    {
        match (self, other) {
            (
                TransactionFailureReason::ConditionCheckFailed { index: a },
                TransactionFailureReason::ConditionCheckFailed { index: b },
            ) => *a == *b,
            (
                TransactionFailureReason::ItemNotFound { index: a },
                TransactionFailureReason::ItemNotFound { index: b },
            ) => *a == *b,
            (
                TransactionFailureReason::KeyModification { index: a },
                TransactionFailureReason::KeyModification { index: b },
            ) => *a == *b,
            (
                TransactionFailureReason::DuplicateItem { index: a },
                TransactionFailureReason::DuplicateItem { index: b },
            ) => *a == *b,
            (
                TransactionFailureReason::InvalidKey { index: a, message: ma },
                TransactionFailureReason::InvalidKey { index: b, message: mb },
            ) => *a == *b && *ma == *mb,
            _ => false,
        }
    }
}

impl PartialEq for TransactionFailureReason {
    fn eq(&self, other: &Self) -> (r: bool) {
        self.same(other)
    }
}

impl vstd::std_specs::cmp::PartialEqSpecImpl for TransactionFailureReason {
    open spec fn obeys_eq_spec() -> bool {
        true
    }

    open spec fn eq_spec(&self, other: &Self) -> bool {
        self@ == other@
    }
}

/// The key that an operation is about. A put must hold the key attributes.
pub open spec fn target_key(item: TransactItemView, schema: KeySchemaView, index: usize) -> Result<
    PrimaryKeyView,
    FailView,
> {
    match item {
        TransactItemView::Put { item, .. } => match extracted_key(item, schema) {
            Some(k) => Ok(k),
            None => Err(FailView::InvalidKey { index, message: "missing key attributes"@ }),
        },
        TransactItemView::Update { key, .. } => Ok(key),
        TransactItemView::Delete { key, .. } => Ok(key),
        TransactItemView::ConditionCheck { key, .. } => Ok(key),
    }
}

/// What an operation that has passed its checks will write.
pub ghost enum PlannedView {
    /// Store the item under the key.
    Store { key: PrimaryKeyView, bytes: Seq<u8>, item: ItemView },
    /// Remove the item of the key.
    Remove { key: PrimaryKeyView, existed: bool },
    /// Write nothing.
    Nothing,
}

/// Whether a condition holds of the item as it is; a condition that cannot be
/// evaluated does not hold.
pub open spec fn holds(cond: Option<ConditionView>, current: Option<ItemView>) -> bool {
    match cond {
        None => true,
        Some(c) => evaluated(c, checked_item(current)) == Ok::<bool, crate::error::EvalErrorView>(
            true,
        ),
    }
}

/// The error of an item that cannot be encoded.
pub open spec fn not_encodable(index: usize) -> FailView {
    FailView::InvalidKey { index, message: "item cannot be encoded"@ }
}

/// The checks of a put.
pub open spec fn checked_put(
    schema: KeySchemaView,
    item: ItemView,
    condition: Option<ConditionView>,
    current: Option<ItemView>,
    key: PrimaryKeyView,
    index: usize,
) -> Result<PlannedView, FailView> {
    match validated(item, schema) {
        Err(e) => Err(FailView::InvalidKey { index, message: key_error_text(e) }),
        Ok(_) => if !holds(condition, current) {
            Err(FailView::ConditionCheckFailed { index })
        } else {
            match encoded_item(item) {
                Err(_) => Err(not_encodable(index)),
                Ok(bytes) => Ok(PlannedView::Store { key, bytes, item }),
            }
        },
    }
}

/// The checks of an update.
pub open spec fn checked_update(
    schema: KeySchemaView,
    expression: Seq<crate::update::expression::ActionView>,
    condition: Option<ConditionView>,
    current: Option<ItemView>,
    key: PrimaryKeyView,
    index: usize,
) -> Result<PlannedView, FailView> {
    match current {
        None => Err(FailView::ItemNotFound { index }),
        Some(existing) => if !holds(condition, Some(existing)) {
            Err(FailView::ConditionCheckFailed { index })
        } else {
            match executed(existing, expression, 0) {
                Err(_) => Err(
                    FailView::InvalidKey { index, message: "update execution failed"@ },
                ),
                Ok(updated) => match extracted_key(updated, schema) {
                    None => Err(FailView::KeyModification { index }),
                    Some(nk) => if nk != key {
                        Err(FailView::KeyModification { index })
                    } else {
                        match encoded_item(updated) {
                            Err(_) => Err(not_encodable(index)),
                            Ok(bytes) => Ok(PlannedView::Store { key, bytes, item: updated }),
                        }
                    },
                },
            }
        },
    }
}

/// The checks of one operation against the table as it is: the current item
/// of the key is read, then the operation is checked according to its kind.
pub open spec fn checked_operation(
    stored: Stored,
    schema: KeySchemaView,
    item: TransactItemView,
    key: PrimaryKeyView,
    index: usize,
) -> Result<PlannedView, FailView> {
    match item_at(stored, storage_key_text(key)) {
        Err(_) => Err(FailView::InvalidKey { index, message: "failed to read item"@ }),
        Ok(current) => match item {
            TransactItemView::Put { item, condition } => checked_put(
                schema,
                item,
                condition,
                current,
                key,
                index,
            ),
            TransactItemView::Update { expression, condition, .. } => checked_update(
                schema,
                expression,
                condition,
                current,
                key,
                index,
            ),
            TransactItemView::Delete { condition, .. } => if !holds(condition, current) {
                Err(FailView::ConditionCheckFailed { index })
            } else {
                Ok(PlannedView::Remove { key, existed: current.is_some() })
            },
            TransactItemView::ConditionCheck { condition, .. } => if !holds(
                Some(condition),
                current,
            ) {
                Err(FailView::ConditionCheckFailed { index })
            } else {
                Ok(PlannedView::Nothing)
            },
        },
    }
}

/// How far the checks of a transaction have come.
pub ghost struct Progress {
    /// The storage keys of the operations checked so far.
    pub seen: Seq<Seq<char>>,
    /// What the operations checked so far will write.
    pub plans: Seq<PlannedView>,
}

/// The checks of the first `n` operations, in their order: the key of each
/// must differ from the keys before it, and the operation must pass its own
/// checks. The first failure ends the checks.
pub open spec fn planned(
    stored: Stored,
    schema: KeySchemaView,
    items: Seq<TransactItemView>,
    n: nat,
) -> Result<Progress, FailView>
    decreases n,
{
    if n == 0 || n > items.len() {
        Ok(Progress { seen: Seq::empty(), plans: Seq::empty() })
    } else {
        match planned(stored, schema, items, (n - 1) as nat) {
            Err(f) => Err(f),
            Ok(p) => {
                let index = (n - 1) as usize;
                match target_key(items[n - 1], schema, index) {
                    Err(f) => Err(f),
                    Ok(key) => {
                        let text = storage_key_text(key);
                        if set_has::<String>(p.seen, text_bytes(text)) {
                            Err(FailView::DuplicateItem { index })
                        } else {
                            match checked_operation(stored, schema, items[n - 1], key, index) {
                                Err(f) => Err(f),
                                Ok(plan) => Ok(
                                    Progress {
                                        seen: set_inserted::<String>(p.seen, text),
                                        plans: p.plans.push(plan),
                                    },
                                ),
                            }
                        }
                    },
                }
            },
        }
    }
}

/// A failure of the checks stays the failure of the transaction.
pub proof fn lemma_planned_error(
    stored: Stored,
    schema: KeySchemaView,
    items: Seq<TransactItemView>,
    n: nat,
    m: nat,
)
    requires
        n <= m <= items.len(),
        planned(stored, schema, items, n) is Err,
    ensures
        planned(stored, schema, items, m) == planned(stored, schema, items, n),
    decreases m - n,
{
    if m > n {
        lemma_planned_error(stored, schema, items, n, (m - 1) as nat);
    }
}

/// The table after the first `n` planned writes.
pub open spec fn after_plans(tv: TableView, plans: Seq<PlannedView>, n: nat) -> TableView
    decreases n,
{
    if n == 0 || n > plans.len() {
        tv
    } else {
        after_plan(after_plans(tv, plans, (n - 1) as nat), plans[n - 1])
    }
}

/// The table after one planned write.
pub open spec fn after_plan(tv: TableView, plan: PlannedView) -> TableView {
    match plan {
        PlannedView::Store { key, bytes, item } => after_put(tv, key, bytes, item),
        PlannedView::Remove { key, existed } => after_delete(tv, key, existed),
        PlannedView::Nothing => tv,
    }
}

/// What an operation that has passed its checks will write.
#[derive(Debug)]
pub enum PlannedWrite {
    /// Store the item under the key.
    Store { key: PrimaryKey, bytes: Vec<u8>, item: Item },
    /// Remove the item of the key.
    Remove { key: PrimaryKey, existed: bool },
    /// Write nothing.
    Nothing,
}

impl View for PlannedWrite {
    type V = PlannedView;

    open spec fn view(&self) -> PlannedView {
        match self {
            PlannedWrite::Store { key, bytes, item } => PlannedView::Store {
                key: key@,
                bytes: bytes@,
                item: item@,
            },
            PlannedWrite::Remove { key, existed } => PlannedView::Remove {
                key: key@,
                existed: *existed,
            },
            PlannedWrite::Nothing => PlannedView::Nothing,
        }
    }
}

/// The content of a list of planned writes.
pub open spec fn plans_view(v: Seq<PlannedWrite>) -> Seq<PlannedView> {
    Seq::new(v.len(), |i: int| v[i]@)
}

/// Whether a condition holds of the item as it is.
fn condition_holds(condition: &Option<Condition>, current: &Option<Item>) -> (r: bool)
    ensures
        r == holds(condition_view(*condition), item_view(*current)),
{
    match condition {
        None => true,
        Some(c) => {
            let outcome = match current {
                Some(i) => evaluate(c, i),
                None => {
                    let empty = Item::new();
                    evaluate(c, &empty)
                },
            };
            match outcome {
                Ok(v) => v,
                Err(_) => false,
            }
        },
    }
}

/// Checks transactions and carries out read transactions.
pub struct TransactionExecutor;

impl TransactionExecutor {
    /// An executor.
    pub fn new() -> (r: Self) {
        TransactionExecutor
    }

    /// The key that an operation is about.
    pub fn extract_key(&self, item: &TransactWriteItem, schema: &KeySchema, index: usize) -> (r:
        Result<PrimaryKey, TransactionFailureReason>)
        ensures
            match r {
                Ok(k) => target_key(item@, schema@, index) == Ok::<_, FailView>(k@),
                Err(f) => target_key(item@, schema@, index) == Err::<PrimaryKeyView, _>(f@),
            },
    {
        match item {
            TransactWriteItem::Put { item, .. } => match item.extract_key(schema) {
                Some(k) => Ok(k),
                None => Err(
                    TransactionFailureReason::InvalidKey {
                        index,
                        message: owned("missing key attributes"),
                    },
                ),
            },
            TransactWriteItem::Update { key, .. } => Ok(key.duplicate()),
            TransactWriteItem::Delete { key, .. } => Ok(key.duplicate()),
            TransactWriteItem::ConditionCheck { key, .. } => Ok(key.duplicate()),
        }
    }

    /// Checks one operation against the table as it is and says what it will
    /// write.
    pub fn validate_write_item(
        &self,
        item: &TransactWriteItem,
        key: &PrimaryKey,
        schema: &KeySchema,
        index: usize,
        table: &Table,
    ) -> (r: Result<PlannedWrite, TransactionFailureReason>)
        ensures
            match r {
                Ok(p) => checked_operation(table@.stored, schema@, item@, key@, index) == Ok::<
                    _,
                    FailView,
                >(p@),
                Err(f) => checked_operation(table@.stored, schema@, item@, key@, index) == Err::<
                    PlannedView,
                    _,
                >(f@),
            },
    {
        let current = match table.get_item(key) {
            Ok(c) => c,
            Err(_) => {
                return Err(
                    TransactionFailureReason::InvalidKey {
                        index,
                        message: owned("failed to read item"),
                    },
                );
            },
        };
        match item {
            TransactWriteItem::Put { item, condition } => {
                match item.validate_key(schema) {
                    Err(e) => {
                        return Err(
                            TransactionFailureReason::InvalidKey {
                                index,
                                message: key_error_message(&e),
                            },
                        );
                    },
                    Ok(_) => {},
                }
                if !condition_holds(condition, &current) {
                    return Err(TransactionFailureReason::ConditionCheckFailed { index });
                }
                match encode_item(item) {
                    Err(_) => Err(
                        TransactionFailureReason::InvalidKey {
                            index,
                            message: owned("item cannot be encoded"),
                        },
                    ),
                    Ok(bytes) => Ok(
                        PlannedWrite::Store { key: key.duplicate(), bytes, item: item.duplicate() },
                    ),
                }
            },
            TransactWriteItem::Update { expression, condition, .. } => {
                if current.is_none() {
                    return Err(TransactionFailureReason::ItemNotFound { index });
                }
                if !condition_holds(condition, &current) {
                    return Err(TransactionFailureReason::ConditionCheckFailed { index });
                }
                let existing = match current {
                    Some(i) => i,
                    None => Item::new(),
                };
                let executor = UpdateExecutor::new();
                let updated = match executor.execute(existing, expression) {
                    Ok(i) => i,
                    Err(_) => {
                        return Err(
                            TransactionFailureReason::InvalidKey {
                                index,
                                message: owned("update execution failed"),
                            },
                        );
                    },
                };
                let new_key = match updated.extract_key(schema) {
                    Some(k) => k,
                    None => {
                        return Err(TransactionFailureReason::KeyModification { index });
                    },
                };
                if !new_key.same(key) {
                    return Err(TransactionFailureReason::KeyModification { index });
                }
                match encode_item(&updated) {
                    Err(_) => Err(
                        TransactionFailureReason::InvalidKey {
                            index,
                            message: owned("item cannot be encoded"),
                        },
                    ),
                    Ok(bytes) => Ok(PlannedWrite::Store { key: key.duplicate(), bytes, item: updated }),
                }
            },
            TransactWriteItem::Delete { condition, .. } => {
                if !condition_holds(condition, &current) {
                    return Err(TransactionFailureReason::ConditionCheckFailed { index });
                }
                Ok(PlannedWrite::Remove { key: key.duplicate(), existed: current.is_some() })
            },
            TransactWriteItem::ConditionCheck { condition, .. } => {
                let outcome = match &current {
                    Some(i) => evaluate(condition, i),
                    None => {
                        let empty = Item::new();
                        evaluate(condition, &empty)
                    },
                };
                match outcome {
                    Ok(true) => Ok(PlannedWrite::Nothing),
                    _ => Err(TransactionFailureReason::ConditionCheckFailed { index }),
                }
            },
        }
    }

    /// Checks every operation, in order, against the table as it is, and says
    /// what the transaction will write. Nothing is written.
    pub fn plan_write(&self, items: &Vec<TransactWriteItem>, schema: &KeySchema, table: &Table) -> (r:
        Result<Vec<PlannedWrite>, TransactionFailureReason>)
        ensures
            match r {
                Ok(plans) => planned(
                    table@.stored,
                    schema@,
                    operations_view(items@),
                    items@.len(),
                ) matches Ok(p) && p.plans == plans_view(plans@),
                Err(f) => planned(table@.stored, schema@, operations_view(items@), items@.len())
                    == Err::<Progress, _>(f@),
            },
    {
        let mut seen: SortedSet<String> = SortedSet::new();
        let mut plans: Vec<PlannedWrite> = Vec::new();
        let ghost ops = operations_view(items@);
        let ghost stored = table@.stored;
        let mut i: usize = 0;
        proof {
            assert(plans_view(plans@) =~= Seq::<PlannedView>::empty());
        }
        while i < items.len()
            invariant
                i <= items.len(),
                ops == operations_view(items@),
                stored == table@.stored,
                planned(stored, schema@, ops, i as nat) == Ok::<_, FailView>(
                    Progress { seen: seen@, plans: plans_view(plans@) },
                ),
            decreases items.len() - i,
        {
            proof {
                assert(ops[i as int] == items@[i as int]@);
            }
            let key = match self.extract_key(&items[i], schema, i) {
                Ok(k) => k,
                Err(f) => {
                    proof {
                        lemma_planned_error(stored, schema@, ops, (i + 1) as nat, ops.len());
                    }
                    return Err(f);
                },
            };
            let text = key.to_storage_key();
            if seen.contains(text.as_str().as_bytes()) {
                proof {
                    lemma_planned_error(stored, schema@, ops, (i + 1) as nat, ops.len());
                }
                return Err(TransactionFailureReason::DuplicateItem { index: i });
            }
            let plan = match self.validate_write_item(&items[i], &key, schema, i, table) {
                Ok(p) => p,
                Err(f) => {
                    proof {
                        lemma_planned_error(stored, schema@, ops, (i + 1) as nat, ops.len());
                    }
                    return Err(f);
                },
            };
            seen.insert(text);
            proof {
                assert(plans_view(plans@.push(plan)) =~= plans_view(plans@).push(plan@));
            }
            plans.push(plan);
            i += 1;
        }
        Ok(plans)
    }

    /// Checks every operation, in order, against the table as it is: the keys
    /// must differ from one another, and every operation must pass its own
    /// checks. The first failure is reported.
    pub fn validate_write(&self, items: &Vec<TransactWriteItem>, schema: &KeySchema, table: &Table) -> (r:
        Result<(), TransactionFailureReason>)
        ensures
            match r {
                Ok(_) => planned(table@.stored, schema@, operations_view(items@), items@.len())
                    is Ok,
                Err(f) => planned(table@.stored, schema@, operations_view(items@), items@.len())
                    == Err::<Progress, _>(f@),
            },
    {
        match self.plan_write(items, schema, table) {
            Ok(_) => Ok(()),
            Err(f) => Err(f),
        }
    }

    /// Reads the items of the keys, in order; a key without item gives `None`.
    /// The first read that fails ends the transaction.
    pub fn execute_get(&self, items: &Vec<TransactGetItem>, table: &Table) -> (r: TableResult<
        TransactGetResult,
    >)
        ensures
            match r {
                Ok(res) => got(table@.stored, read_keys(items@), items@.len()) == Ok::<
                    _,
                    TableErrorView,
                >(res@),
                Err(e) => got(table@.stored, read_keys(items@), items@.len()) == Err::<
                    Seq<Option<ItemView>>,
                    _,
                >(e@),
            },
    {
        let mut results: Vec<Option<Item>> = Vec::new();
        let ghost keys = read_keys(items@);
        let mut i: usize = 0;
        proof {
            assert(optional_items_view(results@) =~= Seq::<Option<ItemView>>::empty());
        }
        while i < items.len()
            invariant
                i <= items.len(),
                keys == read_keys(items@),
                got(table@.stored, keys, i as nat) == Ok::<_, TableErrorView>(
                    optional_items_view(results@),
                ),
            decreases items.len() - i,
        {
            proof {
                assert(keys[i as int] == read_key(items@[i as int]));
            }
            match &items[i] {
                TransactGetItem::Get { key } => {
                    let item = match table.get_item(key) {
                        Ok(item) => item,
                        Err(e) => {
                            proof {
                                lemma_got_error(table@.stored, keys, (i + 1) as nat, keys.len());
                            }
                            return Err(e);
                        },
                    };
                    proof {
                        assert(optional_items_view(results@.push(item)) =~= optional_items_view(
                            results@,
                        ).push(item_view(item)));
                    }
                    results.push(item);
                },
            }
            i += 1;
        }
        Ok(TransactGetResult::new(results))
    }
}

impl Default for TransactionExecutor {
    fn default() -> (r: Self) {
        TransactionExecutor::new()
    }
}

/// The items of the first `n` keys, or the first error of a read.
pub open spec fn got(stored: Stored, keys: Seq<PrimaryKeyView>, n: nat) -> Result<
    Seq<Option<ItemView>>,
    TableErrorView,
>
    decreases n,
{
    if n == 0 || n > keys.len() {
        Ok(Seq::empty())
    } else {
        match got(stored, keys, (n - 1) as nat) {
            Err(e) => Err(e),
            Ok(before) => match item_at(stored, storage_key_text(keys[n - 1])) {
                Err(e) => Err(e),
                Ok(item) => Ok(before.push(item)),
            },
        }
    }
}

/// A read that fails stays the failure of the transaction.
pub proof fn lemma_got_error(stored: Stored, keys: Seq<PrimaryKeyView>, n: nat, m: nat)
    requires
        n <= m <= keys.len(),
        got(stored, keys, n) is Err,
    ensures
        got(stored, keys, m) == got(stored, keys, n),
    decreases m - n,
{
    if m > n {
        lemma_got_error(stored, keys, n, (m - 1) as nat);
    }
}

impl Table {
    /// Carries out a write transaction, all of it or nothing. Every operation
    /// is checked against the table as it is; where one fails, the
    /// transaction is cancelled with the reason of the first failure and the
    /// table is as it was. Where all pass, their writes are carried out in
    /// order.
    pub fn transact_write<R: IntoTransactWrite>(&mut self, request: R) -> (r: TableResult<()>)
        ensures
            final(self).name == old(self).name,
            match r {
                Ok(_) => planned(
                    old(self)@.stored,
                    old(self)@.schema,
                    request.operations(),
                    request.operations().len(),
                ) matches Ok(p) && final(self)@ == after_plans(old(self)@, p.plans, p.plans.len()),
                Err(e) => planned(
                    old(self)@.stored,
                    old(self)@.schema,
                    request.operations(),
                    request.operations().len(),
                ) matches Err(f) && e@ == (TableErrorView::TransactionCanceled {
                    reasons: seq![cancel_reason(f)],
                }) && final(self)@ == old(self)@,
            },
    {
        let request = request.into_transact_write();
        let executor = TransactionExecutor::new();
        let schema = self.schema.duplicate();
        let mut plans = match executor.plan_write(&request.items, &schema, self) {
            Ok(p) => p,
            Err(f) => {
                return Err(self.convert_failure_to_error(f));
            },
        };
        let ghost all = plans_view(plans@);
        let ghost tv0 = self@;
        let ghost mut done: int = 0;
        while plans.len() > 0
            invariant
                0 <= done,
                done + plans@.len() == all.len(),
                plans_view(plans@) == all.skip(done),
                self.name == old(self).name,
                tv0 == old(self)@,
                self@ == after_plans(tv0, all, done as nat),
            decreases plans.len(),
        {
            let ghost before = plans@;
            let plan = plans.remove(0);
            proof {
                assert(plans_view(before)[0] == before[0]@);
                assert(all.skip(done)[0] == all[done]);
                assert(all[done] == plan@);
                assert forall|k: int| 0 <= k < plans@.len() implies #[trigger] plans_view(
                    plans@,
                )[k] == all.skip(done + 1)[k] by {
                    assert(plans@[k] == before[k + 1]);
                    assert(plans_view(before)[k + 1] == before[k + 1]@);
                    assert(all.skip(done)[k + 1] == all[done + k + 1]);
                }
                assert(plans_view(plans@) =~= all.skip(done + 1));
            }
            self.apply_transact_write_item(plan);
            proof {
                done = done + 1;
            }
        }
        Ok(())
    }

    /// Carries out the write of one operation that has passed its checks.
    fn apply_transact_write_item(&mut self, plan: PlannedWrite)
        ensures
            final(self).name == old(self).name,
            final(self)@ == after_plan(old(self)@, plan@),
    {
        match plan {
            PlannedWrite::Store { key, bytes, item } => {
                self.store(&key, bytes, &item);
            },
            PlannedWrite::Remove { key, existed } => {
                let text = key.to_storage_key();
                self.storage.erase(text.as_str());
                if existed {
                    self.update_indexes_on_delete(&key);
                }
            },
            PlannedWrite::Nothing => {},
        }
    }

    /// The error of a transaction that was cancelled for one reason.
    pub fn convert_failure_to_error(&self, failure: TransactionFailureReason) -> (r: TableError)
        ensures
            r@ == (TableErrorView::TransactionCanceled { reasons: seq![cancel_reason(failure@)] }),
    {
        let mut reasons: Vec<TransactionCancelReason> = Vec::new();
        reasons.push(failure.into_cancel_reason());
        let r = TableError::transaction_canceled(reasons);
        proof {
            assert(crate::error::reasons_view(reasons@) =~= seq![cancel_reason(failure@)]);
        }
        r
    }

    /// Reads the items of several keys; a key without item gives `None`.
    pub fn transact_get<R: IntoTransactGet>(&self, request: R) -> (r: TableResult<TransactGetResult>)
        ensures
            match r {
                Ok(res) => got(self@.stored, request.reads(), request.reads().len()) == Ok::<
                    _,
                    TableErrorView,
                >(res@),
                Err(e) => got(self@.stored, request.reads(), request.reads().len()) == Err::<
                    Seq<Option<ItemView>>,
                    _,
                >(e@),
            },
    {
        let request = request.into_transact_get();
        let executor = TransactionExecutor::new();
        executor.execute_get(&request.items, self)
    }
}

} // verus!
