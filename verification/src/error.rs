//! The errors of the store.

use crate::number::{format_uint, int_text};
use crate::text::{owned, IntoText};
use crate::types::encoding::DecodeError;
use crate::types::item::{KeyErrorView, KeyValidationError};
use vstd::prelude::*;
use vstd::string::StringExecFns;

verus! {

/// The text of a decoding error.
pub open spec fn decode_error_text(e: DecodeError) -> Seq<char> {
    match e {
        DecodeError::UnexpectedEof => "unexpected end of data"@,
        DecodeError::InvalidUtf8 => "invalid UTF-8 string"@,
        DecodeError::InvalidTypeTag(t) => "invalid type tag: "@ + int_text(t as int),
        DecodeError::InvalidBool(b) => "invalid bool value: "@ + int_text(b as int),
    }
}

/// The text of a key validation error.
pub open spec fn key_error_text(e: KeyErrorView) -> Seq<char> {
    match e {
        KeyErrorView::MissingAttribute { name } => "missing required key attribute: "@ + name,
        KeyErrorView::TypeMismatch { name, expected, actual } => "key attribute '"@ + name
            + "' has wrong type. expected: "@ + expected + ", got: "@ + actual,
    }
}

/// The text of a decoding error.
pub fn decode_error_message(e: &DecodeError) -> (r: String)
    ensures
        r@ == decode_error_text(*e),
{
    match e {
        DecodeError::UnexpectedEof => owned("unexpected end of data"),
        DecodeError::InvalidUtf8 => owned("invalid UTF-8 string"),
        DecodeError::InvalidTypeTag(t) => {
            let mut out = owned("invalid type tag: ");
            let n = format_uint(*t as u128);
            out.append(n.as_str());
            out
        },
        DecodeError::InvalidBool(b) => {
            let mut out = owned("invalid bool value: ");
            let n = format_uint(*b as u128);
            out.append(n.as_str());
            out
        },
    }
}

/// The text of a key validation error.
pub fn key_error_message(e: &KeyValidationError) -> (r: String)
    ensures
        r@ == key_error_text(e@),
{
    match e {
        KeyValidationError::MissingAttribute { name } => {
            let mut out = owned("missing required key attribute: ");
            out.append(name.as_str());
            out
        },
        KeyValidationError::TypeMismatch { name, expected, actual } => {
            let mut out = owned("key attribute '");
            out.append(name.as_str());
            out.append("' has wrong type. expected: ");
            out.append(*expected);
            out.append(", got: ");
            out.append(*actual);
            out
        },
    }
}

/// An error of the storage backend.
#[derive(Debug)]
pub enum StorageError {
    /// No value is stored under the key.
    KeyNotFound { key: String },
    /// A value is already stored under the key.
    KeyAlreadyExists { key: String },
    /// The backend failed.
    Internal { message: String },
}

/// The content of a storage error.
pub ghost enum StorageErrorView {
    KeyNotFound { key: Seq<char> },
    KeyAlreadyExists { key: Seq<char> },
    Internal { message: Seq<char> },
}

/// The text of a storage error.
pub open spec fn storage_error_text(e: StorageErrorView) -> Seq<char> {
    match e {
        StorageErrorView::KeyNotFound { key } => "key not found: "@ + key,
        StorageErrorView::KeyAlreadyExists { key } => "key already exists: "@ + key,
        StorageErrorView::Internal { message } => "storage error: "@ + message,
    }
}

impl View for StorageError {
    type V = StorageErrorView;

    open spec fn view(&self) -> StorageErrorView {
        match self {
            StorageError::KeyNotFound { key } => StorageErrorView::KeyNotFound { key: key@ },
            StorageError::KeyAlreadyExists { key } => StorageErrorView::KeyAlreadyExists {
                key: key@,
            },
            StorageError::Internal { message } => StorageErrorView::Internal { message: message@ },
        }
    }
}

impl StorageError {
    /// No value is stored under `key`.
    pub fn not_found<T: IntoText>(key: T) -> (r: Self)
        ensures
            r@ == (StorageErrorView::KeyNotFound { key: key.text() }),
    {
        StorageError::KeyNotFound { key: key.into_text() }
    }

    /// A value is already stored under `key`.
    pub fn already_exists<T: IntoText>(key: T) -> (r: Self)
        ensures
            r@ == (StorageErrorView::KeyAlreadyExists { key: key.text() }),
    {
        StorageError::KeyAlreadyExists { key: key.into_text() }
    }

    /// The backend failed, with a message.
    pub fn internal<T: IntoText>(message: T) -> (r: Self)
        ensures
            r@ == (StorageErrorView::Internal { message: message.text() }),
    {
        StorageError::Internal { message: message.into_text() }
    }

    /// The key that the error is about.
    pub fn key(&self) -> (r: Option<&str>)
        ensures
            match r {
                Some(k) => self@ == (StorageErrorView::KeyNotFound { key: k@ }) || self@ == (
                StorageErrorView::KeyAlreadyExists { key: k@ }),
                None => self@ is Internal,
            },
    {
        match self {
            StorageError::KeyNotFound { key } => Some(key.as_str()),
            StorageError::KeyAlreadyExists { key } => Some(key.as_str()),
            StorageError::Internal { .. } => None,
        }
    }

    /// Whether the error says that a key was not found.
    pub fn is_not_found(&self) -> (r: bool)
        ensures
            r == (self@ is KeyNotFound),
    {
        match self {
            StorageError::KeyNotFound { .. } => true,
            _ => false,
        }
    }

    /// Whether the error says that a key was already there.
    pub fn key_already_exists(&self) -> (r: bool)
        ensures
            r == (self@ is KeyAlreadyExists),
    {
        match self {
            StorageError::KeyAlreadyExists { .. } => true,
            _ => false,
        }
    }

    /// The text of the error.
    pub fn message(&self) -> (r: String)
        ensures
            r@ == storage_error_text(self@),
    {
        match self {
            StorageError::KeyNotFound { key } => {
                let mut out = owned("key not found: ");
                out.append(key.as_str());
                out
            },
            StorageError::KeyAlreadyExists { key } => {
                let mut out = owned("key already exists: ");
                out.append(key.as_str());
                out
            },
            StorageError::Internal { message } => {
                let mut out = owned("storage error: ");
                out.append(message.as_str());
                out
            },
        }
    }

    /// A copy with the same content.
    pub fn duplicate(&self) -> (r: Self)
        ensures
            r@ == self@,
    {
        match self {
            StorageError::KeyNotFound { key } => StorageError::KeyNotFound { key: key.clone() },
            StorageError::KeyAlreadyExists { key } => StorageError::KeyAlreadyExists {
                key: key.clone(),
            },
            StorageError::Internal { message } => StorageError::Internal {
                message: message.clone(),
            },
        }
    }

    /// Whether two errors have the same content.
    pub fn same(&self, other: &Self) -> (r: bool)
        ensures
            r == (self@ == other@),
    {
        match (self, other) {
            (StorageError::KeyNotFound { key: a }, StorageError::KeyNotFound { key: b }) => *a
                == *b,
            (
                StorageError::KeyAlreadyExists { key: a },
                StorageError::KeyAlreadyExists { key: b },
            ) => *a == *b,
            (StorageError::Internal { message: a }, StorageError::Internal { message: b }) => *a
                == *b,
            _ => false,
        }
    }
}

impl Clone for StorageError {
    fn clone(&self) -> (r: Self)
        ensures
            r@ == self@,
    {
        self.duplicate()
    }
}

impl PartialEq for StorageError {
    fn eq(&self, other: &Self) -> (r: bool) {
        self.same(other)
    }
}

impl vstd::std_specs::cmp::PartialEqSpecImpl for StorageError {
    open spec fn obeys_eq_spec() -> bool {
        true
    }

    open spec fn eq_spec(&self, other: &Self) -> bool {
        self@ == other@
    }
}

/// The result of a storage operation.
pub type StorageResult<T> = Result<T, StorageError>;

/// An error of condition evaluation.
#[derive(Debug, Clone, Copy)]
pub enum EvalError {
    /// Two values of types that cannot be compared.
    TypeMismatch { left: &'static str, right: &'static str },
}

/// The content of an evaluation error.
pub ghost enum EvalErrorView {
    TypeMismatch { left: Seq<char>, right: Seq<char> },
}

/// The text of an evaluation error.
pub open spec fn eval_error_text(e: EvalErrorView) -> Seq<char> {
    match e {
        EvalErrorView::TypeMismatch { left, right } => "cannot compare "@ + left + " with "@
            + right,
    }
}

impl View for EvalError {
    type V = EvalErrorView;

    open spec fn view(&self) -> EvalErrorView {
        match self {
            EvalError::TypeMismatch { left, right } => EvalErrorView::TypeMismatch {
                left: left@,
                right: right@,
            },
        }
    }
}

impl EvalError {
    /// The text of the error.
    pub fn message(&self) -> (r: String)
        ensures
            r@ == eval_error_text(self@),
    {
        match self {
            EvalError::TypeMismatch { left, right } => {
                let mut out = owned("cannot compare ");
                out.append(*left);
                out.append(" with ");
                out.append(*right);
                out
            },
        }
    }

    /// Whether two errors have the same content.
    pub fn same(&self, other: &Self) -> (r: bool)
        ensures
            r == (self@ == other@),
    {
        match (self, other) {
            (
                EvalError::TypeMismatch { left: la, right: ra },
                EvalError::TypeMismatch { left: lb, right: rb },
            ) => crate::text::text_equal(*la, *lb) && crate::text::text_equal(*ra, *rb),
        }
    }
}

impl PartialEq for EvalError {
    fn eq(&self, other: &Self) -> (r: bool) {
        self.same(other)
    }
}

impl vstd::std_specs::cmp::PartialEqSpecImpl for EvalError {
    open spec fn obeys_eq_spec() -> bool {
        true
    }

    open spec fn eq_spec(&self, other: &Self) -> bool {
        self@ == other@
    }
}

/// The result of evaluating a condition.
pub type EvalResult = Result<bool, EvalError>;

/// Why a transaction was cancelled; `index` is the place of the offending
/// operation in the request.
#[derive(Debug)]
pub enum TransactionCancelReason {
    /// A condition did not hold.
    ConditionCheckFailed { index: usize },
    /// The item to update does not exist.
    ItemNotFound { index: usize },
    /// An earlier operation of the transaction has the same key.
    DuplicateItem { index: usize },
    /// The operation is not valid.
    ValidationError { index: usize, message: String },
}

/// The content of a cancel reason.
pub ghost enum CancelReasonView {
    ConditionCheckFailed { index: usize },
    ItemNotFound { index: usize },
    DuplicateItem { index: usize },
    ValidationError { index: usize, message: Seq<char> },
}

/// The place of the offending operation.
pub open spec fn cancel_index(r: CancelReasonView) -> usize {
    match r {
        CancelReasonView::ConditionCheckFailed { index } => index,
        CancelReasonView::ItemNotFound { index } => index,
        CancelReasonView::DuplicateItem { index } => index,
        CancelReasonView::ValidationError { index, .. } => index,
    }
}

/// The text of a cancel reason.
pub open spec fn cancel_reason_text(r: CancelReasonView) -> Seq<char> {
    match r {
        CancelReasonView::ConditionCheckFailed { index } => "condition check failed at index "@
            + int_text(index as int),
        CancelReasonView::ItemNotFound { index } => "item not found at index "@ + int_text(
            index as int,
        ),
        CancelReasonView::DuplicateItem { index } => "duplicate item at index "@ + int_text(
            index as int,
        ),
        CancelReasonView::ValidationError { index, message } => "validation error at index "@
            + int_text(index as int) + ": "@ + message,
    }
}

impl View for TransactionCancelReason {
    type V = CancelReasonView;

    open spec fn view(&self) -> CancelReasonView {
        match self {
            TransactionCancelReason::ConditionCheckFailed { index } => CancelReasonView::ConditionCheckFailed {
                index: *index,
            },
            TransactionCancelReason::ItemNotFound { index } => CancelReasonView::ItemNotFound {
                index: *index,
            },
            TransactionCancelReason::DuplicateItem { index } => CancelReasonView::DuplicateItem {
                index: *index,
            },
            TransactionCancelReason::ValidationError { index, message } => CancelReasonView::ValidationError {
                index: *index,
                message: message@,
            },
        }
    }
}

impl TransactionCancelReason {
    /// The place of the offending operation in the request.
    pub fn index(&self) -> (r: usize)
        ensures
            r == cancel_index(self@),
    {
        match self {
            TransactionCancelReason::ConditionCheckFailed { index } => *index,
            TransactionCancelReason::ItemNotFound { index } => *index,
            TransactionCancelReason::DuplicateItem { index } => *index,
            TransactionCancelReason::ValidationError { index, .. } => *index,
        }
    }

    /// The text of the reason.
    pub fn message(&self) -> (r: String)
        ensures
            r@ == cancel_reason_text(self@),
    {
        match self {
            TransactionCancelReason::ConditionCheckFailed { index } => {
                let mut out = owned("condition check failed at index ");
                out.append(format_uint(*index as u128).as_str());
                out
            },
            TransactionCancelReason::ItemNotFound { index } => {
                let mut out = owned("item not found at index ");
                out.append(format_uint(*index as u128).as_str());
                out
            },
            TransactionCancelReason::DuplicateItem { index } => {
                let mut out = owned("duplicate item at index ");
                out.append(format_uint(*index as u128).as_str());
                out
            },
            TransactionCancelReason::ValidationError { index, message } => {
                let mut out = owned("validation error at index ");
                out.append(format_uint(*index as u128).as_str());
                out.append(": ");
                out.append(message.as_str());
                out
            },
        }
    }

    /// A copy with the same content.
    pub fn duplicate(&self) -> (r: Self)
        ensures
            r@ == self@,
    {
        match self {
            TransactionCancelReason::ConditionCheckFailed { index } => TransactionCancelReason::ConditionCheckFailed {
                index: *index,
            },
            TransactionCancelReason::ItemNotFound { index } => TransactionCancelReason::ItemNotFound {
                index: *index,
            },
            TransactionCancelReason::DuplicateItem { index } => TransactionCancelReason::DuplicateItem {
                index: *index,
            },
            TransactionCancelReason::ValidationError { index, message } => TransactionCancelReason::ValidationError {
                index: *index,
                message: message.clone(),
            },
        }
    }

    /// Whether two reasons have the same content.
    pub fn same(&self, other: &Self) -> (r: bool)
        ensures
            r == (self@ == other@),
    {
        match (self, other) {
            (
                TransactionCancelReason::ConditionCheckFailed { index: a },
                TransactionCancelReason::ConditionCheckFailed { index: b },
            ) => *a == *b,
            (
                TransactionCancelReason::ItemNotFound { index: a },
                TransactionCancelReason::ItemNotFound { index: b },
            ) => *a == *b,
            (
                TransactionCancelReason::DuplicateItem { index: a },
                TransactionCancelReason::DuplicateItem { index: b },
            ) => *a == *b,
            (
                TransactionCancelReason::ValidationError { index: a, message: ma },
                TransactionCancelReason::ValidationError { index: b, message: mb },
            ) => *a == *b && *ma == *mb,
            _ => false,
        }
    }
}

impl Clone for TransactionCancelReason {
    fn clone(&self) -> (r: Self)
        ensures
            r@ == self@,
    {
        self.duplicate()
    }
}

impl PartialEq for TransactionCancelReason {
    fn eq(&self, other: &Self) -> (r: bool) {
        self.same(other)
    }
}

impl vstd::std_specs::cmp::PartialEqSpecImpl for TransactionCancelReason {
    open spec fn obeys_eq_spec() -> bool {
        true
    }

    open spec fn eq_spec(&self, other: &Self) -> bool {
        self@ == other@
    }
}

/// An error of a table operation.
#[derive(Debug)]
pub enum TableError {
    /// The key attributes do not fit the schema.
    InvalidKey(KeyValidationError),
    /// The item does not exist.
    ItemNotFound,
    /// The item exists already.
    ItemAlreadyExists,
    /// The table has no index of that name.
    IndexNotFound { name: String },
    /// The condition of the request does not hold.
    ConditionFailed,
    /// The condition of the request could not be evaluated.
    ConditionError(String),
    /// The update could not be carried out.
    UpdateError(String),
    /// The transaction was cancelled and nothing was written.
    TransactionCanceled { reasons: Vec<TransactionCancelReason> },
    /// The storage backend failed.
    Storage(String),
    /// An item could not be encoded or decoded.
    Encoding(String),
}

/// The content of a table error.
pub ghost enum TableErrorView {
    InvalidKey(KeyErrorView),
    ItemNotFound,
    ItemAlreadyExists,
    IndexNotFound { name: Seq<char> },
    ConditionFailed,
    ConditionError(Seq<char>),
    UpdateError(Seq<char>),
    TransactionCanceled { reasons: Seq<CancelReasonView> },
    Storage(Seq<char>),
    Encoding(Seq<char>),
}

/// The content of a list of cancel reasons.
pub open spec fn reasons_view(r: Seq<TransactionCancelReason>) -> Seq<CancelReasonView> {
    Seq::new(r.len(), |i: int| r[i]@)
}

/// The texts of cancel reasons from index `i` on, with `, ` between them.
pub open spec fn reasons_text(r: Seq<CancelReasonView>, i: nat) -> Seq<char>
    decreases r.len() - i,
{
    if i >= r.len() {
        Seq::empty()
    } else if i == 0 {
        cancel_reason_text(r[0]) + reasons_text(r, 1)
    } else {
        ", "@ + cancel_reason_text(r[i as int]) + reasons_text(r, i + 1)
    }
}

/// The text of a table error.
pub open spec fn table_error_text(e: TableErrorView) -> Seq<char> {
    match e {
        TableErrorView::InvalidKey(k) => "invalid key: "@ + key_error_text(k),
        TableErrorView::ItemNotFound => "item not found"@,
        TableErrorView::ItemAlreadyExists => "item already exists"@,
        TableErrorView::IndexNotFound { name } => "index not found: "@ + name,
        TableErrorView::ConditionFailed => "condition check failed"@,
        TableErrorView::ConditionError(m) => "condition error: "@ + m,
        TableErrorView::UpdateError(m) => "update error: "@ + m,
        TableErrorView::TransactionCanceled { reasons } => "transaction canceled: "@
            + reasons_text(reasons, 0),
        TableErrorView::Storage(m) => "storage error: "@ + m,
        TableErrorView::Encoding(m) => "encoding error: "@ + m,
    }
}

impl View for TableError {
    type V = TableErrorView;

    open spec fn view(&self) -> TableErrorView {
        match self {
            TableError::InvalidKey(e) => TableErrorView::InvalidKey(e@),
            TableError::ItemNotFound => TableErrorView::ItemNotFound,
            TableError::ItemAlreadyExists => TableErrorView::ItemAlreadyExists,
            TableError::IndexNotFound { name } => TableErrorView::IndexNotFound { name: name@ },
            TableError::ConditionFailed => TableErrorView::ConditionFailed,
            TableError::ConditionError(m) => TableErrorView::ConditionError(m@),
            TableError::UpdateError(m) => TableErrorView::UpdateError(m@),
            TableError::TransactionCanceled { reasons } => TableErrorView::TransactionCanceled {
                reasons: reasons_view(reasons@),
            },
            TableError::Storage(m) => TableErrorView::Storage(m@),
            TableError::Encoding(m) => TableErrorView::Encoding(m@),
        }
    }
}

fn duplicate_reasons(v: &Vec<TransactionCancelReason>) -> (r: Vec<TransactionCancelReason>)
    ensures
        reasons_view(r@) == reasons_view(v@),
{
    let mut out: Vec<TransactionCancelReason> = Vec::new();
    let mut i: usize = 0;
    while i < v.len()
        invariant
            i <= v.len(),
            out@.len() == i,
            forall|j: int| 0 <= j < i ==> (#[trigger] out@[j])@ == v@[j]@,
        decreases v.len() - i,
    {
        out.push(v[i].duplicate());
        i += 1;
    }
    proof {
        assert(reasons_view(out@) =~= reasons_view(v@));
    }
    out
}

fn same_reasons(a: &Vec<TransactionCancelReason>, b: &Vec<TransactionCancelReason>) -> (r: bool)
    ensures
        r == (reasons_view(a@) == reasons_view(b@)),
{
    if a.len() != b.len() {
        proof {
            assert(reasons_view(a@).len() != reasons_view(b@).len());
        }
        return false;
    }
    let mut i: usize = 0;
    while i < a.len()
        invariant
            i <= a.len(),
            a.len() == b.len(),
            forall|j: int| 0 <= j < i ==> (#[trigger] a@[j])@ == b@[j]@,
        decreases a.len() - i,
    {
        if !a[i].same(&b[i]) {
            proof {
                assert(reasons_view(a@)[i as int] != reasons_view(b@)[i as int]);
            }
            return false;
        }
        i += 1;
    }
    proof {
        assert(reasons_view(a@) =~= reasons_view(b@));
    }
    true
}

impl TableError {
    /// Whether the error says that the item does not exist.
    pub fn is_not_found(&self) -> (r: bool)
        ensures
            r == (self@ is ItemNotFound),
    {
        match self {
            TableError::ItemNotFound => true,
            _ => false,
        }
    }

    /// Whether the error says that the item exists already.
    pub fn item_already_exists(&self) -> (r: bool)
        ensures
            r == (self@ is ItemAlreadyExists),
    {
        match self {
            TableError::ItemAlreadyExists => true,
            _ => false,
        }
    }

    /// Whether the error is about key attributes.
    pub fn is_invalid_key(&self) -> (r: bool)
        ensures
            r == (self@ is InvalidKey),
    {
        match self {
            TableError::InvalidKey(_) => true,
            _ => false,
        }
    }

    /// Whether the error says that a condition did not hold.
    pub fn is_condition_failed(&self) -> (r: bool)
        ensures
            r == (self@ is ConditionFailed),
    {
        match self {
            TableError::ConditionFailed => true,
            _ => false,
        }
    }

    /// Whether the error says that the table has no such index.
    pub fn is_index_not_found(&self) -> (r: bool)
        ensures
            r == (self@ is IndexNotFound),
    {
        match self {
            TableError::IndexNotFound { .. } => true,
            _ => false,
        }
    }

    /// Whether the error is about an update.
    pub fn is_update_error(&self) -> (r: bool)
        ensures
            r == (self@ is UpdateError),
    {
        match self {
            TableError::UpdateError(_) => true,
            _ => false,
        }
    }

    /// The table has no index called `name`.
    pub fn index_not_found<T: IntoText>(name: T) -> (r: Self)
        ensures
            r@ == (TableErrorView::IndexNotFound { name: name.text() }),
    {
        TableError::IndexNotFound { name: name.into_text() }
    }

    /// An update could not be carried out, with a message.
    pub fn update_error<T: IntoText>(msg: T) -> (r: Self)
        ensures
            r@ == TableErrorView::UpdateError(msg.text()),
    {
        TableError::UpdateError(msg.into_text())
    }

    /// Whether the error says that a transaction was cancelled.
    pub fn is_transaction_canceled(&self) -> (r: bool)
        ensures
            r == (self@ is TransactionCanceled),
    {
        match self {
            TableError::TransactionCanceled { .. } => true,
            _ => false,
        }
    }

    /// A transaction was cancelled for the given reasons.
    pub fn transaction_canceled(reasons: Vec<TransactionCancelReason>) -> (r: Self)
        ensures
            r@ == (TableErrorView::TransactionCanceled { reasons: reasons_view(reasons@) }),
    {
        TableError::TransactionCanceled { reasons }
    }

    /// The reasons for which a transaction was cancelled.
    pub fn cancellation_reasons(&self) -> (r: Option<&Vec<TransactionCancelReason>>)
        ensures
            match r {
                Some(v) => self@ == (TableErrorView::TransactionCanceled {
                    reasons: reasons_view(v@),
                }),
                None => !(self@ is TransactionCanceled),
            },
    {
        match self {
            TableError::TransactionCanceled { reasons } => Some(reasons),
            _ => None,
        }
    }

    /// The error for key attributes that do not fit.
    pub fn from_key_error(e: KeyValidationError) -> (r: Self)
        ensures
            r@ == TableErrorView::InvalidKey(e@),
    {
        TableError::InvalidKey(e)
    }

    /// The error for a failure of the storage backend; it carries the text of
    /// the storage error.
    pub fn from_storage_error(e: StorageError) -> (r: Self)
        ensures
            r@ == TableErrorView::Storage(storage_error_text(e@)),
    {
        TableError::Storage(e.message())
    }

    /// The error for bytes that could not be decoded; it carries the text of
    /// the decoding error.
    pub fn from_decode_error(e: DecodeError) -> (r: Self)
        ensures
            r@ == TableErrorView::Encoding(decode_error_text(e)),
    {
        TableError::Encoding(decode_error_message(&e))
    }

    /// The error for a condition that could not be evaluated; it carries the
    /// text of the evaluation error.
    pub fn from_eval_error(e: EvalError) -> (r: Self)
        ensures
            r@ == TableErrorView::ConditionError(eval_error_text(e@)),
    {
        TableError::ConditionError(e.message())
    }

    /// The text of the error.
    pub fn message(&self) -> (r: String)
        ensures
            r@ == table_error_text(self@),
    {
        match self {
            TableError::InvalidKey(e) => {
                let mut out = owned("invalid key: ");
                out.append(key_error_message(e).as_str());
                out
            },
            TableError::ItemNotFound => owned("item not found"),
            TableError::ItemAlreadyExists => owned("item already exists"),
            TableError::IndexNotFound { name } => {
                let mut out = owned("index not found: ");
                out.append(name.as_str());
                out
            },
            TableError::ConditionFailed => owned("condition check failed"),
            TableError::ConditionError(m) => {
                let mut out = owned("condition error: ");
                out.append(m.as_str());
                out
            },
            TableError::UpdateError(m) => {
                let mut out = owned("update error: ");
                out.append(m.as_str());
                out
            },
            TableError::Storage(m) => {
                let mut out = owned("storage error: ");
                out.append(m.as_str());
                out
            },
            TableError::Encoding(m) => {
                let mut out = owned("encoding error: ");
                out.append(m.as_str());
                out
            },
            TableError::TransactionCanceled { reasons } => {
                let mut out = owned("transaction canceled: ");
                let ghost head = out@;
                let ghost rv = reasons_view(reasons@);
                let mut i: usize = 0;
                while i < reasons.len()
                    invariant
                        i <= reasons.len(),
                        rv == reasons_view(reasons@),
                        out@ + reasons_text(rv, i as nat) == head + reasons_text(rv, 0),
                    decreases reasons.len() - i,
                {
                    let ghost before = out@;
                    if i > 0 {
                        out.append(", ");
                    }
                    out.append(reasons[i].message().as_str());
                    proof {
                        assert(out@ + reasons_text(rv, (i + 1) as nat) =~= before + reasons_text(
                            rv,
                            i as nat,
                        ));
                    }
                    i += 1;
                }
                proof {
                    assert(out@ =~= head + reasons_text(rv, 0));
                }
                out
            },
        }
    }

    /// A copy with the same content.
    pub fn duplicate(&self) -> (r: Self)
        ensures
            r@ == self@,
    {
        match self {
            TableError::InvalidKey(e) => TableError::InvalidKey(e.duplicate()),
            TableError::ItemNotFound => TableError::ItemNotFound,
            TableError::ItemAlreadyExists => TableError::ItemAlreadyExists,
            TableError::IndexNotFound { name } => TableError::IndexNotFound { name: name.clone() },
            TableError::ConditionFailed => TableError::ConditionFailed,
            TableError::ConditionError(m) => TableError::ConditionError(m.clone()),
            TableError::UpdateError(m) => TableError::UpdateError(m.clone()),
            TableError::TransactionCanceled { reasons } => TableError::TransactionCanceled {
                reasons: duplicate_reasons(reasons),
            },
            TableError::Storage(m) => TableError::Storage(m.clone()),
            TableError::Encoding(m) => TableError::Encoding(m.clone()),
        }
    }

    /// Whether two errors have the same content.
    pub fn same(&self, other: &Self) -> (r: bool)
        ensures
            r == (self@ == other@),
    {
        match (self, other) {
            (TableError::InvalidKey(a), TableError::InvalidKey(b)) => a.same(b),
            (TableError::ItemNotFound, TableError::ItemNotFound) => true,
            (TableError::ItemAlreadyExists, TableError::ItemAlreadyExists) => true,
            (TableError::IndexNotFound { name: a }, TableError::IndexNotFound { name: b }) => *a
                == *b,
            (TableError::ConditionFailed, TableError::ConditionFailed) => true,
            (TableError::ConditionError(a), TableError::ConditionError(b)) => *a == *b,
            (TableError::UpdateError(a), TableError::UpdateError(b)) => *a == *b,
            (
                TableError::TransactionCanceled { reasons: a },
                TableError::TransactionCanceled { reasons: b },
            ) => same_reasons(a, b),
            (TableError::Storage(a), TableError::Storage(b)) => *a == *b,
            (TableError::Encoding(a), TableError::Encoding(b)) => *a == *b,
            _ => false,
        }
    }
}

impl Clone for TableError {
    fn clone(&self) -> (r: Self)
        ensures
            r@ == self@,
    {
        self.duplicate()
    }
}

impl PartialEq for TableError {
    fn eq(&self, other: &Self) -> (r: bool) {
        self.same(other)
    }
}

impl vstd::std_specs::cmp::PartialEqSpecImpl for TableError {
    open spec fn obeys_eq_spec() -> bool {
        true
    }

    open spec fn eq_spec(&self, other: &Self) -> bool {
        self@ == other@
    }
}

/// The result of a table operation.
pub type TableResult<T> = Result<T, TableError>;

} // verus!
