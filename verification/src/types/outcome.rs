//! What a write hands back.

use crate::types::item::{Item, ItemView};
use vstd::prelude::*;

verus! {

/// Which attributes a write hands back.
#[derive(Debug, Clone, Copy, PartialEq, Eq, Structural)]
pub enum ReturnValue {
    /// Nothing.
    Nothing,
    /// The item as it was before the write.
    AllOld,
    /// The item as it is after the write.
    AllNew,
}

impl Default for ReturnValue {
    fn default() -> (r: Self)
        ensures
            r == ReturnValue::Nothing,
    {
        ReturnValue::Nothing
    }
}

/// The outcome of a write.
#[derive(Debug)]
pub struct WriteResult {
    /// The attributes that were asked for.
    pub attributes: Option<Item>,
    /// Whether an item was there before the write.
    pub was_update: bool,
}

/// The content of a write result.
pub ghost struct WriteResultView {
    pub attributes: Option<ItemView>,
    pub was_update: bool,
}

impl View for WriteResult {
    type V = WriteResultView;

    open spec fn view(&self) -> WriteResultView {
        WriteResultView {
            attributes: match self.attributes {
                Some(i) => Some(i@),
                None => None,
            },
            was_update: self.was_update,
        }
    }
}

impl WriteResult {
    /// A result without attributes, for a write that found no item.
    pub fn none() -> (r: Self)
        ensures
            r@ == (WriteResultView { attributes: None, was_update: false }),
    {
        WriteResult { attributes: None, was_update: false }
    }

    /// The result of a write that created an item.
    pub fn created() -> (r: Self)
        ensures
            r@ == (WriteResultView { attributes: None, was_update: false }),
    {
        WriteResult { attributes: None, was_update: false }
    }

    /// The result of a write that replaced an item.
    pub fn updated() -> (r: Self)
        ensures
            r@ == (WriteResultView { attributes: None, was_update: true }),
    {
        WriteResult { attributes: None, was_update: true }
    }

    /// The result with the given attributes.
    pub fn with_attributes(self, item: Option<Item>) -> (r: Self)
        ensures
            r.was_update == self.was_update,
            r@.attributes == match item {
                Some(i) => Some(i@),
                None => None,
            },
    {
        WriteResult { attributes: item, was_update: self.was_update }
    }

    /// A copy with the same content.
    pub fn duplicate(&self) -> (r: Self)
        ensures
            r@ == self@,
    {
        WriteResult {
            attributes: match &self.attributes {
                Some(i) => Some(i.duplicate()),
                None => None,
            },
            was_update: self.was_update,
        }
    }
}

impl Clone for WriteResult {
    fn clone(&self) -> (r: Self)
        ensures
            r@ == self@,
    {
        self.duplicate()
    }
}

} // verus!
