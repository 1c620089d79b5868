//! The update language: an ordered list of actions on paths.

use crate::condition::path::{AttributePath, IntoPath, PathView};
use crate::types::attributes::{AttrView, AttributeValue, IntoAttribute};
use vstd::prelude::*;

verus! {

/// One action of an update.
#[derive(Debug)]
#[allow(inconsistent_fields)]
pub enum UpdateAction {
    /// Sets the value at the path, creating or replacing it.
    Assign { path: AttributePath, value: AttributeValue },
    /// Sets the value at the path where the path names nothing.
    SetIfNotExists { path: AttributePath, value: AttributeValue },
    /// Removes the value at the path.
    Remove { path: AttributePath },
    /// Adds to the number or set at the path.
    Add { path: AttributePath, value: AttributeValue },
    /// Takes elements out of the set at the path.
    Delete { path: AttributePath, value: AttributeValue },
}

/// The content of an update action.
#[allow(inconsistent_fields)]
pub ghost enum ActionView {
    Assign { path: PathView, value: AttrView },
    SetIfNotExists { path: PathView, value: AttrView },
    Remove { path: PathView },
    Add { path: PathView, value: AttrView },
    Delete { path: PathView, value: AttrView },
}

impl View for UpdateAction {
    type V = ActionView;

    open spec fn view(&self) -> ActionView {
        match self {
            UpdateAction::Assign { path, value } => ActionView::Assign { path: path@, value: value@ },
            UpdateAction::SetIfNotExists { path, value } => ActionView::SetIfNotExists {
                path: path@,
                value: value@,
            },
            UpdateAction::Remove { path } => ActionView::Remove { path: path@ },
            UpdateAction::Add { path, value } => ActionView::Add { path: path@, value: value@ },
            UpdateAction::Delete { path, value } => ActionView::Delete {
                path: path@,
                value: value@,
            },
        }
    }
}

impl UpdateAction {
    /// A copy with the same content.
    pub fn duplicate(&self) -> (r: Self)
        ensures
            r@ == self@,
    {
        match self {
            UpdateAction::Assign { path, value } => UpdateAction::Assign {
                path: path.duplicate(),
                value: value.duplicate(),
            },
            UpdateAction::SetIfNotExists { path, value } => UpdateAction::SetIfNotExists {
                path: path.duplicate(),
                value: value.duplicate(),
            },
            UpdateAction::Remove { path } => UpdateAction::Remove { path: path.duplicate() },
            UpdateAction::Add { path, value } => UpdateAction::Add {
                path: path.duplicate(),
                value: value.duplicate(),
            },
            UpdateAction::Delete { path, value } => UpdateAction::Delete {
                path: path.duplicate(),
                value: value.duplicate(),
            },
        }
    }
}

impl Clone for UpdateAction {
    fn clone(&self) -> (r: Self)
        ensures
            r@ == self@,
    {
        self.duplicate()
    }
}

/// The content of a list of actions.
pub open spec fn actions_view(a: Seq<UpdateAction>) -> Seq<ActionView> {
    Seq::new(a.len(), |i: int| a[i]@)
}

/// An update: actions that are carried out from first to last.
#[derive(Debug)]
pub struct UpdateExpression {
    /// The actions, in the order in which they are carried out.
    pub actions: Vec<UpdateAction>,
}

impl View for UpdateExpression {
    type V = Seq<ActionView>;

    open spec fn view(&self) -> Seq<ActionView> {
        actions_view(self.actions@)
    }
}

impl UpdateExpression {
    /// An update without actions.
    pub fn new() -> (r: Self)
        ensures
            r@ == Seq::<ActionView>::empty(),
    {
        let r = UpdateExpression { actions: Vec::new() };
        proof {
            assert(r@ =~= Seq::<ActionView>::empty());
        }
        r
    }

    /// The update with one more action.
    pub fn with_action(self, action: UpdateAction) -> (r: Self)
        ensures
            r@ == self@.push(action@),
    {
        let mut actions = self.actions;
        actions.push(action);
        let r = UpdateExpression { actions };
        proof {
            assert(r@ =~= self@.push(action@));
        }
        r
    }

    /// The update with an `Assign` action added.
    pub fn set<P: IntoPath, V: IntoAttribute>(self, path: P, value: V) -> (r: Self)
        ensures
            r@ == self@.push(ActionView::Assign { path: path.path(), value: value.attribute() }),
    {
        self.with_action(
            UpdateAction::Assign { path: path.into_path(), value: value.into_attribute() },
        )
    }

    /// The update with a `SetIfNotExists` action added.
    pub fn set_if_not_exists<P: IntoPath, V: IntoAttribute>(self, path: P, value: V) -> (r: Self)
        ensures
            r@ == self@.push(
                ActionView::SetIfNotExists { path: path.path(), value: value.attribute() },
            ),
    {
        self.with_action(
            UpdateAction::SetIfNotExists { path: path.into_path(), value: value.into_attribute() },
        )
    }

    /// The update with a `Remove` action added.
    pub fn remove<P: IntoPath>(self, path: P) -> (r: Self)
        ensures
            r@ == self@.push(ActionView::Remove { path: path.path() }),
    {
        self.with_action(UpdateAction::Remove { path: path.into_path() })
    }

    /// The update with an `Add` action added.
    pub fn add<P: IntoPath, V: IntoAttribute>(self, path: P, value: V) -> (r: Self)
        ensures
            r@ == self@.push(ActionView::Add { path: path.path(), value: value.attribute() }),
    {
        self.with_action(
            UpdateAction::Add { path: path.into_path(), value: value.into_attribute() },
        )
    }

    /// The update with a `Delete` action added.
    pub fn delete<P: IntoPath, V: IntoAttribute>(self, path: P, value: V) -> (r: Self)
        ensures
            r@ == self@.push(ActionView::Delete { path: path.path(), value: value.attribute() }),
    {
        self.with_action(
            UpdateAction::Delete { path: path.into_path(), value: value.into_attribute() },
        )
    }

    /// The actions, in the order in which they are carried out.
    pub fn actions(&self) -> (r: &Vec<UpdateAction>)
        ensures
            actions_view(r@) == self@,
    {
        &self.actions
    }

    /// Whether the update has no action.
    pub fn is_empty(&self) -> (r: bool)
        ensures
            r == (self@.len() == 0),
    {
        self.actions.len() == 0
    }

    /// The number of actions.
    pub fn len(&self) -> (r: usize)
        ensures
            r == self@.len(),
    {
        self.actions.len()
    }

    /// A copy with the same content.
    pub fn duplicate(&self) -> (r: Self)
        ensures
            r@ == self@,
    {
        let mut out: Vec<UpdateAction> = Vec::new();
        let mut i: usize = 0;
        while i < self.actions.len()
            invariant
                i <= self.actions.len(),
                out@.len() == i,
                forall|j: int| 0 <= j < i ==> (#[trigger] out@[j])@ == self.actions@[j]@,
            decreases self.actions.len() - i,
        {
            out.push(self.actions[i].duplicate());
            i += 1;
        }
        let r = UpdateExpression { actions: out };
        proof {
            assert(r@ =~= self@);
        }
        r
    }
}

impl Clone for UpdateExpression {
    fn clone(&self) -> (r: Self)
        ensures
            r@ == self@,
    {
        self.duplicate()
    }
}

impl Default for UpdateExpression {
    fn default() -> (r: Self)
        ensures
            r@ == Seq::<ActionView>::empty(),
    {
        UpdateExpression::new()
    }
}

} // verus!
