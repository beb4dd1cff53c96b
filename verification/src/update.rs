use vstd::prelude::*;

use crate::ident::Key;
use crate::state::value::{Value, datum_cloned};

verus! {

/// A change a node asks for, to one key of the state. `C` is the
/// conversation type and `E` the type of the edits a conversation takes.
#[derive(Debug)]
pub enum Update<C, E> {
    /// Replaces the value of the key.
    Assign { key: Key, value: Value<C> },
    /// Pushes an item onto the list held by the key.
    Append { key: Key, value: Value<C> },
    /// Edits the conversation held by the key.
    Edit { key: Key, edit: E },
}

/// A conversation that edits of type `E` can change. An edit either gives
/// the edited conversation or is refused with a message; nothing is known of
/// which, beyond what the implementation does.
pub trait Transcript<E>: Sized {
    fn edit(&self, edit: &E) -> Result<Self, String>;
}

impl<C, E> Update<C, E> {
    /// The key the update is for.
    pub fn key(&self) -> (r: &Key)
        ensures
            r@ == update_key(*self),
    {
        match self {
            Update::Assign { key, .. } => key,
            Update::Append { key, .. } => key,
            Update::Edit { key, .. } => key,
        }
    }
}

/// The name of the key an update is for.
pub open spec fn update_key<C, E>(u: Update<C, E>) -> Seq<char> {
    match u {
        Update::Assign { key, .. } => key@,
        Update::Append { key, .. } => key@,
        Update::Edit { key, .. } => key@,
    }
}

impl<C: Clone, E: Clone> Clone for Update<C, E> {
    /// The same change: the same variant and key, with a copy of the value
    /// or of the edit.
    fn clone(&self) -> (r: Update<C, E>)
        ensures
            update_key(r) == update_key(*self),
            match (*self, r) {
                (Update::Assign { value: a, .. }, Update::Assign { value: b, .. }) => datum_cloned(
                    a@,
                    b@,
                ),
                (Update::Append { value: a, .. }, Update::Append { value: b, .. }) => datum_cloned(
                    a@,
                    b@,
                ),
                (Update::Edit { edit: a, .. }, Update::Edit { edit: b, .. }) => cloned(a, b),
                _ => false,
            },
    {
        match self {
            Update::Assign { key, value } => Update::Assign { key: key.clone(), value: value.clone() },
            Update::Append { key, value } => Update::Append { key: key.clone(), value: value.clone() },
            Update::Edit { key, edit } => Update::Edit { key: key.clone(), edit: edit.clone() },
        }
    }
}

} // verus!
