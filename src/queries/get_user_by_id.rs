//! Looking a user up by identifier.

use vstd::prelude::*;
use crate::entities::User;
use crate::ids::UserId;
use crate::store::{DbError, Store};

verus! {

pub struct GetUserByIdQuery {
    pub id: UserId,
}

#[derive(Debug, PartialEq, Eq)]
pub enum GetUserByIdError {
    Database(DbError),
}

impl GetUserByIdQuery {
    /// The user with this identifier, if any.
    pub fn handle(self, store: &Store) -> (r: Result<Option<User>, GetUserByIdError>)
        requires
            store.wf(),
        ensures
            r == Ok::<Option<User>, GetUserByIdError>(store.user_by_id(self.id)),
    {
        Ok(store.get_user_by_id(&self.id))
    }
}

} // verus!
