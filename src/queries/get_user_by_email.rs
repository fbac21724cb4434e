//! Looking a user up by e-mail address.

use vstd::prelude::*;
use crate::contact::Email;
use crate::entities::User;
use crate::store::{DbError, Store};

verus! {

pub struct GetUserByEmailQuery {
    pub email: Email,
}

#[derive(Debug, PartialEq, Eq)]
pub enum GetUserByEmailError {
    Database(DbError),
}

impl GetUserByEmailQuery {
    /// The user registered under this address, if any.
    pub fn handle(self, store: &Store) -> (r: Result<Option<User>, GetUserByEmailError>)
        requires
            store.wf(),
        ensures
            r == Ok::<Option<User>, GetUserByEmailError>(store.user_by_email(self.email@)),
    {
        Ok(store.get_user_by_email(&self.email))
    }
}

} // verus!
