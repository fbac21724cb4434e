//! Registering a user.

use vstd::prelude::*;
use crate::contact::{Email, Timestamp};
use crate::entities::User;
use crate::ids::UserId;
use crate::names::Username;
use crate::role::Role;
use crate::store::{DbError, Store};

verus! {

/// Registers a user under an e-mail address that is not taken yet.
pub struct CreateUserCommand {
    pub email: Email,
    pub name: Username,
}

#[derive(Debug, PartialEq, Eq)]
pub enum CreateUserError {
    EmailAlreadyTaken,
    Database(DbError),
}

impl CreateUserCommand {
    /// Registers the user with the role `User`, a fresh identifier and the
    /// current time.
    pub fn handle(self, store: &mut Store) -> (r: Result<UserId, CreateUserError>)
        requires
            old(store).wf(),
        ensures
            final(store).wf(),
            old(store).email_taken(self.email@) ==> r == Err::<UserId, CreateUserError>(CreateUserError::EmailAlreadyTaken),
            !old(store).email_taken(self.email@) ==> r is Ok || r == Err::<UserId, CreateUserError>(
                CreateUserError::Database(DbError::UniqueViolation),
            ),
            !old(store).email_taken(self.email@) && old(store).users().len() == 0 ==> r is Ok,
            r == Err::<UserId, CreateUserError>(CreateUserError::Database(DbError::UniqueViolation))
                ==> old(store).users().len() > 0,
            r is Err ==> *final(store) == *old(store),
            r is Ok ==> !old(store).has_user(r->Ok_0) && final(store).users() == old(store).users().push(
                User { id: r->Ok_0, name: self.name, email: self.email, role: Role::User, created_at: final(store).users().last().created_at },
            ) && final(store).groups() == old(store).groups() && final(store).entries() == old(store).entries(),
    {
        let id = UserId::new_random();
        let created_at = Timestamp::now();
        self.handle_with(store, id, created_at)
    }

    /// Registers the user with the given identifier and creation time.
    pub fn handle_with(self, store: &mut Store, id: UserId, created_at: Timestamp) -> (r: Result<UserId, CreateUserError>)
        requires
            old(store).wf(),
        ensures
            final(store).wf(),
            old(store).email_taken(self.email@) ==> r == Err::<UserId, CreateUserError>(CreateUserError::EmailAlreadyTaken)
                && *final(store) == *old(store),
            !old(store).email_taken(self.email@) && old(store).has_user(id) ==> r == Err::<UserId, CreateUserError>(
                CreateUserError::Database(DbError::UniqueViolation),
            ) && *final(store) == *old(store),
            !old(store).email_taken(self.email@) && !old(store).has_user(id) ==> r == Ok::<UserId, CreateUserError>(id)
                && final(store).users() == old(store).users().push(
                User { id, name: self.name, email: self.email, role: Role::User, created_at },
            ) && final(store).groups() == old(store).groups() && final(store).entries() == old(store).entries(),
    {
        if store.email_exists(&self.email) {
            return Err(CreateUserError::EmailAlreadyTaken);
        }
        let user = User::new(id, self.name, self.email, Role::User, created_at);
        match store.create_user(user) {
            Ok(()) => Ok(id),
            Err(e) => Err(CreateUserError::Database(e)),
        }
    }
}

} // verus!
