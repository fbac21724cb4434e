//! Adding a member to a group.

use vstd::prelude::*;
use crate::ids::{GroupId, UserId};
use crate::store::{DbError, Store};

verus! {

/// The owner of a group adds a user to it.
pub struct AddGroupMemberCommand {
    pub group_id: GroupId,
    pub user_id_to_add: UserId,
    pub current_user_id: UserId,
}

#[derive(Debug, PartialEq, Eq)]
pub enum AddGroupMemberError {
    NotOwner,
    GroupNotFound,
    AlreadyMember,
    UserNotFound,
    Database(DbError),
}

/// The outcome of the command on a store. The conditions are tested in this order:
/// the group exists, the user to add exists, the actor owns the group, the
/// user is not yet owner or member.
pub open spec fn add_group_member_outcome(s: Store, c: AddGroupMemberCommand) -> Result<(), AddGroupMemberError> {
    match s.group_by_id(c.group_id) {
        None => Err(AddGroupMemberError::GroupNotFound),
        Some(g) => if !s.has_user(c.user_id_to_add) {
            Err(AddGroupMemberError::UserNotFound)
        } else if g.owner_id != c.current_user_id {
            Err(AddGroupMemberError::NotOwner)
        } else if g.spec_contains(c.user_id_to_add) {
            Err(AddGroupMemberError::AlreadyMember)
        } else {
            Ok(())
        },
    }
}

impl AddGroupMemberCommand {
    pub fn handle(self, store: &mut Store) -> (r: Result<(), AddGroupMemberError>)
        requires
            old(store).wf(),
        ensures
            final(store).wf(),
            r == add_group_member_outcome(*old(store), self),
            r is Err ==> *final(store) == *old(store),
            r is Ok ==> old(store).member_added(*final(store), self.group_id, self.user_id_to_add),
    {
        let group = match store.get_group_by_id(&self.group_id) {
            Some(g) => g,
            None => {
                return Err(AddGroupMemberError::GroupNotFound);
            },
        };
        if !store.exists_user_by_id(&self.user_id_to_add) {
            return Err(AddGroupMemberError::UserNotFound);
        }
        if !group.is_user_owner(&self.current_user_id) {
            return Err(AddGroupMemberError::NotOwner);
        }
        if group.is_user_owner(&self.user_id_to_add) || group.is_user_member(&self.user_id_to_add) {
            return Err(AddGroupMemberError::AlreadyMember);
        }
        match store.add_member(&self.group_id, &self.user_id_to_add) {
            Ok(()) => Ok(()),
            Err(e) => Err(AddGroupMemberError::Database(e)),
        }
    }
}

} // verus!
