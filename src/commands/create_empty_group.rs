//! Creating a group with no members besides its owner.

use vstd::prelude::*;
use crate::contact::Timestamp;
use crate::entities::{Group, GroupView};
use crate::ids::{GroupId, UserId};
use crate::names::Groupname;
use crate::store::{group_views, DbError, Store};

verus! {

/// A user creates a group that they own.
pub struct CreateEmptyGroupCommand {
    pub groupname: Groupname,
    pub owner_id: UserId,
}

#[derive(Debug, PartialEq, Eq)]
pub enum CreateEmptyGroupError {
    NameNotAvailable,
    OwnerNotFound,
    Database(DbError),
}

/// The domain conditions, tested in order: the owner exists, then the owner has no
/// group of exactly this name.
pub open spec fn create_empty_group_rule(s: Store, c: CreateEmptyGroupCommand) -> Result<(), CreateEmptyGroupError> {
    if !s.has_user(c.owner_id) {
        Err(CreateEmptyGroupError::OwnerNotFound)
    } else if s.name_taken(c.owner_id, c.groupname@) {
        Err(CreateEmptyGroupError::NameNotAvailable)
    } else {
        Ok(())
    }
}

/// `after` is `before` with one more group, at its place in page order.
pub open spec fn group_added(before: Store, after: Store, g: GroupView) -> bool {
    &&& after.users() == before.users()
    &&& after.entries() == before.entries()
    &&& exists|p: int| 0 <= p <= before.groups().len()
        && group_views(after.groups()) == group_views(before.groups()).insert(p, g)
}

impl CreateEmptyGroupCommand {
    /// Creates the group with a fresh identifier and the current time.
    pub fn handle(self, store: &mut Store) -> (r: Result<GroupId, CreateEmptyGroupError>)
        requires
            old(store).wf(),
        ensures
            final(store).wf(),
            create_empty_group_rule(*old(store), self) matches Err(e) ==> r == Err::<GroupId, CreateEmptyGroupError>(e),
            create_empty_group_rule(*old(store), self) is Ok ==> r is Ok || r == Err::<GroupId, CreateEmptyGroupError>(
                CreateEmptyGroupError::Database(DbError::UniqueViolation),
            ),
            create_empty_group_rule(*old(store), self) is Ok && old(store).groups().len() == 0 ==> r is Ok,
            r == Err::<GroupId, CreateEmptyGroupError>(CreateEmptyGroupError::Database(DbError::UniqueViolation))
                ==> old(store).groups().len() > 0,
            r is Err ==> *final(store) == *old(store),
            r is Ok ==> create_empty_group_rule(*old(store), self) is Ok && exists|t: Timestamp|
                #[trigger] group_added(*old(store), *final(store),
                    GroupView { id: r->Ok_0, name: self.groupname, owner_id: self.owner_id, members: Seq::empty(), created_at: t }),
    {
        let id = GroupId::new_random();
        let created_at = Timestamp::now();
        let ghost name = self.groupname;
        let ghost owner_id = self.owner_id;
        let ghost c = self;
        let r = self.handle_with(store, id, created_at);
        proof {
            if r is Ok {
                assert(create_empty_group_rule(*old(store), c) is Ok);
                assert(r->Ok_0 == id);
                assert(group_added(*old(store), *store,
                    GroupView { id, name, owner_id, members: Seq::empty(), created_at }));
            }
        }
        r
    }

    /// Creates the group with the given identifier and creation time.
    pub fn handle_with(self, store: &mut Store, id: GroupId, created_at: Timestamp) -> (r: Result<GroupId, CreateEmptyGroupError>)
        requires
            old(store).wf(),
        ensures
            final(store).wf(),
            match create_empty_group_rule(*old(store), self) {
                Err(e) => r == Err::<GroupId, CreateEmptyGroupError>(e) && *final(store) == *old(store),
                Ok(()) => if old(store).has_group(id) {
                    r == Err::<GroupId, CreateEmptyGroupError>(CreateEmptyGroupError::Database(DbError::UniqueViolation))
                        && *final(store) == *old(store)
                } else {
                    r == Ok::<GroupId, CreateEmptyGroupError>(id) && group_added(*old(store), *final(store),
                        GroupView { id, name: self.groupname, owner_id: self.owner_id, members: Seq::empty(), created_at })
                },
            },
    {
        if !store.exists_user_by_id(&self.owner_id) {
            return Err(CreateEmptyGroupError::OwnerNotFound);
        }
        if store.exists_by_name_for_owner(&self.groupname, &self.owner_id) {
            return Err(CreateEmptyGroupError::NameNotAvailable);
        }
        let ghost name = self.groupname;
        let group = Group::new(id, self.groupname, self.owner_id, Vec::new(), created_at);
        let ghost g = group;
        let ghost old_groups = store.groups();
        assert(g.members@.len() == 0);
        match store.create_group(group) {
            Ok(()) => {
                proof {
                    let p = choose|p: int| 0 <= p <= old_groups.len() && store.groups() == old_groups.insert(p, g);
                    assert(group_views(store.groups()) =~= group_views(old_groups).insert(p, g@));
                    assert(g@ == GroupView { id, name, owner_id: self.owner_id, members: Seq::empty(), created_at });
                }
                Ok(id)
            },
            Err(e) => Err(CreateEmptyGroupError::Database(e)),
        }
    }
}

} // verus!
