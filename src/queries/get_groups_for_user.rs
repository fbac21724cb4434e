//! The groups a user belongs to, one page at a time.

use vstd::prelude::*;
use vstd::string::StringExecFns;
use crate::contact::Timestamp;
use crate::entities::{Group, User};
use crate::ids::{GroupId, UserId};
use crate::names::{Groupname, Username};
use crate::pagination::Pagination;
use crate::store::{find_user_in, for_user, lemma_page_member, lemma_batch_complete, lemma_batch_user, page_of, DbError, Store};

verus! {

pub struct GetGroupsForUserQuery {
    pub current_user: UserId,
    pub pagination: Pagination,
}

#[derive(Debug, PartialEq, Eq)]
pub enum GetGroupsForUserError {
    Database(DbError),
}

/// A user as a list shows them.
pub struct UserSummary {
    pub id: UserId,
    pub name: Username,
}

/// A group as a list shows it.
pub struct GroupSummary {
    pub id: GroupId,
    pub name: Groupname,
    pub owner: UserSummary,
    pub created_at: Timestamp,
}

/// One page of groups, and how many there are in all.
pub struct Output {
    pub groups: Vec<GroupSummary>,
    pub total_items: usize,
}

/// The summary shows the group and a user of that identifier and name.
pub open spec fn summarizes(gs: GroupSummary, g: Group, owner: User) -> bool {
    &&& gs.id == g.id
    &&& gs.name == g.name
    &&& gs.created_at == g.created_at
    &&& gs.owner.id == g.owner_id
    &&& owner.id == g.owner_id
    &&& gs.owner.name == owner.name
}

/// Some user of the list is the owner shown in the summary.
pub open spec fn summarized_by_some(gs: GroupSummary, g: Group, users: Seq<User>) -> bool {
    exists|j: int| 0 <= j < users.len() && summarizes(gs, g, #[trigger] users[j])
}

/// No user of the list owns the group.
pub open spec fn owner_missing(g: Group, users: Seq<User>) -> bool {
    forall|j: int| 0 <= j < users.len() ==> (#[trigger] users[j]).id != g.owner_id
}

/// The identifiers of the owners of the groups.
fn get_user_ids(groups: &Vec<Group>) -> (r: Vec<UserId>)
    ensures
        r@.len() == groups@.len(),
        forall|i: int| 0 <= i < groups@.len() ==> r@[i] == (#[trigger] groups@[i]).owner_id,
{
    let mut ids: Vec<UserId> = Vec::new();
    let mut i: usize = 0;
    while i < groups.len()
        invariant
            i <= groups@.len(),
            ids@.len() == i,
            forall|k: int| 0 <= k < i ==> ids@[k] == (#[trigger] groups@[k]).owner_id,
        decreases groups.len() - i,
    {
        ids.push(groups[i].owner_id);
        i = i + 1;
    }
    ids
}

/// Summaries of the groups, each with its owner looked up in `users`; a
/// missing owner means the stored data is corrupted.
fn build_group_summaries(groups: &Vec<Group>, users: &Vec<User>) -> (r: Result<Vec<GroupSummary>, DbError>)
    ensures
        r is Err ==> exists|i: int| 0 <= i < groups@.len() && owner_missing(#[trigger] groups@[i], users@),
        r is Ok ==> r->Ok_0@.len() == groups@.len() && forall|i: int|
            0 <= i < groups@.len() ==> summarized_by_some(r->Ok_0@[i], #[trigger] groups@[i], users@),
        r is Err ==> r->Err_0 is CorruptedData,
{
    let mut out: Vec<GroupSummary> = Vec::new();
    let mut i: usize = 0;
    while i < groups.len()
        invariant
            i <= groups@.len(),
            out@.len() == i,
            forall|k: int| 0 <= k < i ==> summarized_by_some(out@[k], #[trigger] groups@[k], users@),
        decreases groups.len() - i,
    {
        let owner = match find_user_in(users, groups[i].owner_id) {
            Some(j) => &users[j],
            None => {
                assert(owner_missing(groups@[i as int], users@));
                return Err(DbError::CorruptedData { msg: String::from_str("corrupted data: missing group owner") });
            },
        };
        let g = &groups[i];
        let summary = GroupSummary {
            id: g.id,
            name: g.name.clone(),
            owner: UserSummary { id: owner.id, name: owner.name.clone() },
            created_at: g.created_at,
        };
        let ghost before = out@;
        out.push(summary);
        proof {
            let j = choose|j: int| 0 <= j < users@.len() && users@[j] == *owner;
            assert(summarizes(out@[i as int], groups@[i as int], users@[j]));
            assert forall|k: int| 0 <= k <= i implies summarized_by_some(out@[k], #[trigger] groups@[k], users@) by {
                if k < i {
                    assert(out@[k] == before[k]);
                }
            }
        }
        i = i + 1;
    }
    Ok(out)
}

impl GetGroupsForUserQuery {
    /// The page of groups that count the caller as owner or member, newest
    /// first, each with its owner's name, and the number of such groups.
    pub fn handle(self, store: &Store) -> (r: Result<Output, GetGroupsForUserError>)
        requires
            store.wf(),
        ensures
            ({
                let page = page_of(store.groups().filter(for_user(self.current_user)), self.pagination.spec_window());
                &&& r is Ok
                &&& r is Ok ==> r->Ok_0.total_items == store.groups().filter(for_user(self.current_user)).len()
                    && r->Ok_0.groups@.len() == page.len()
                    && forall|i: int| 0 <= i < page.len() ==> summarizes(r->Ok_0.groups@[i], #[trigger] page[i],
                        store.user_by_id(page[i].owner_id)->Some_0) && store.has_user(page[i].owner_id)
            }),
    {
        let groups = store.get_all_for_user(&self.current_user, self.pagination.to_db());
        let total_groups = store.count_all_for_user(&self.current_user);
        let ghost page = page_of(store.groups().filter(for_user(self.current_user)), self.pagination.spec_window());
        proof {
            assert(groups@.len() == page.len()) by {
                assert(crate::store::group_views(groups@).len() == crate::store::group_views(page).len());
            }
            assert forall|i: int| 0 <= i < page.len() implies (#[trigger] groups@[i])@ == page[i]@ by {
                assert(crate::store::group_views(groups@)[i] == crate::store::group_views(page)[i]);
            }
        }
        if groups.len() == 0 {
            return Ok(Output { groups: Vec::new(), total_items: total_groups });
        }
        let user_ids = get_user_ids(&groups);
        let users = store.get_all_in_ids(&user_ids);
        match build_group_summaries(&groups, &users) {
            Ok(summaries) => {
                proof {
                    assert forall|i: int| 0 <= i < page.len() implies summarizes(summaries@[i], #[trigger] page[i],
                        store.user_by_id(page[i].owner_id)->Some_0) && store.has_user(page[i].owner_id) by {
                        assert(summarized_by_some(summaries@[i], groups@[i], users@));
                        let j = choose|j: int| 0 <= j < users@.len() && summarizes(summaries@[i], groups@[i], #[trigger] users@[j]);
                        assert(users@.contains(users@[j]));
                        lemma_batch_user(*store, user_ids@, users@[j]);
                        assert(groups@[i]@ == page[i]@);
                    }
                }
                Ok(Output { groups: summaries, total_items: total_groups })
            },
            Err(e) => {
                proof {
                    let i = choose|i: int| 0 <= i < groups@.len() && owner_missing(#[trigger] groups@[i], users@);
                    assert(groups@[i]@ == page[i]@);
                    lemma_page_member(store.groups(), for_user(self.current_user), self.pagination.spec_window(), i);
                    let k = choose|k: int| 0 <= k < store.groups().len() && store.groups()[k] == page[i];
                    assert(store.group_refs_ok(store.groups()[k]));
                    if store.has_user(page[i].owner_id) {
                        assert(user_ids@[i] == groups@[i].owner_id);
                        assert(user_ids@.contains(groups@[i].owner_id));
                        lemma_batch_complete(*store, user_ids@, page[i].owner_id);
                        let u = store.user_by_id(page[i].owner_id)->Some_0;
                        let j = choose|j: int| 0 <= j < users@.len() && users@[j] == u;
                        assert(users@[j].id == groups@[i].owner_id);
                    }
                }
                Err(GetGroupsForUserError::Database(e))
            },
        }
    }
}

} // verus!
