//! The active expenses of a group, one page at a time.

use vstd::prelude::*;
use vstd::string::StringExecFns;
use crate::contact::Timestamp;
use crate::entities::{ExpenseEntry, User};
use crate::ids::{ExpenseId, GroupId, UserId};
use crate::money::Money;
use crate::names::Username;
use crate::pagination::Pagination;
use crate::store::{active_in, entry_views, find_user_in, lemma_page_member, lemma_batch_complete, lemma_batch_user, listed_in, page_of, DbError, Store};

verus! {

pub struct GetExpensesForGroupQuery {
    pub group_id: GroupId,
    pub current_user: UserId,
    pub pagination: Pagination,
}

#[derive(Debug, PartialEq, Eq)]
pub enum GetExpensesForGroupError {
    GroupNotFound,
    Forbidden,
    Database(DbError),
}

/// A user as an expense shows them.
pub struct UserSummary {
    pub id: UserId,
    pub name: Username,
}

/// An expense as the group's list shows it.
pub struct GroupExpense {
    pub id: ExpenseId,
    pub payer: UserSummary,
    pub participants: Vec<UserSummary>,
    pub total: Money,
    pub occurred_at: Timestamp,
}

/// One page of expenses, and how many active expenses the group has.
pub struct Output {
    pub expenses: Vec<GroupExpense>,
    pub total_items: usize,
}

/// Some user of the list has this identifier and the summary's name.
pub open spec fn summary_from(us: UserSummary, id: UserId, users: Seq<User>) -> bool {
    us.id == id && exists|j: int| 0 <= j < users.len() && (#[trigger] users[j]).id == id && us.name == users[j].name
}

/// No user of the list has this identifier.
pub open spec fn missing_from(id: UserId, users: Seq<User>) -> bool {
    forall|j: int| 0 <= j < users.len() ==> (#[trigger] users[j]).id != id
}

/// The expense shows the entry, with names taken from the list of users.
pub open spec fn shows_from(x: GroupExpense, e: ExpenseEntry, users: Seq<User>) -> bool {
    &&& x.id == e.expense_id
    &&& x.total == e.total
    &&& x.occurred_at == e.occurred_at
    &&& summary_from(x.payer, e.payer_id, users)
    &&& x.participants@.len() == e.participants@.len()
    &&& forall|k: int| 0 <= k < e.participants@.len() ==> summary_from(#[trigger] x.participants@[k], e.participants@[k], users)
}

/// A user the entry names is missing from the list.
pub open spec fn someone_missing(e: ExpenseEntry, users: Seq<User>) -> bool {
    missing_from(e.payer_id, users) || exists|k: int|
        0 <= k < e.participants@.len() && missing_from(#[trigger] e.participants@[k], users)
}

/// The summary shows the stored user with this identifier.
pub open spec fn summary_of(us: UserSummary, id: UserId, s: Store) -> bool {
    us.id == id && s.has_user(id) && us.name == s.user_by_id(id)->Some_0.name
}

/// The expense shows the entry, with the names of the stored users.
pub open spec fn shows(x: GroupExpense, e: ExpenseEntry, s: Store) -> bool {
    &&& x.id == e.expense_id
    &&& x.total == e.total
    &&& x.occurred_at == e.occurred_at
    &&& summary_of(x.payer, e.payer_id, s)
    &&& x.participants@.len() == e.participants@.len()
    &&& forall|k: int| 0 <= k < e.participants@.len() ==> summary_of(#[trigger] x.participants@[k], e.participants@[k], s)
}

/// Every user the entry names is stored.
pub open spec fn all_known(e: ExpenseEntry, s: Store) -> bool {
    s.has_user(e.payer_id) && forall|k: int| 0 <= k < e.participants@.len() ==> s.has_user(#[trigger] e.participants@[k])
}

proof fn lemma_push_keeps(s: Seq<UserId>, x: UserId, y: UserId)
    requires
        s.contains(y),
    ensures
        s.push(x).contains(y),
{
    let j = choose|j: int| 0 <= j < s.len() && s[j] == y;
    assert(s.push(x)[j] == y);
}

/// The identifiers of the payers and participants of the entries.
fn get_user_ids(entries: &Vec<ExpenseEntry>) -> (r: Vec<UserId>)
    ensures
        forall|i: int| 0 <= i < entries@.len() ==> r@.contains((#[trigger] entries@[i]).payer_id),
        forall|i: int, k: int|
            0 <= i < entries@.len() && 0 <= k < entries@[i].participants@.len() ==> r@.contains(
                #[trigger] entries@[i].participants@[k],
            ),
{
    let mut ids: Vec<UserId> = Vec::new();
    let mut i: usize = 0;
    while i < entries.len()
        invariant
            i <= entries@.len(),
            forall|a: int| 0 <= a < i ==> ids@.contains((#[trigger] entries@[a]).payer_id),
            forall|a: int, k: int|
                0 <= a < i && 0 <= k < entries@[a].participants@.len() ==> ids@.contains(
                    #[trigger] entries@[a].participants@[k],
                ),
        decreases entries.len() - i,
    {
        let e = &entries[i];
        let ghost before = ids@;
        ids.push(e.payer_id);
        proof {
            assert(ids@[before.len() as int] == e.payer_id);
            assert forall|a: int| 0 <= a < i implies ids@.contains((#[trigger] entries@[a]).payer_id) by {
                lemma_push_keeps(before, e.payer_id, entries@[a].payer_id);
            }
            assert forall|a: int, k: int| 0 <= a < i && 0 <= k < entries@[a].participants@.len() implies ids@.contains(
                #[trigger] entries@[a].participants@[k]) by {
                lemma_push_keeps(before, e.payer_id, entries@[a].participants@[k]);
            }
        }
        let mut m: usize = 0;
        while m < e.participants.len()
            invariant
                i < entries@.len(),
                *e == entries@[i as int],
                m <= e.participants@.len(),
                forall|a: int| 0 <= a <= i ==> ids@.contains((#[trigger] entries@[a]).payer_id),
                forall|a: int, k: int|
                    0 <= a < i && 0 <= k < entries@[a].participants@.len() ==> ids@.contains(
                        #[trigger] entries@[a].participants@[k],
                    ),
                forall|k: int| 0 <= k < m ==> ids@.contains(#[trigger] e.participants@[k]),
            decreases e.participants@.len() - m,
        {
            let ghost before = ids@;
            ids.push(e.participants[m]);
            proof {
                assert(ids@[before.len() as int] == e.participants@[m as int]);
                assert forall|a: int| 0 <= a <= i implies ids@.contains((#[trigger] entries@[a]).payer_id) by {
                    lemma_push_keeps(before, e.participants@[m as int], entries@[a].payer_id);
                }
                assert forall|a: int, k: int| 0 <= a < i && 0 <= k < entries@[a].participants@.len() implies ids@.contains(
                    #[trigger] entries@[a].participants@[k]) by {
                    lemma_push_keeps(before, e.participants@[m as int], entries@[a].participants@[k]);
                }
                assert forall|k: int| 0 <= k <= m implies ids@.contains(#[trigger] e.participants@[k]) by {
                    if k < m {
                        lemma_push_keeps(before, e.participants@[m as int], e.participants@[k]);
                    }
                }
            }
            m = m + 1;
        }
        i = i + 1;
    }
    ids
}

fn corrupted(what: &str) -> (r: DbError)
    ensures
        r is CorruptedData,
{
    DbError::CorruptedData { msg: String::from_str(what) }
}

/// The summaries of an entry's participants, looked up in `users`.
fn get_participants(entry: &ExpenseEntry, users: &Vec<User>) -> (r: Result<Vec<UserSummary>, DbError>)
    ensures
        r is Ok ==> r->Ok_0@.len() == entry.participants@.len() && forall|k: int|
            0 <= k < entry.participants@.len() ==> summary_from(#[trigger] r->Ok_0@[k], entry.participants@[k], users@),
        r is Err ==> r->Err_0 is CorruptedData && exists|k: int|
            0 <= k < entry.participants@.len() && missing_from(#[trigger] entry.participants@[k], users@),
{
    let mut out: Vec<UserSummary> = Vec::new();
    let mut k: usize = 0;
    while k < entry.participants.len()
        invariant
            k <= entry.participants@.len(),
            out@.len() == k,
            forall|a: int| 0 <= a < k ==> summary_from(#[trigger] out@[a], entry.participants@[a], users@),
        decreases entry.participants@.len() - k,
    {
        let id = entry.participants[k];
        let user = match find_user_in(users, id) {
            Some(j) => &users[j],
            None => {
                assert(missing_from(entry.participants@[k as int], users@));
                return Err(corrupted("corrupted data: participant is not here"));
            },
        };
        let ghost before = out@;
        out.push(UserSummary { id: user.id, name: user.name.clone() });
        proof {
            assert forall|a: int| 0 <= a <= k implies summary_from(#[trigger] out@[a], entry.participants@[a], users@) by {
                if a < k {
                    assert(out@[a] == before[a]);
                } else {
                    let j = choose|j: int| 0 <= j < users@.len() && users@[j] == *user;
                    assert(users@[j].id == id);
                }
            }
        }
        k = k + 1;
    }
    Ok(out)
}

/// The expenses of the entries, with names looked up in `users`; a user
/// missing there means the stored data is corrupted.
fn build_group_expenses(entries: &Vec<ExpenseEntry>, users: &Vec<User>) -> (r: Result<Vec<GroupExpense>, DbError>)
    ensures
        r is Ok ==> r->Ok_0@.len() == entries@.len() && forall|i: int|
            0 <= i < entries@.len() ==> shows_from(r->Ok_0@[i], #[trigger] entries@[i], users@),
        r is Err ==> r->Err_0 is CorruptedData && exists|i: int|
            0 <= i < entries@.len() && someone_missing(#[trigger] entries@[i], users@),
{
    let mut out: Vec<GroupExpense> = Vec::new();
    let mut i: usize = 0;
    while i < entries.len()
        invariant
            i <= entries@.len(),
            out@.len() == i,
            forall|a: int| 0 <= a < i ==> shows_from(out@[a], #[trigger] entries@[a], users@),
        decreases entries.len() - i,
    {
        let e = &entries[i];
        let payer = match find_user_in(users, e.payer_id) {
            Some(j) => &users[j],
            None => {
                assert(someone_missing(entries@[i as int], users@));
                return Err(corrupted("corrupted data: payer is not here"));
            },
        };
        let participants = match get_participants(e, users) {
            Ok(p) => p,
            Err(err) => {
                assert(someone_missing(entries@[i as int], users@));
                return Err(err);
            },
        };
        let ghost before = out@;
        let x = GroupExpense {
            id: e.expense_id,
            payer: UserSummary { id: payer.id, name: payer.name.clone() },
            participants,
            total: e.total,
            occurred_at: e.occurred_at,
        };
        proof {
            let j = choose|j: int| 0 <= j < users@.len() && users@[j] == *payer;
            assert(users@[j].id == e.payer_id);
            assert(shows_from(x, entries@[i as int], users@));
        }
        out.push(x);
        proof {
            assert forall|a: int| 0 <= a <= i implies shows_from(out@[a], #[trigger] entries@[a], users@) by {
                if a < i {
                    assert(out@[a] == before[a]);
                }
            }
        }
        i = i + 1;
    }
    Ok(out)
}

/// A summary built from a batch fetched by `get_all_in_ids` names the stored user.
proof fn lemma_summary_in_store(s: Store, ids: Seq<UserId>, users: Seq<User>, us: UserSummary, id: UserId)
    requires
        s.wf(),
        users == s.users().filter(listed_in(ids)),
        summary_from(us, id, users),
    ensures
        summary_of(us, id, s),
{
    let j = choose|j: int| 0 <= j < users.len() && (#[trigger] users[j]).id == id && us.name == users[j].name;
    assert(users.contains(users[j]));
    lemma_batch_user(s, ids, users[j]);
}

/// An identifier that is listed and stored is in the batch.
proof fn lemma_not_missing(s: Store, ids: Seq<UserId>, users: Seq<User>, id: UserId)
    requires
        s.wf(),
        users == s.users().filter(listed_in(ids)),
        ids.contains(id),
        s.has_user(id),
    ensures
        !missing_from(id, users),
{
    lemma_batch_complete(s, ids, id);
    let u = s.user_by_id(id)->Some_0;
    let j = choose|j: int| 0 <= j < users.len() && users[j] == u;
    assert(users[j].id == id);
}

impl GetExpensesForGroupQuery {
    /// The page of the group's active entries, with the names of payers and
    /// participants, and the number of active entries; only the owner and
    /// the members may look.
    pub fn handle(self, store: &Store) -> (r: Result<Output, GetExpensesForGroupError>)
        requires
            store.wf(),
        ensures
            match store.group_by_id(self.group_id) {
                None => r == Err::<Output, GetExpensesForGroupError>(GetExpensesForGroupError::GroupNotFound),
                Some(g) => if !g.spec_contains(self.current_user) {
                    r == Err::<Output, GetExpensesForGroupError>(GetExpensesForGroupError::Forbidden)
                } else {
                    let page = page_of(store.entries().filter(active_in(self.group_id)), self.pagination.spec_window());
                    &&& r is Ok
                    &&& r is Ok ==> r->Ok_0.total_items == store.entries().filter(active_in(self.group_id)).len()
                        && r->Ok_0.expenses@.len() == page.len()
                        && forall|i: int| 0 <= i < page.len() ==> shows(r->Ok_0.expenses@[i], #[trigger] page[i], *store)
                },
            },
    {
        let group = match store.get_group_by_id(&self.group_id) {
            Some(g) => g,
            None => {
                return Err(GetExpensesForGroupError::GroupNotFound);
            },
        };
        if !group.contains_user(&self.current_user) {
            return Err(GetExpensesForGroupError::Forbidden);
        }
        let entries = store.get_all_active_for_group(&self.group_id, self.pagination.to_db());
        let total = store.count_all_active_for_group(&self.group_id);
        let ghost page = page_of(store.entries().filter(active_in(self.group_id)), self.pagination.spec_window());
        proof {
            assert(entries@.len() == page.len()) by {
                assert(entry_views(entries@).len() == entry_views(page).len());
            }
            assert forall|i: int| 0 <= i < page.len() implies (#[trigger] entries@[i])@ == page[i]@ by {
                assert(entry_views(entries@)[i] == entry_views(page)[i]);
            }
        }
        let user_ids = get_user_ids(&entries);
        let users = store.get_all_in_ids(&user_ids);
        match build_group_expenses(&entries, &users) {
            Ok(expenses) => {
                proof {
                    assert forall|i: int| 0 <= i < page.len() implies shows(expenses@[i], #[trigger] page[i], *store) by {
                        let e = entries@[i];
                        assert(e@ == page[i]@);
                        assert(shows_from(expenses@[i], e, users@));
                        lemma_summary_in_store(*store, user_ids@, users@, expenses@[i].payer, e.payer_id);
                        assert forall|k: int| 0 <= k < e.participants@.len() implies summary_of(
                            #[trigger] expenses@[i].participants@[k], e.participants@[k], *store) by {
                            lemma_summary_in_store(*store, user_ids@, users@, expenses@[i].participants@[k], e.participants@[k]);
                        }
                    }
                }
                Ok(Output { expenses, total_items: total })
            },
            Err(err) => {
                proof {
                    let i = choose|i: int| 0 <= i < entries@.len() && someone_missing(#[trigger] entries@[i], users@);
                    let e = entries@[i];
                    assert(e@ == page[i]@);
                    lemma_page_member(store.entries(), active_in(self.group_id), self.pagination.spec_window(), i);
                    let k = choose|k: int| 0 <= k < store.entries().len() && store.entries()[k] == page[i];
                    assert(store.entry_refs_ok(store.entries()[k]@));
                    assert forall|q: int| 0 <= q < page[i].participants@.len() implies store.has_user(
                        #[trigger] page[i].participants@[q]) by {
                        assert(store.entries()[k]@.participants[q] == page[i].participants@[q]);
                    }
                    if all_known(page[i], *store) {
                        lemma_not_missing(*store, user_ids@, users@, e.payer_id);
                        assert forall|k: int| 0 <= k < e.participants@.len() implies !missing_from(
                            #[trigger] e.participants@[k], users@) by {
                            assert(e.participants@[k] == page[i].participants@[k]);
                            lemma_not_missing(*store, user_ids@, users@, e.participants@[k]);
                        }
                    }
                }
                Err(GetExpensesForGroupError::Database(err))
            },
        }
    }
}

} // verus!
