//! Recording a new expense in a group.

use vstd::prelude::*;
use crate::contact::Timestamp;
use crate::entities::{ExpenseEntry, ExpenseEntryStatus, ExpenseEntryView, Group};
use crate::ids::{ExpenseEntryId, ExpenseId, GroupId, UserId};
use crate::money::Money;
use crate::store::{entry_views, lemma_filter_step, DbError, Store};

verus! {

/// Who shares an expense.
pub enum IncludeParticipants {
    /// Everyone with standing in the group when the expense is recorded.
    All,
    /// These users, each of whom must be the owner or a member.
    List { participants: Vec<UserId> },
}

impl IncludeParticipants {
    /// A listed selection names each user once.
    pub open spec fn wf(&self) -> bool {
        match self {
            IncludeParticipants::All => true,
            IncludeParticipants::List { participants } => participants@.no_duplicates(),
        }
    }
}

/// A group member records an expense paid by a member.
pub struct CreateExpenseCommand {
    pub group_id: GroupId,
    pub payer_id: UserId,
    pub author_id: UserId,
    pub participants: IncludeParticipants,
    pub occured_at: Timestamp,
    pub total: Money,
}

#[derive(Debug, PartialEq, Eq)]
pub enum CreateExpenseError {
    GroupNotFound,
    InvalidTotal,
    PayerIsNotGroupMember,
    AuthorNotInGroup,
    ParticipantNotFound,
    Database(DbError),
}

/// Everyone with standing in a group: the owner, then the members.
pub open spec fn everyone(g: Group) -> Seq<UserId> {
    seq![g.owner_id] + g.members@
}

/// Everyone but the given user.
pub open spec fn other_than(p: UserId) -> spec_fn(UserId) -> bool {
    |u: UserId| u != p
}

/// The users that a selection names in a group, or why it names none.
pub open spec fn selected(g: Group, sel: IncludeParticipants) -> Result<Seq<UserId>, CreateExpenseError> {
    match sel {
        IncludeParticipants::All => Ok(everyone(g)),
        IncludeParticipants::List { participants } => if forall|k: int|
            0 <= k < participants@.len() ==> g.spec_contains(#[trigger] participants@[k]) {
            Ok(participants@)
        } else {
            Err(CreateExpenseError::ParticipantNotFound)
        },
    }
}

/// The conditions of the command, tested in order, and the participants it records:
/// the total is not negative, the group exists, payer and author have
/// standing in it, every listed participant does; the payer is then taken
/// out of the selection.
pub open spec fn create_expense_rule(s: Store, c: CreateExpenseCommand) -> Result<Seq<UserId>, CreateExpenseError> {
    if c.total.spec_cents() < 0 {
        Err(CreateExpenseError::InvalidTotal)
    } else {
        match s.group_by_id(c.group_id) {
            None => Err(CreateExpenseError::GroupNotFound),
            Some(g) => if !g.spec_contains(c.payer_id) {
                Err(CreateExpenseError::PayerIsNotGroupMember)
            } else if !g.spec_contains(c.author_id) {
                Err(CreateExpenseError::AuthorNotInGroup)
            } else {
                match selected(g, c.participants) {
                    Err(e) => Err(e),
                    Ok(users) => Ok(users.filter(other_than(c.payer_id))),
                }
            },
        }
    }
}

/// The entry that the command records, given its identifiers and time.
pub open spec fn recorded_entry(
    c: CreateExpenseCommand,
    id: ExpenseEntryId,
    expense_id: ExpenseId,
    participants: Seq<UserId>,
    created_at: Timestamp,
) -> ExpenseEntryView {
    ExpenseEntryView {
        id,
        expense_id,
        group_id: c.group_id,
        payer_id: c.payer_id,
        participants,
        status: ExpenseEntryStatus::Active,
        total: c.total,
        author_id: c.author_id,
        occurred_at: c.occured_at,
        created_at,
    }
}

/// Whether every listed user is the owner or a member of the group.
fn all_participants_in_group(group: &Group, participants: &Vec<UserId>) -> (r: bool)
    ensures
        r == forall|k: int| 0 <= k < participants@.len() ==> group.spec_contains(#[trigger] participants@[k]),
{
    let mut i: usize = 0;
    while i < participants.len()
        invariant
            i <= participants@.len(),
            forall|k: int| 0 <= k < i ==> group.spec_contains(#[trigger] participants@[k]),
        decreases participants.len() - i,
    {
        if !group.contains_user(&participants[i]) {
            return false;
        }
        i = i + 1;
    }
    true
}

/// The list without one user; order is kept.
fn without(v: &Vec<UserId>, p: UserId) -> (r: Vec<UserId>)
    requires
        v@.no_duplicates(),
    ensures
        r@ == v@.filter(other_than(p)),
        r@.no_duplicates(),
{
    let ghost pred = other_than(p);
    let mut out: Vec<UserId> = Vec::new();
    let mut i: usize = 0;
    while i < v.len()
        invariant
            i <= v@.len(),
            v@.no_duplicates(),
            pred == other_than(p),
            out@ == v@.subrange(0, i as int).filter(pred),
            out@.no_duplicates(),
            forall|x: UserId| out@.contains(x) ==> v@.subrange(0, i as int).contains(x),
        decreases v.len() - i,
    {
        proof {
            lemma_filter_step(v@, pred, i as int);
        }
        let ghost old_out = out@;
        if v[i] != p {
            proof {
                if out@.contains(v@[i as int]) {
                    let j = choose|j: int| 0 <= j < i && v@.subrange(0, i as int)[j] == v@[i as int];
                    assert(v@[j] == v@[i as int]);
                }
            }
            out.push(v[i]);
        }
        proof {
            assert forall|x: UserId| out@.contains(x) implies v@.subrange(0, i + 1).contains(x) by {
                let j = choose|j: int| 0 <= j < out@.len() && out@[j] == x;
                if j < old_out.len() {
                    assert(old_out[j] == x);
                    assert(old_out.contains(x));
                    assert(v@.subrange(0, i as int).contains(x));
                    let k = choose|k: int| 0 <= k < i && v@.subrange(0, i as int)[k] == x;
                    assert(v@.subrange(0, i + 1)[k] == x);
                } else {
                    assert(v@.subrange(0, i + 1)[i as int] == x);
                }
            }
        }
        i = i + 1;
    }
    assert(v@.subrange(0, v@.len() as int) =~= v@);
    out
}

/// Everyone the recorded entry names is stored, and so is its group.
pub proof fn lemma_recorded_refs(s: Store, c: CreateExpenseCommand, parts: Seq<UserId>)
    requires
        s.wf(),
        create_expense_rule(s, c) == Ok::<Seq<UserId>, CreateExpenseError>(parts),
    ensures
        s.has_group(c.group_id),
        s.has_user(c.payer_id),
        s.has_user(c.author_id),
        forall|k: int| 0 <= k < parts.len() ==> s.has_user(#[trigger] parts[k]),
{
    let pos = s.group_pos(c.group_id);
    let g = s.groups()[pos];
    assert(s.group_refs_ok(g));
    assert forall|u: UserId| g.spec_contains(u) implies s.has_user(u) by {
        if u != g.owner_id {
            let j = choose|j: int| 0 <= j < g.members@.len() && g.members@[j] == u;
            assert(s.has_user(g.members@[j]));
        }
    }
    let sel = selected(g, c.participants)->Ok_0;
    assert forall|k: int| 0 <= k < parts.len() implies s.has_user(#[trigger] parts[k]) by {
        assert(parts.contains(parts[k]));
        sel.lemma_filter_contains_rev(other_than(c.payer_id), parts[k]);
        let j = choose|j: int| 0 <= j < sel.len() && sel[j] == parts[k];
        match c.participants {
            IncludeParticipants::All => {
                if j > 0 {
                    assert(g.members@[j - 1] == sel[j]);
                }
            },
            IncludeParticipants::List { participants } => {
                assert(g.spec_contains(participants@[j]));
            },
        }
    }
}

impl CreateExpenseCommand {
    /// The users that the selection names, tested against the group.
    fn get_participants(&self, group: &Group) -> (r: Result<Vec<UserId>, CreateExpenseError>)
        requires
            group.wf(),
            self.participants.wf(),
        ensures
            match selected(*group, self.participants) {
                Ok(users) => r is Ok && r->Ok_0@ == users,
                Err(e) => r == Err::<Vec<UserId>, CreateExpenseError>(e),
            },
            r is Ok ==> r->Ok_0@.no_duplicates(),
    {
        match &self.participants {
            IncludeParticipants::All => {
                let mut participants: Vec<UserId> = Vec::new();
                participants.push(group.owner_id);
                let mut i: usize = 0;
                while i < group.members.len()
                    invariant
                        i <= group.members@.len(),
                        group.wf(),
                        participants@ == seq![group.owner_id] + group.members@.subrange(0, i as int),
                    decreases group.members.len() - i,
                {
                    participants.push(group.members[i]);
                    i = i + 1;
                    assert(participants@ =~= seq![group.owner_id] + group.members@.subrange(0, i as int));
                }
                assert(group.members@.subrange(0, group.members@.len() as int) =~= group.members@);
                proof {
                    let s = participants@;
                    assert forall|a: int, b: int| 0 <= a < s.len() && 0 <= b < s.len() && a != b implies s[a] != s[b] by {
                        if a == 0 {
                            assert(group.members@[b - 1] == s[b]);
                        } else if b == 0 {
                            assert(group.members@[a - 1] == s[a]);
                        } else {
                            assert(group.members@[a - 1] == s[a]);
                            assert(group.members@[b - 1] == s[b]);
                        }
                    }
                }
                Ok(participants)
            },
            IncludeParticipants::List { participants } => {
                if !all_participants_in_group(group, participants) {
                    return Err(CreateExpenseError::ParticipantNotFound);
                }
                Ok(crate::entities::copy_ids(participants))
            },
        }
    }

    /// Records the expense with a fresh entry identifier, a fresh expense
    /// identifier and the current time; returns the expense identifier.
    pub fn handle(self, store: &mut Store) -> (r: Result<ExpenseId, CreateExpenseError>)
        requires
            old(store).wf(),
            self.participants.wf(),
        ensures
            final(store).wf(),
            create_expense_rule(*old(store), self) matches Err(e) ==> r == Err::<ExpenseId, CreateExpenseError>(e),
            create_expense_rule(*old(store), self) is Ok ==> r is Ok || r == Err::<ExpenseId, CreateExpenseError>(
                CreateExpenseError::Database(DbError::UniqueViolation),
            ),
            create_expense_rule(*old(store), self) is Ok && old(store).entries().len() == 0 ==> r is Ok,
            r == Err::<ExpenseId, CreateExpenseError>(CreateExpenseError::Database(DbError::UniqueViolation))
                ==> old(store).entries().len() > 0,
            r is Err ==> *final(store) == *old(store),
            r is Ok ==> create_expense_rule(*old(store), self) is Ok && final(store).users() == old(store).users()
                && final(store).groups() == old(store).groups() && exists|id: ExpenseEntryId, t: Timestamp|
                entry_views(final(store).entries()) == entry_views(old(store).entries()).push(
                    #[trigger] recorded_entry(self, id, r->Ok_0, create_expense_rule(*old(store), self)->Ok_0, t),
                ),
    {
        let entry_id = ExpenseEntryId::new_random();
        let expense_id = ExpenseId::new_random();
        let created_at = Timestamp::now();
        let ghost c = self;
        let r = self.handle_with(store, entry_id, expense_id, created_at);
        proof {
            if r is Ok {
                assert(r->Ok_0 == expense_id);
                let v = recorded_entry(c, entry_id, expense_id, create_expense_rule(*old(store), c)->Ok_0, created_at);
                assert(entry_views(store.entries()) == entry_views(old(store).entries()).push(v));
            }
        }
        r
    }

    /// Records the expense under the given identifiers and creation time.
    pub fn handle_with(
        self,
        store: &mut Store,
        entry_id: ExpenseEntryId,
        expense_id: ExpenseId,
        created_at: Timestamp,
    ) -> (r: Result<ExpenseId, CreateExpenseError>)
        requires
            old(store).wf(),
            self.participants.wf(),
        ensures
            final(store).wf(),
            match create_expense_rule(*old(store), self) {
                Err(e) => r == Err::<ExpenseId, CreateExpenseError>(e) && *final(store) == *old(store),
                Ok(parts) => if old(store).has_entry(entry_id) {
                    r == Err::<ExpenseId, CreateExpenseError>(CreateExpenseError::Database(DbError::UniqueViolation))
                        && *final(store) == *old(store)
                } else {
                    r == Ok::<ExpenseId, CreateExpenseError>(expense_id)
                        && final(store).users() == old(store).users()
                        && final(store).groups() == old(store).groups()
                        && entry_views(final(store).entries()) == entry_views(old(store).entries()).push(
                            recorded_entry(self, entry_id, expense_id, parts, created_at))
                },
            },
    {
        if self.total.is_negative() {
            return Err(CreateExpenseError::InvalidTotal);
        }
        let group = match store.get_group_by_id(&self.group_id) {
            Some(g) => g,
            None => {
                return Err(CreateExpenseError::GroupNotFound);
            },
        };
        if !group.contains_user(&self.payer_id) {
            return Err(CreateExpenseError::PayerIsNotGroupMember);
        }
        if !group.contains_user(&self.author_id) {
            return Err(CreateExpenseError::AuthorNotInGroup);
        }
        proof {
            let g0 = store.group_by_id(self.group_id)->Some_0;
            assert(group@ == g0@);
            assert(group.members@ == g0.members@);
            assert(selected(group, self.participants) == selected(g0, self.participants));
        }
        let selection = match self.get_participants(&group) {
            Ok(s) => s,
            Err(e) => {
                return Err(e);
            },
        };
        let participants = without(&selection, self.payer_id);
        let ghost parts = participants@;
        let entry = match ExpenseEntry::new(
            entry_id,
            expense_id,
            self.group_id,
            self.payer_id,
            participants,
            ExpenseEntryStatus::Active,
            self.total,
            self.author_id,
            self.occured_at,
            created_at,
        ) {
            Ok(e) => e,
            Err(_) => {
                return Err(CreateExpenseError::InvalidTotal);
            },
        };
        assert(entry@ == recorded_entry(self, entry_id, expense_id, parts, created_at));
        proof {
            lemma_recorded_refs(*old(store), self, parts);
        }
        let ghost old_entries = store.entries();
        match store.create_entry(entry) {
            Ok(()) => {
                assert(entry_views(store.entries()) =~= entry_views(old_entries).push(entry@));
                Ok(expense_id)
            },
            Err(e) => Err(CreateExpenseError::Database(e)),
        }
    }
}

} // verus!
