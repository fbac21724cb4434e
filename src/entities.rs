//! Users, groups and expense entries.

use vstd::prelude::*;
use crate::contact::{Email, Timestamp};
use crate::ids::{ExpenseEntryId, ExpenseId, GroupId, UserId};
use crate::money::Money;
use crate::names::{Groupname, Username};
use crate::role::Role;

verus! {

/// A copy of a list of user identifiers.
pub fn copy_ids(v: &Vec<UserId>) -> (r: Vec<UserId>)
    ensures
        r@ == v@,
{
    let mut out: Vec<UserId> = Vec::new();
    let mut i: usize = 0;
    while i < v.len()
        invariant
            i <= v.len(),
            out@ == v@.subrange(0, i as int),
        decreases v.len() - i,
    {
        out.push(v[i]);
        i = i + 1;
        assert(out@ =~= v@.subrange(0, i as int));
    }
    assert(out@ =~= v@);
    out
}

/// Whether a list of identifiers holds a given one.
pub fn ids_contain(v: &Vec<UserId>, id: UserId) -> (r: bool)
    ensures
        r == v@.contains(id),
{
    let mut i: usize = 0;
    while i < v.len()
        invariant
            i <= v.len(),
            forall|j: int| 0 <= j < i ==> v@[j] != id,
        decreases v.len() - i,
    {
        if v[i] == id {
            assert(v@[i as int] == id);
            return true;
        }
        i = i + 1;
    }
    false
}

/// A registered user. Never changed after creation.
#[derive(Debug, PartialEq, Eq)]
pub struct User {
    pub id: UserId,
    pub name: Username,
    pub email: Email,
    pub role: Role,
    pub created_at: Timestamp,
}

impl Clone for User {
    fn clone(&self) -> (r: Self)
        ensures
            r == *self,
    {
        User {
            id: self.id,
            name: self.name.clone(),
            email: self.email.clone(),
            role: self.role,
            created_at: self.created_at,
        }
    }
}

impl User {
    pub fn new(id: UserId, name: Username, email: Email, role: Role, created_at: Timestamp) -> (r: Self)
        ensures
            r == (User { id, name, email, role, created_at }),
    {
        User { id, name, email, role, created_at }
    }
}

/// A group: its owner and a set of further members.
#[derive(Debug, PartialEq, Eq)]
pub struct Group {
    pub id: GroupId,
    pub name: Groupname,
    pub owner_id: UserId,
    pub members: Vec<UserId>,
    pub created_at: Timestamp,
}

impl Clone for Group {
    fn clone(&self) -> (r: Self)
        ensures
            r@ == self@,
    {
        let members = copy_ids(&self.members);
        Group {
            id: self.id,
            name: self.name.clone(),
            owner_id: self.owner_id,
            members,
            created_at: self.created_at,
        }
    }
}

/// A group as a value: its members as a sequence without repetition.
pub struct GroupView {
    pub id: GroupId,
    pub name: Groupname,
    pub owner_id: UserId,
    pub members: Seq<UserId>,
    pub created_at: Timestamp,
}

impl View for Group {
    type V = GroupView;

    open spec fn view(&self) -> GroupView {
        GroupView {
            id: self.id,
            name: self.name,
            owner_id: self.owner_id,
            members: self.members@,
            created_at: self.created_at,
        }
    }
}

impl Group {
    /// The members form a set, and the owner is not among them.
    pub open spec fn wf(&self) -> bool {
        &&& self.members@.no_duplicates()
        &&& !self.members@.contains(self.owner_id)
    }

    /// The owner or a member.
    pub open spec fn spec_contains(&self, u: UserId) -> bool {
        self.owner_id == u || self.members@.contains(u)
    }

    pub fn new(id: GroupId, name: Groupname, owner_id: UserId, members: Vec<UserId>, created_at: Timestamp) -> (r: Self)
        requires
            members@.no_duplicates(),
            !members@.contains(owner_id),
        ensures
            r == (Group { id, name, owner_id, members, created_at }),
            r.wf(),
    {
        Group { id, name, owner_id, members, created_at }
    }

    pub fn is_user_owner(&self, user_id: &UserId) -> (r: bool)
        ensures
            r == (self.owner_id == *user_id),
    {
        self.owner_id == *user_id
    }

    pub fn is_user_member(&self, user_id: &UserId) -> (r: bool)
        ensures
            r == self.members@.contains(*user_id),
    {
        ids_contain(&self.members, *user_id)
    }

    pub fn contains_user(&self, user_id: &UserId) -> (r: bool)
        ensures
            r == self.spec_contains(*user_id),
    {
        self.is_user_owner(user_id) || self.is_user_member(user_id)
    }
}

/// Whether an expense entry is the current version of its expense.
#[derive(Debug, PartialEq, Eq, Structural, Clone, Copy)]
pub enum ExpenseEntryStatus {
    Active,
    /// Superseded by the entry with this identifier.
    Inactive { overwritten_by: ExpenseEntryId },
}

/// Why an expense entry cannot be built.
#[derive(Debug, PartialEq, Eq, Structural, Clone, Copy)]
pub enum EntryError {
    NegativeTotal,
}

/// One immutable version of an expense.
#[derive(Debug, PartialEq, Eq)]
pub struct ExpenseEntry {
    pub id: ExpenseEntryId,
    pub expense_id: ExpenseId,
    pub group_id: GroupId,
    pub payer_id: UserId,
    pub participants: Vec<UserId>,
    pub status: ExpenseEntryStatus,
    pub total: Money,
    pub author_id: UserId,
    pub occurred_at: Timestamp,
    pub created_at: Timestamp,
}

impl Clone for ExpenseEntry {
    fn clone(&self) -> (r: Self)
        ensures
            r@ == self@,
    {
        let participants = copy_ids(&self.participants);
        ExpenseEntry {
            id: self.id,
            expense_id: self.expense_id,
            group_id: self.group_id,
            payer_id: self.payer_id,
            participants,
            status: self.status,
            total: self.total,
            author_id: self.author_id,
            occurred_at: self.occurred_at,
            created_at: self.created_at,
        }
    }
}

/// An expense entry as a value.
pub struct ExpenseEntryView {
    pub id: ExpenseEntryId,
    pub expense_id: ExpenseId,
    pub group_id: GroupId,
    pub payer_id: UserId,
    pub participants: Seq<UserId>,
    pub status: ExpenseEntryStatus,
    pub total: Money,
    pub author_id: UserId,
    pub occurred_at: Timestamp,
    pub created_at: Timestamp,
}

impl View for ExpenseEntry {
    type V = ExpenseEntryView;

    open spec fn view(&self) -> ExpenseEntryView {
        ExpenseEntryView {
            id: self.id,
            expense_id: self.expense_id,
            group_id: self.group_id,
            payer_id: self.payer_id,
            participants: self.participants@,
            status: self.status,
            total: self.total,
            author_id: self.author_id,
            occurred_at: self.occurred_at,
            created_at: self.created_at,
        }
    }
}

impl ExpenseEntry {
    /// The participants form a set and the total is not negative.
    pub open spec fn wf(&self) -> bool {
        &&& self.participants@.no_duplicates()
        &&& self.total.spec_cents() >= 0
    }

    /// Builds an entry; a negative total is refused.
    pub fn new(
        id: ExpenseEntryId,
        expense_id: ExpenseId,
        group_id: GroupId,
        payer_id: UserId,
        participants: Vec<UserId>,
        status: ExpenseEntryStatus,
        total: Money,
        author_id: UserId,
        occurred_at: Timestamp,
        created_at: Timestamp,
    ) -> (r: Result<Self, EntryError>)
        requires
            participants@.no_duplicates(),
        ensures
            total.spec_cents() < 0 ==> r == Err::<Self, EntryError>(EntryError::NegativeTotal),
            total.spec_cents() >= 0 ==> r == Ok::<Self, EntryError>(
                ExpenseEntry {
                    id,
                    expense_id,
                    group_id,
                    payer_id,
                    participants,
                    status,
                    total,
                    author_id,
                    occurred_at,
                    created_at,
                },
            ),
            r is Ok ==> r->Ok_0.wf(),
    {
        if total.is_negative() {
            return Err(EntryError::NegativeTotal);
        }
        Ok(ExpenseEntry {
            id,
            expense_id,
            group_id,
            payer_id,
            participants,
            status,
            total,
            author_id,
            occurred_at,
            created_at,
        })
    }
}

} // verus!
