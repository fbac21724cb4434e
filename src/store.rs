//! The persistence boundary: an in-memory transactional store of users,
//! groups and expense entries, with the unique and foreign-key constraints of
//! a relational schema as backstop.

use vstd::prelude::*;
use vstd::string::StringExecFns;
use crate::contact::Email;
use crate::entities::{ids_contain, ExpenseEntry, ExpenseEntryStatus, ExpenseEntryView, Group, GroupView, User};
use crate::ids::{ExpenseEntryId, ExpenseId, GroupId, UserId};
use crate::names::Groupname;
use crate::pagination::DbPagination;

verus! {

/// A failure reported by the store.
#[derive(Debug, PartialEq, Eq)]
pub enum DbError {
    /// A row would repeat a key or a unique pair.
    UniqueViolation,
    /// A row would refer to a row that does not exist.
    ForeignKeyViolation,
    /// A stored row cannot be read back as an entity.
    CorruptedData { msg: String },
}

/// The prefix of the text of a corrupted-data error.
pub open spec fn corrupted_prefix() -> Seq<char> {
    seq!['d', 'a', 't', 'a', 'b', 'a', 's', 'e', ' ', 'c', 'o', 'r', 'r', 'u', 'p', 't', 'e', 'd', ' ', 'd', 'a', 't', 'a', ':', ' ']
}

impl DbError {
    /// The error as text.
    pub fn message(&self) -> (r: String)
        ensures
            self matches DbError::CorruptedData { msg } ==> r@ == corrupted_prefix() + msg@,
    {
        match self {
            DbError::UniqueViolation => String::from_str("database constraint violated: unique"),
            DbError::ForeignKeyViolation => String::from_str("database constraint violated: foreign key"),
            DbError::CorruptedData { msg } => {
                proof {
                    reveal_strlit("database corrupted data: ");
                }
                let r = String::from_str("database corrupted data: ").concat(msg.as_str());
                assert(r@ =~= corrupted_prefix() + msg@);
                r
            },
        }
    }
}

/// The store's contents. Each table is a sequence; groups are kept in page
/// order (newest first, then by identifier).
pub struct Store {
    users: Vec<User>,
    groups: Vec<Group>,
    entries: Vec<ExpenseEntry>,
}

/// Group `a` comes before group `b` in page order: newer first, then the
/// smaller identifier.
pub open spec fn group_before(a: Group, b: Group) -> bool {
    a.created_at.micros > b.created_at.micros || (a.created_at.micros == b.created_at.micros
        && a.id@ < b.id@)
}

/// The window of a sequence that a page selects: from `offset`, at most
/// `limit` items.
pub open spec fn page_of<A>(s: Seq<A>, p: DbPagination) -> Seq<A> {
    let lo = if p.offset < s.len() { p.offset as int } else { s.len() as int };
    let hi = if p.offset + p.limit < s.len() { p.offset + p.limit } else { s.len() as int };
    s.subrange(lo, hi)
}

/// A user of the sequence with this identifier, if there is one.
pub open spec fn user_with_id(users: Seq<User>, id: UserId) -> Option<User> {
    if exists|i: int| 0 <= i < users.len() && (#[trigger] users[i]).id == id {
        Some(users[choose|i: int| 0 <= i < users.len() && (#[trigger] users[i]).id == id])
    } else {
        None
    }
}

/// The position of a user with this identifier in a list of users.
pub fn find_user_in(users: &Vec<User>, id: UserId) -> (r: Option<usize>)
    ensures
        match r {
            Some(j) => j < users@.len() && users@[j as int].id == id,
            None => forall|j: int| 0 <= j < users@.len() ==> (#[trigger] users@[j]).id != id,
        },
{
    let mut j: usize = 0;
    while j < users.len()
        invariant
            j <= users@.len(),
            forall|k: int| 0 <= k < j ==> (#[trigger] users@[k]).id != id,
        decreases users.len() - j,
    {
        if users[j].id == id {
            return Some(j);
        }
        j = j + 1;
    }
    None
}

/// A user found in a batch fetched by `get_all_in_ids` is the stored user
/// with that identifier.
pub proof fn lemma_batch_user(s: Store, ids: Seq<UserId>, u: User)
    requires
        s.wf(),
        s.users().filter(listed_in(ids)).contains(u),
    ensures
        s.user_by_id(u.id) == Some(u),
{
    s.users().lemma_filter_contains_rev(listed_in(ids), u);
    let k = choose|k: int| 0 <= k < s.users().len() && s.users()[k] == u;
    assert(s.users()[k].id == u.id);
    let c = choose|i: int| 0 <= i < s.users().len() && (#[trigger] s.users()[i]).id == u.id;
    assert(c == k);
}

/// A batch fetched by `get_all_in_ids` holds every listed user that is stored.
pub proof fn lemma_batch_complete(s: Store, ids: Seq<UserId>, id: UserId)
    requires
        s.wf(),
        ids.contains(id),
        s.has_user(id),
    ensures
        s.users().filter(listed_in(ids)).contains(s.user_by_id(id)->Some_0),
{
    let c = choose|i: int| 0 <= i < s.users().len() && (#[trigger] s.users()[i]).id == id;
    s.users().lemma_filter_contains(listed_in(ids), c);
}

/// The groups that count a user as owner or member.
pub open spec fn for_user(u: UserId) -> spec_fn(Group) -> bool {
    |g: Group| g.spec_contains(u)
}

/// A group view with one more member.
pub open spec fn with_member(v: GroupView, u: UserId) -> GroupView {
    GroupView { id: v.id, name: v.name, owner_id: v.owner_id, members: v.members.push(u), created_at: v.created_at }
}

/// The active entries of a group.
pub open spec fn active_in(g: GroupId) -> spec_fn(ExpenseEntry) -> bool {
    |e: ExpenseEntry| e.group_id == g && e.status == ExpenseEntryStatus::Active
}

/// The versions of one expense.
pub open spec fn of_expense(x: ExpenseId) -> spec_fn(ExpenseEntry) -> bool {
    |e: ExpenseEntry| e.expense_id == x
}

/// The users whose identifiers are listed.
pub open spec fn listed_in(ids: Seq<UserId>) -> spec_fn(User) -> bool {
    |u: User| ids.contains(u.id)
}

/// The views of a sequence of groups.
pub open spec fn group_views(s: Seq<Group>) -> Seq<GroupView> {
    s.map_values(|g: Group| g@)
}

/// The views of a sequence of expense entries.
pub open spec fn entry_views(s: Seq<ExpenseEntry>) -> Seq<ExpenseEntryView> {
    s.map_values(|e: ExpenseEntry| e@)
}

/// An item of a page of a filtered sequence is an item of the sequence.
pub proof fn lemma_page_member<A>(s: Seq<A>, p: spec_fn(A) -> bool, w: DbPagination, i: int)
    requires
        0 <= i < page_of(s.filter(p), w).len(),
    ensures
        s.contains(page_of(s.filter(p), w)[i]),
{
    let f = s.filter(p);
    let lo = if w.offset < f.len() { w.offset as int } else { f.len() as int };
    assert(page_of(f, w)[i] == f[lo + i]);
    assert(f.contains(f[lo + i]));
    s.lemma_filter_contains_rev(p, f[lo + i]);
}

/// Filtering one more item of a sequence.
pub proof fn lemma_filter_step<A>(s: Seq<A>, p: spec_fn(A) -> bool, i: int)
    requires
        0 <= i < s.len(),
    ensures
        s.subrange(0, i + 1).filter(p) == (if p(s[i]) {
            s.subrange(0, i).filter(p).push(s[i])
        } else {
            s.subrange(0, i).filter(p)
        }),
{
    reveal(Seq::filter);
    assert(s.subrange(0, i + 1).drop_last() =~= s.subrange(0, i));
}

/// The page of a sequence that grew by one item.
pub proof fn lemma_page_step<A>(s: Seq<A>, x: A, p: DbPagination)
    ensures
        page_of(s.push(x), p) == (if p.offset <= s.len() < p.offset + p.limit {
            page_of(s, p).push(x)
        } else {
            page_of(s, p)
        }),
{
    if p.offset <= s.len() < p.offset + p.limit {
        assert(page_of(s.push(x), p) =~= page_of(s, p).push(x));
    } else {
        assert(page_of(s.push(x), p) =~= page_of(s, p));
    }
}

fn before(a: &Group, b: &Group) -> (r: bool)
    ensures
        r == group_before(*a, *b),
{
    a.created_at.micros > b.created_at.micros || (a.created_at.micros == b.created_at.micros
        && a.id.value() < b.id.value())
}

impl Store {
    pub closed spec fn users(&self) -> Seq<User> {
        self.users@
    }

    pub closed spec fn groups(&self) -> Seq<Group> {
        self.groups@
    }

    pub closed spec fn entries(&self) -> Seq<ExpenseEntry> {
        self.entries@
    }

    pub open spec fn has_user(&self, id: UserId) -> bool {
        exists|i: int| 0 <= i < self.users().len() && (#[trigger] self.users()[i]).id == id
    }

    pub open spec fn email_taken(&self, e: Seq<char>) -> bool {
        exists|i: int| 0 <= i < self.users().len() && (#[trigger] self.users()[i]).email@ == e
    }

    /// The user with this identifier, if there is one.
    pub open spec fn user_by_id(&self, id: UserId) -> Option<User> {
        user_with_id(self.users(), id)
    }

    /// The user with this e-mail address, if there is one.
    pub open spec fn user_by_email(&self, e: Seq<char>) -> Option<User> {
        if self.email_taken(e) {
            Some(self.users()[choose|i: int| 0 <= i < self.users().len() && (#[trigger] self.users()[i]).email@ == e])
        } else {
            None
        }
    }

    pub open spec fn has_group(&self, id: GroupId) -> bool {
        exists|i: int| 0 <= i < self.groups().len() && (#[trigger] self.groups()[i]).id == id
    }

    /// The position of the group with this identifier.
    pub open spec fn group_pos(&self, id: GroupId) -> int {
        choose|i: int| 0 <= i < self.groups().len() && (#[trigger] self.groups()[i]).id == id
    }

    /// The group with this identifier, if there is one.
    pub open spec fn group_by_id(&self, id: GroupId) -> Option<Group> {
        if self.has_group(id) {
            Some(self.groups()[self.group_pos(id)])
        } else {
            None
        }
    }

    /// Whether the owner already has a group of exactly this name.
    pub open spec fn name_taken(&self, owner: UserId, name: Seq<char>) -> bool {
        exists|i: int|
            0 <= i < self.groups().len() && (#[trigger] self.groups()[i]).owner_id == owner
                && self.groups()[i].name@ == name
    }

    pub open spec fn has_entry(&self, id: ExpenseEntryId) -> bool {
        exists|i: int| 0 <= i < self.entries().len() && (#[trigger] self.entries()[i]).id == id
    }

    /// The entry with this identifier, if there is one.
    pub open spec fn entry_by_id(&self, id: ExpenseEntryId) -> Option<ExpenseEntry> {
        if self.has_entry(id) {
            Some(self.entries()[choose|i: int| 0 <= i < self.entries().len() && (#[trigger] self.entries()[i]).id == id])
        } else {
            None
        }
    }

    /// Keys are unique, each entity keeps its own invariant, an owner's group
    /// names are unique, and groups stand in page order.
    pub open spec fn wf(&self) -> bool {
        &&& forall|i: int, j: int|
            0 <= i < self.users().len() && 0 <= j < self.users().len() && i != j ==> (#[trigger] self.users()[i]).id
                != (#[trigger] self.users()[j]).id && self.users()[i].email@ != self.users()[j].email@
        &&& forall|i: int| 0 <= i < self.groups().len() ==> (#[trigger] self.groups()[i]).wf()
        &&& forall|i: int, j: int|
            0 <= i < self.groups().len() && 0 <= j < self.groups().len() && i != j
                ==> (#[trigger] self.groups()[i]).id != (#[trigger] self.groups()[j]).id
        &&& forall|i: int, j: int|
            0 <= i < j < self.groups().len() ==> group_before(#[trigger] self.groups()[i], #[trigger] self.groups()[j])
        &&& forall|i: int, j: int|
            0 <= i < self.groups().len() && 0 <= j < self.groups().len() && i != j
                && (#[trigger] self.groups()[i]).owner_id == (#[trigger] self.groups()[j]).owner_id
                ==> self.groups()[i].name@ != self.groups()[j].name@
        &&& forall|i: int| 0 <= i < self.entries().len() ==> (#[trigger] self.entries()[i]).wf()
        &&& forall|i: int, j: int|
            0 <= i < self.entries().len() && 0 <= j < self.entries().len() && i != j
                ==> (#[trigger] self.entries()[i]).id != (#[trigger] self.entries()[j]).id
        &&& forall|i: int| 0 <= i < self.groups().len() ==> self.group_refs_ok(#[trigger] self.groups()[i])
        &&& forall|i: int| 0 <= i < self.entries().len() ==> self.entry_refs_ok((#[trigger] self.entries()[i])@)
    }

    /// The owner and every member of the group are stored users.
    pub open spec fn group_refs_ok(&self, g: Group) -> bool {
        &&& self.has_user(g.owner_id)
        &&& forall|k: int| 0 <= k < g.members@.len() ==> self.has_user(#[trigger] g.members@[k])
    }

    /// The group, payer, author and participants of the entry are stored.
    pub open spec fn entry_refs_ok(&self, e: ExpenseEntryView) -> bool {
        &&& self.has_group(e.group_id)
        &&& self.has_user(e.payer_id)
        &&& self.has_user(e.author_id)
        &&& forall|k: int| 0 <= k < e.participants.len() ==> self.has_user(#[trigger] e.participants[k])
    }

    /// References that hold in a store hold in a store with at least its
    /// users and groups.
    pub proof fn lemma_refs_kept(&self, after: Store)
        requires
            forall|id: UserId| self.has_user(id) ==> after.has_user(id),
            forall|id: GroupId| self.has_group(id) ==> after.has_group(id),
        ensures
            forall|g: Group| self.group_refs_ok(g) ==> #[trigger] after.group_refs_ok(g),
            forall|e: ExpenseEntryView| self.entry_refs_ok(e) ==> #[trigger] after.entry_refs_ok(e),
    {
        assert forall|g: Group| self.group_refs_ok(g) implies #[trigger] after.group_refs_ok(g) by {
            assert(after.has_user(g.owner_id));
            assert forall|k: int| 0 <= k < g.members@.len() implies after.has_user(#[trigger] g.members@[k]) by {
                assert(self.has_user(g.members@[k]));
            }
        }
        assert forall|e: ExpenseEntryView| self.entry_refs_ok(e) implies #[trigger] after.entry_refs_ok(e) by {
            assert(after.has_group(e.group_id));
            assert(after.has_user(e.payer_id));
            assert(after.has_user(e.author_id));
            assert forall|k: int| 0 <= k < e.participants.len() implies after.has_user(#[trigger] e.participants[k]) by {
                assert(self.has_user(e.participants[k]));
            }
        }
    }

    /// An empty store.
    pub fn new() -> (r: Store)
        ensures
            r.wf(),
            r.users() == Seq::<User>::empty(),
            r.groups() == Seq::<Group>::empty(),
            r.entries() == Seq::<ExpenseEntry>::empty(),
    {
        Store { users: Vec::new(), groups: Vec::new(), entries: Vec::new() }
    }

    fn find_user(&self, id: UserId) -> (r: Option<usize>)
        ensures
            match r {
                Some(i) => i < self.users().len() && self.users()[i as int].id == id,
                None => !self.has_user(id),
            },
    {
        let mut i: usize = 0;
        while i < self.users.len()
            invariant
                i <= self.users@.len(),
                forall|j: int| 0 <= j < i ==> (#[trigger] self.users@[j]).id != id,
            decreases self.users.len() - i,
        {
            if self.users[i].id == id {
                return Some(i);
            }
            i = i + 1;
        }
        None
    }

    fn find_email(&self, e: &Email) -> (r: Option<usize>)
        ensures
            match r {
                Some(i) => i < self.users().len() && self.users()[i as int].email@ == e@,
                None => !self.email_taken(e@),
            },
    {
        let mut i: usize = 0;
        while i < self.users.len()
            invariant
                i <= self.users@.len(),
                forall|j: int| 0 <= j < i ==> (#[trigger] self.users@[j]).email@ != e@,
            decreases self.users.len() - i,
        {
            if self.users[i].email.same_as(e) {
                return Some(i);
            }
            i = i + 1;
        }
        None
    }

    pub fn exists_user_by_id(&self, id: &UserId) -> (r: bool)
        ensures
            r == self.has_user(*id),
    {
        self.find_user(*id).is_some()
    }

    pub fn get_user_by_id(&self, id: &UserId) -> (r: Option<User>)
        requires
            self.wf(),
        ensures
            r == self.user_by_id(*id),
    {
        match self.find_user(*id) {
            Some(i) => Some(self.users[i].clone()),
            None => None,
        }
    }

    pub fn email_exists(&self, email: &Email) -> (r: bool)
        ensures
            r == self.email_taken(email@),
    {
        self.find_email(email).is_some()
    }

    pub fn get_user_by_email(&self, email: &Email) -> (r: Option<User>)
        requires
            self.wf(),
        ensures
            r == self.user_by_email(email@),
    {
        match self.find_email(email) {
            Some(i) => Some(self.users[i].clone()),
            None => None,
        }
    }

    /// Adds a user; its identifier and its e-mail address must be new.
    pub fn create_user(&mut self, user: User) -> (r: Result<(), DbError>)
        requires
            old(self).wf(),
        ensures
            final(self).wf(),
            old(self).has_user(user.id) || old(self).email_taken(user.email@) ==> r == Err::<(), DbError>(DbError::UniqueViolation)
                && *final(self) == *old(self),
            !old(self).has_user(user.id) && !old(self).email_taken(user.email@) ==> r is Ok
                && final(self).users() == old(self).users().push(user)
                && final(self).groups() == old(self).groups()
                && final(self).entries() == old(self).entries(),
    {
        if self.find_user(user.id).is_some() || self.find_email(&user.email).is_some() {
            return Err(DbError::UniqueViolation);
        }
        let ghost u = user;
        let ghost before = self.users@;
        assert(forall|i: int| 0 <= i < before.len() ==> (#[trigger] before[i]).id != u.id && before[i].email@ != u.email@);
        self.users.push(user);
        assert(self.users@ == before.push(u));
        assert forall|i: int, j: int|
            0 <= i < self.users@.len() && 0 <= j < self.users@.len() && i != j implies (
            #[trigger] self.users@[i]).id != (#[trigger] self.users@[j]).id && self.users@[i].email@
                != self.users@[j].email@ by {
            if i < before.len() && j < before.len() {
                assert(old(self).users()[i] == self.users@[i]);
                assert(old(self).users()[j] == self.users@[j]);
            }
        }
        assert(self.groups() == old(self).groups());
        assert(self.entries() == old(self).entries());
        proof {
            assert forall|id: UserId| old(self).has_user(id) implies self.has_user(id) by {
                let k = choose|k: int| 0 <= k < old(self).users().len() && (#[trigger] old(self).users()[k]).id == id;
                assert(self.users()[k] == old(self).users()[k]);
            }
            old(self).lemma_refs_kept(*self);
            assert forall|i: int| 0 <= i < self.groups().len() implies self.group_refs_ok(#[trigger] self.groups()[i]) by {
                assert(old(self).group_refs_ok(old(self).groups()[i]));
            }
            assert forall|i: int| 0 <= i < self.entries().len() implies self.entry_refs_ok((#[trigger] self.entries()[i])@) by {
                assert(old(self).entry_refs_ok(old(self).entries()[i]@));
            }
        }
        Ok(())
    }

    fn find_group(&self, id: GroupId) -> (r: Option<usize>)
        ensures
            match r {
                Some(i) => i < self.groups().len() && self.groups()[i as int].id == id,
                None => !self.has_group(id),
            },
    {
        let mut i: usize = 0;
        while i < self.groups.len()
            invariant
                i <= self.groups@.len(),
                forall|j: int| 0 <= j < i ==> (#[trigger] self.groups@[j]).id != id,
            decreases self.groups.len() - i,
        {
            if self.groups[i].id == id {
                return Some(i);
            }
            i = i + 1;
        }
        None
    }

    /// Whether the owner already has a group of exactly this name.
    pub fn exists_by_name_for_owner(&self, name: &Groupname, owner_id: &UserId) -> (r: bool)
        ensures
            r == self.name_taken(*owner_id, name@),
    {
        let mut i: usize = 0;
        while i < self.groups.len()
            invariant
                i <= self.groups@.len(),
                forall|j: int|
                    0 <= j < i ==> !((#[trigger] self.groups@[j]).owner_id == *owner_id
                        && self.groups@[j].name@ == name@),
            decreases self.groups.len() - i,
        {
            if self.groups[i].owner_id == *owner_id && self.groups[i].name.same_as(name) {
                assert(self.groups()[i as int].owner_id == *owner_id);
                return true;
            }
            i = i + 1;
        }
        false
    }

    pub fn exists_group_by_id(&self, id: &GroupId) -> (r: bool)
        ensures
            r == self.has_group(*id),
    {
        self.find_group(*id).is_some()
    }

    pub fn get_group_by_id(&self, id: &GroupId) -> (r: Option<Group>)
        requires
            self.wf(),
        ensures
            r is Some == self.has_group(*id),
            r is Some ==> r->Some_0@ == self.group_by_id(*id)->Some_0@ && r->Some_0.wf(),
    {
        match self.find_group(*id) {
            Some(i) => {
                proof {
                    let k = self.group_pos(*id);
                    assert(self.groups@[k].id == *id);
                    assert(k == i as int);
                }
                Some(self.groups[i].clone())
            },
            None => None,
        }
    }

    /// Why adding this group would break a constraint, if it would: a
    /// repeated key or owner and name pair first, then a reference to a user
    /// that does not exist.
    pub open spec fn create_group_error(&self, g: Group) -> Option<DbError> {
        if self.has_group(g.id) || self.name_taken(g.owner_id, g.name@) {
            Some(DbError::UniqueViolation)
        } else if !self.has_user(g.owner_id) || exists|k: int|
            0 <= k < g.members@.len() && !self.has_user(#[trigger] g.members@[k]) {
            Some(DbError::ForeignKeyViolation)
        } else {
            None
        }
    }

    fn all_users_exist(&self, ids: &Vec<UserId>) -> (r: bool)
        ensures
            r == forall|k: int| 0 <= k < ids@.len() ==> self.has_user(#[trigger] ids@[k]),
    {
        let mut i: usize = 0;
        while i < ids.len()
            invariant
                i <= ids@.len(),
                forall|k: int| 0 <= k < i ==> self.has_user(#[trigger] ids@[k]),
            decreases ids.len() - i,
        {
            if self.find_user(ids[i]).is_none() {
                return false;
            }
            i = i + 1;
        }
        true
    }

    /// Adds a group at its place in page order.
    pub fn create_group(&mut self, group: Group) -> (r: Result<(), DbError>)
        requires
            old(self).wf(),
            group.wf(),
        ensures
            final(self).wf(),
            match old(self).create_group_error(group) {
                Some(e) => r == Err::<(), DbError>(e) && *final(self) == *old(self),
                None => r is Ok && final(self).users() == old(self).users()
                    && final(self).entries() == old(self).entries()
                    && exists|p: int| 0 <= p <= old(self).groups().len()
                        && final(self).groups() == old(self).groups().insert(p, group),
            },
    {
        if self.find_group(group.id).is_some() || self.exists_by_name_for_owner(&group.name, &group.owner_id) {
            return Err(DbError::UniqueViolation);
        }
        if self.find_user(group.owner_id).is_none() || !self.all_users_exist(&group.members) {
            return Err(DbError::ForeignKeyViolation);
        }
        let mut p: usize = 0;
        while p < self.groups.len() && before(&self.groups[p], &group)
            invariant
                p <= self.groups@.len(),
                forall|k: int| 0 <= k < p ==> group_before(#[trigger] self.groups@[k], group),
                self.wf(),
                *self == *old(self),
                group.wf(),
                old(self).create_group_error(group) is None,
            decreases self.groups.len() - p,
        {
            p = p + 1;
        }
        let ghost old_groups = self.groups();
        let ghost g = group;
        proof {
            assert forall|k: int| p <= k < old_groups.len() implies group_before(g, #[trigger] old_groups[k]) by {
                assert(self.groups()[k] == old_groups[k]);
                assert(self.groups()[p as int] == old_groups[p as int]);
                assert(old_groups[k].id != g.id);
                assert(old_groups[p as int].id != g.id);
                GroupId::lemma_view_injective(old_groups[p as int].id, g.id);
                if k > p {
                    assert(group_before(old_groups[p as int], old_groups[k]));
                }
            }
        }
        self.groups.insert(p, group);
        proof {
            let ng = self.groups@;
            assert(ng == old_groups.insert(p as int, g));
            assert forall|i: int, j: int| 0 <= i < j < ng.len() implies group_before(#[trigger] ng[i], #[trigger] ng[j]) by {
                if i < p && j < p {
                    assert(group_before(old_groups[i], old_groups[j]));
                } else if i < p && j > p {
                    assert(group_before(old_groups[i], old_groups[j - 1]));
                } else if i > p && j > p {
                    assert(group_before(old_groups[i - 1], old_groups[j - 1]));
                }
            }
            assert forall|i: int, j: int|
                0 <= i < ng.len() && 0 <= j < ng.len() && i != j implies (#[trigger] ng[i]).id != (#[trigger] ng[j]).id
                && (ng[i].owner_id == ng[j].owner_id ==> ng[i].name@ != ng[j].name@) by {
                if i != p && j != p {
                    let oi = if i < p { i } else { i - 1 };
                    let oj = if j < p { j } else { j - 1 };
                    assert(old_groups[oi] == ng[i]);
                    assert(old_groups[oj] == ng[j]);
                } else if i == p {
                    let oj = if j < p { j } else { j - 1 };
                    assert(old_groups[oj] == ng[j]);
                    assert(old(self).groups()[oj] == ng[j]);
                } else {
                    let oi = if i < p { i } else { i - 1 };
                    assert(old_groups[oi] == ng[i]);
                    assert(old(self).groups()[oi] == ng[i]);
                }
            }
            assert(forall|i: int| 0 <= i < ng.len() ==> (#[trigger] ng[i]).wf());
            assert(self.users() == old(self).users());
            assert(self.entries() == old(self).entries());
            assert forall|id: UserId| old(self).has_user(id) implies self.has_user(id) by {
                let k = choose|k: int| 0 <= k < old(self).users().len() && (#[trigger] old(self).users()[k]).id == id;
                assert(self.users()[k] == old(self).users()[k]);
            }
            assert forall|id: UserId| self.has_user(id) implies old(self).has_user(id) by {
                let k = choose|k: int| 0 <= k < self.users().len() && (#[trigger] self.users()[k]).id == id;
                assert(self.users()[k] == old(self).users()[k]);
            }
            assert forall|id: GroupId| old(self).has_group(id) implies self.has_group(id) by {
                let k = choose|k: int| 0 <= k < old_groups.len() && (#[trigger] old_groups[k]).id == id;
                let j = if k < p { k } else { k + 1 };
                assert(ng[j] == old_groups[k]);
                assert(self.groups()[j] == old_groups[k]);
            }
            old(self).lemma_refs_kept(*self);
            assert(old(self).group_refs_ok(g));
            assert forall|i: int| 0 <= i < ng.len() implies self.group_refs_ok(#[trigger] self.groups()[i]) by {
                if i < p {
                    assert(ng[i] == old_groups[i]);
                    assert(old(self).group_refs_ok(old(self).groups()[i]));
                } else if i > p {
                    assert(ng[i] == old_groups[i - 1]);
                    assert(old(self).group_refs_ok(old(self).groups()[i - 1]));
                }
            }
            assert forall|i: int| 0 <= i < self.entries().len() implies self.entry_refs_ok((#[trigger] self.entries()[i])@) by {
                assert(old(self).entry_refs_ok(old(self).entries()[i]@));
            }
        }
        Ok(())
    }

    /// `after` is this store with the user added to the members of the group.
    pub open spec fn member_added(&self, after: Store, group_id: GroupId, user_id: UserId) -> bool {
        &&& after.users() == self.users()
        &&& after.entries() == self.entries()
        &&& group_views(after.groups()) == group_views(self.groups()).update(
            self.group_pos(group_id),
            with_member(self.groups()[self.group_pos(group_id)]@, user_id),
        )
    }

    /// Why adding this membership would break a constraint, if it would.
    pub open spec fn add_member_error(&self, group_id: GroupId, user_id: UserId) -> Option<DbError> {
        if !self.has_group(group_id) || !self.has_user(user_id) {
            Some(DbError::ForeignKeyViolation)
        } else if self.group_by_id(group_id)->Some_0.spec_contains(user_id) {
            Some(DbError::UniqueViolation)
        } else {
            None
        }
    }

    /// Records a membership.
    pub fn add_member(&mut self, group_id: &GroupId, user_id: &UserId) -> (r: Result<(), DbError>)
        requires
            old(self).wf(),
        ensures
            final(self).wf(),
            match old(self).add_member_error(*group_id, *user_id) {
                Some(e) => r == Err::<(), DbError>(e) && *final(self) == *old(self),
                None => r is Ok && old(self).member_added(*final(self), *group_id, *user_id),
            },
    {
        let i = match self.find_group(*group_id) {
            Some(i) => i,
            None => {
                return Err(DbError::ForeignKeyViolation);
            },
        };
        if self.find_user(*user_id).is_none() {
            return Err(DbError::ForeignKeyViolation);
        }
        proof {
            let k = self.group_pos(*group_id);
            assert(self.groups@[k].id == *group_id);
            assert(k == i as int);
        }
        if self.groups[i].contains_user(user_id) {
            return Err(DbError::UniqueViolation);
        }
        let ghost old_groups = self.groups();
        let mut g = self.groups[i].clone();
        g.members.push(*user_id);
        proof {
            assert(g@ == with_member(old_groups[i as int]@, *user_id));
            assert(old_groups[i as int].wf());
            assert(g.members@.no_duplicates());
        }
        self.groups.set(i, g);
        proof {
            let ng = self.groups();
            assert(group_views(ng) =~= group_views(old_groups).update(i as int, with_member(old_groups[i as int]@, *user_id)));
            assert forall|a: int, b: int| 0 <= a < ng.len() && 0 <= b < ng.len() && a != b implies
                (#[trigger] ng[a]).id != (#[trigger] ng[b]).id
                && (ng[a].owner_id == ng[b].owner_id ==> ng[a].name@ != ng[b].name@)
                && (a < b ==> group_before(ng[a], ng[b])) by {
                assert(old_groups[a].id == ng[a].id && old_groups[a].name == ng[a].name && old_groups[a].owner_id == ng[a].owner_id && old_groups[a].created_at == ng[a].created_at);
                assert(old_groups[b].id == ng[b].id && old_groups[b].name == ng[b].name && old_groups[b].owner_id == ng[b].owner_id && old_groups[b].created_at == ng[b].created_at);
                if a < b {
                    assert(group_before(old_groups[a], old_groups[b]));
                }
            }
            assert forall|a: int| 0 <= a < ng.len() implies (#[trigger] ng[a]).wf() by {
                if a != i {
                    assert(ng[a] == old_groups[a]);
                }
            }
            assert(self.users() == old(self).users());
            assert(self.entries() == old(self).entries());
            assert forall|id: UserId| old(self).has_user(id) implies self.has_user(id) by {
                let k = choose|k: int| 0 <= k < old(self).users().len() && (#[trigger] old(self).users()[k]).id == id;
                assert(self.users()[k] == old(self).users()[k]);
            }
            assert forall|id: GroupId| old(self).has_group(id) implies self.has_group(id) by {
                let k = choose|k: int| 0 <= k < old_groups.len() && (#[trigger] old_groups[k]).id == id;
                assert(self.groups()[k].id == old_groups[k].id);
            }
            old(self).lemma_refs_kept(*self);
            assert forall|a: int| 0 <= a < ng.len() implies self.group_refs_ok(#[trigger] self.groups()[a]) by {
                if a != i {
                    assert(self.groups()[a] == old_groups[a]);
                    assert(old(self).group_refs_ok(old_groups[a]));
                } else {
                    assert(old(self).group_refs_ok(old_groups[a]));
                    let om = old_groups[a].members@;
                    assert(self.groups()[a].members@ == om.push(*user_id));
                    assert(self.groups()[a].owner_id == old_groups[a].owner_id);
                    assert forall|k: int| 0 <= k < self.groups()[a].members@.len() implies self.has_user(
                        #[trigger] self.groups()[a].members@[k]) by {
                        if k < om.len() {
                            assert(old(self).has_user(om[k]));
                        } else {
                            assert(old(self).has_user(*user_id));
                        }
                    }
                }
            }
            assert forall|a: int| 0 <= a < self.entries().len() implies self.entry_refs_ok((#[trigger] self.entries()[a])@) by {
                assert(old(self).entry_refs_ok(old(self).entries()[a]@));
            }
        }
        Ok(())
    }

    /// The groups that count the user as owner or member, in page order,
    /// restricted to the page.
    pub fn get_all_for_user(&self, user_id: &UserId, pagination: DbPagination) -> (r: Vec<Group>)
        ensures
            group_views(r@) == group_views(page_of(self.groups().filter(for_user(*user_id)), pagination)),
    {
        let ghost pred = for_user(*user_id);
        let mut out: Vec<Group> = Vec::new();
        let mut k: usize = 0;
        let mut i: usize = 0;
        while i < self.groups.len()
            invariant
                i <= self.groups@.len(),
                pred == for_user(*user_id),
                k as int == self.groups().subrange(0, i as int).filter(pred).len(),
                group_views(out@) == group_views(page_of(self.groups().subrange(0, i as int).filter(pred), pagination)),
            decreases self.groups.len() - i,
        {
            proof {
                lemma_filter_step(self.groups(), pred, i as int);
            }
            if self.groups[i].contains_user(user_id) {
                let ghost f = self.groups().subrange(0, i as int).filter(pred);
                proof {
                    lemma_page_step(f, self.groups()[i as int], pagination);
                }
                if k >= pagination.offset && k - pagination.offset < pagination.limit {
                    let g = self.groups[i].clone();
                    let ghost before_out = out@;
                    out.push(g);
                    assert(group_views(out@) =~= group_views(before_out).push(g@));
                    assert(group_views(page_of(f, pagination).push(self.groups()[i as int])) =~= group_views(page_of(f, pagination)).push(g@));
                }
                k = k + 1;
            }
            i = i + 1;
        }
        assert(self.groups().subrange(0, self.groups@.len() as int) =~= self.groups());
        out
    }

    /// How many groups count the user as owner or member.
    pub fn count_all_for_user(&self, user_id: &UserId) -> (r: usize)
        ensures
            r == self.groups().filter(for_user(*user_id)).len(),
    {
        let ghost pred = for_user(*user_id);
        let mut k: usize = 0;
        let mut i: usize = 0;
        while i < self.groups.len()
            invariant
                i <= self.groups@.len(),
                pred == for_user(*user_id),
                k as int == self.groups().subrange(0, i as int).filter(pred).len(),
            decreases self.groups.len() - i,
        {
            proof {
                lemma_filter_step(self.groups(), pred, i as int);
                self.groups().subrange(0, i as int).lemma_filter_len(pred);
            }
            if self.groups[i].contains_user(user_id) {
                k = k + 1;
            }
            i = i + 1;
        }
        assert(self.groups().subrange(0, self.groups@.len() as int) =~= self.groups());
        k
    }

    /// Why adding this entry would break a constraint, if it would: a
    /// repeated key first, then a reference to a missing group or user.
    pub open spec fn create_entry_error(&self, e: ExpenseEntryView) -> Option<DbError> {
        if self.has_entry(e.id) {
            Some(DbError::UniqueViolation)
        } else if !self.has_group(e.group_id) || !self.has_user(e.payer_id) || !self.has_user(e.author_id)
            || exists|k: int| 0 <= k < e.participants.len() && !self.has_user(#[trigger] e.participants[k]) {
            Some(DbError::ForeignKeyViolation)
        } else {
            None
        }
    }

    fn find_entry(&self, id: ExpenseEntryId) -> (r: Option<usize>)
        ensures
            match r {
                Some(i) => i < self.entries().len() && self.entries()[i as int].id == id,
                None => !self.has_entry(id),
            },
    {
        let mut i: usize = 0;
        while i < self.entries.len()
            invariant
                i <= self.entries@.len(),
                forall|j: int| 0 <= j < i ==> (#[trigger] self.entries@[j]).id != id,
            decreases self.entries.len() - i,
        {
            if self.entries[i].id == id {
                return Some(i);
            }
            i = i + 1;
        }
        None
    }

    /// Adds an expense entry after the ones already stored.
    pub fn create_entry(&mut self, entry: ExpenseEntry) -> (r: Result<(), DbError>)
        requires
            old(self).wf(),
            entry.wf(),
        ensures
            final(self).wf(),
            match old(self).create_entry_error(entry@) {
                Some(e) => r == Err::<(), DbError>(e) && *final(self) == *old(self),
                None => r is Ok && final(self).users() == old(self).users()
                    && final(self).groups() == old(self).groups()
                    && final(self).entries() == old(self).entries().push(entry),
            },
    {
        if self.find_entry(entry.id).is_some() {
            return Err(DbError::UniqueViolation);
        }
        if self.find_group(entry.group_id).is_none() || self.find_user(entry.payer_id).is_none()
            || self.find_user(entry.author_id).is_none() || !self.all_users_exist(&entry.participants) {
            assert(entry@.participants == entry.participants@);
            return Err(DbError::ForeignKeyViolation);
        }
        let ghost e = entry;
        let ghost before = self.entries();
        self.entries.push(entry);
        proof {
            let ne = self.entries();
            assert(ne == before.push(e));
            assert forall|i: int, j: int| 0 <= i < ne.len() && 0 <= j < ne.len() && i != j implies
                (#[trigger] ne[i]).id != (#[trigger] ne[j]).id by {
                if i < before.len() {
                    assert(old(self).entries()[i] == ne[i]);
                }
                if j < before.len() {
                    assert(old(self).entries()[j] == ne[j]);
                }
            }
            assert(forall|i: int| 0 <= i < ne.len() ==> (#[trigger] ne[i]).wf());
            assert(self.users() == old(self).users());
            assert(self.groups() == old(self).groups());
        }
        Ok(())
    }

    pub fn get_entry_by_id(&self, id: &ExpenseEntryId) -> (r: Option<ExpenseEntry>)
        requires
            self.wf(),
        ensures
            r is Some == self.has_entry(*id),
            r is Some ==> r->Some_0@ == self.entry_by_id(*id)->Some_0@,
    {
        match self.find_entry(*id) {
            Some(i) => {
                proof {
                    let k = choose|k: int| 0 <= k < self.entries().len() && (#[trigger] self.entries()[k]).id == *id;
                    assert(k == i as int);
                }
                Some(self.entries[i].clone())
            },
            None => None,
        }
    }

    fn select_entries(&self, pred: Ghost<spec_fn(ExpenseEntry) -> bool>, group_id: Option<GroupId>, expense_id: Option<ExpenseId>, pagination: DbPagination) -> (r: Vec<ExpenseEntry>)
        requires
            forall|e: ExpenseEntry| #[trigger] pred@(e) == (match group_id {
                Some(g) => e.group_id == g && e.status == ExpenseEntryStatus::Active,
                None => true,
            } && match expense_id {
                Some(x) => e.expense_id == x,
                None => true,
            }),
        ensures
            entry_views(r@) == entry_views(page_of(self.entries().filter(pred@), pagination)),
    {
        let mut out: Vec<ExpenseEntry> = Vec::new();
        let mut k: usize = 0;
        let mut i: usize = 0;
        while i < self.entries.len()
            invariant
                i <= self.entries@.len(),
                forall|e: ExpenseEntry| #[trigger] pred@(e) == (match group_id {
                    Some(g) => e.group_id == g && e.status == ExpenseEntryStatus::Active,
                    None => true,
                } && match expense_id {
                    Some(x) => e.expense_id == x,
                    None => true,
                }),
                k as int == self.entries().subrange(0, i as int).filter(pred@).len(),
                entry_views(out@) == entry_views(page_of(self.entries().subrange(0, i as int).filter(pred@), pagination)),
            decreases self.entries.len() - i,
        {
            proof {
                lemma_filter_step(self.entries(), pred@, i as int);
            }
            let e = &self.entries[i];
            let keep = match group_id {
                Some(g) => e.group_id == g && match e.status {
                    ExpenseEntryStatus::Active => true,
                    ExpenseEntryStatus::Inactive { .. } => false,
                },
                None => true,
            } && match expense_id {
                Some(x) => e.expense_id == x,
                None => true,
            };
            if keep {
                let ghost f = self.entries().subrange(0, i as int).filter(pred@);
                proof {
                    lemma_page_step(f, self.entries()[i as int], pagination);
                }
                if k >= pagination.offset && k - pagination.offset < pagination.limit {
                    let c = self.entries[i].clone();
                    let ghost before_out = out@;
                    out.push(c);
                    assert(entry_views(out@) =~= entry_views(before_out).push(c@));
                    assert(entry_views(page_of(f, pagination).push(self.entries()[i as int])) =~= entry_views(page_of(f, pagination)).push(c@));
                }
                k = k + 1;
            }
            i = i + 1;
        }
        assert(self.entries().subrange(0, self.entries@.len() as int) =~= self.entries());
        out
    }

    /// All versions of one expense, in the order they were stored.
    pub fn get_all_by_expense_id(&self, expense_id: &ExpenseId) -> (r: Vec<ExpenseEntry>)
        ensures
            entry_views(r@) == entry_views(self.entries().filter(of_expense(*expense_id))),
    {
        let all = DbPagination { limit: usize::MAX, offset: 0 };
        let n = self.entries.len();
        assert(n == self.entries().len());
        let r = self.select_entries(Ghost(of_expense(*expense_id)), None, Some(*expense_id), all);
        proof {
            let f = self.entries().filter(of_expense(*expense_id));
            self.entries().lemma_filter_len(of_expense(*expense_id));
            assert(page_of(f, all) =~= f);
        }
        r
    }

    /// The active entries of a group, in the order they were stored,
    /// restricted to the page.
    pub fn get_all_active_for_group(&self, group_id: &GroupId, pagination: DbPagination) -> (r: Vec<ExpenseEntry>)
        ensures
            entry_views(r@) == entry_views(page_of(self.entries().filter(active_in(*group_id)), pagination)),
    {
        self.select_entries(Ghost(active_in(*group_id)), Some(*group_id), None, pagination)
    }

    /// How many active entries a group has.
    pub fn count_all_active_for_group(&self, group_id: &GroupId) -> (r: usize)
        ensures
            r == self.entries().filter(active_in(*group_id)).len(),
    {
        let ghost pred = active_in(*group_id);
        let mut k: usize = 0;
        let mut i: usize = 0;
        while i < self.entries.len()
            invariant
                i <= self.entries@.len(),
                pred == active_in(*group_id),
                k as int == self.entries().subrange(0, i as int).filter(pred).len(),
            decreases self.entries.len() - i,
        {
            proof {
                lemma_filter_step(self.entries(), pred, i as int);
                self.entries().subrange(0, i as int).lemma_filter_len(pred);
            }
            let active = match self.entries[i].status {
                ExpenseEntryStatus::Active => true,
                ExpenseEntryStatus::Inactive { .. } => false,
            };
            if self.entries[i].group_id == *group_id && active {
                k = k + 1;
            }
            i = i + 1;
        }
        assert(self.entries().subrange(0, self.entries@.len() as int) =~= self.entries());
        k
    }

    /// The stored users whose identifiers are listed, in store order.
    pub fn get_all_in_ids(&self, ids: &Vec<UserId>) -> (r: Vec<User>)
        ensures
            r@ == self.users().filter(listed_in(ids@)),
    {
        let ghost pred = listed_in(ids@);
        let mut out: Vec<User> = Vec::new();
        let mut i: usize = 0;
        while i < self.users.len()
            invariant
                i <= self.users@.len(),
                pred == listed_in(ids@),
                out@ == self.users().subrange(0, i as int).filter(pred),
            decreases self.users.len() - i,
        {
            proof {
                lemma_filter_step(self.users(), pred, i as int);
            }
            if ids_contain(ids, self.users[i].id) {
                out.push(self.users[i].clone());
            }
            i = i + 1;
        }
        assert(self.users().subrange(0, self.users@.len() as int) =~= self.users());
        out
    }
}

} // verus!
