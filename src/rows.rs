//! How entities are encoded in stored rows.

use vstd::prelude::*;
use vstd::string::StringExecFns;
use crate::contact::Timestamp;
use crate::entities::{ids_contain, ExpenseEntry, ExpenseEntryStatus, ExpenseEntryView, Group, User};
use crate::names::{groupname_rule, username_rule, Groupname, Username};
use crate::contact::{email_address_of, Email};
use crate::ids::{id_rule, ExpenseEntryId, ExpenseId, GroupId, UserId};
use crate::money::Money;
use crate::role::Role;
use crate::store::{entry_views, DbError};

verus! {

/// The decimal digits of a number, most significant first.
pub open spec fn decimal_of(n: nat) -> Seq<char>
    decreases n,
{
    if n < 10 {
        seq![digit_char(n)]
    } else {
        decimal_of(n / 10).push(digit_char(n))
    }
}

/// The character of a decimal digit.
pub open spec fn digit_char(d: nat) -> char {
    ((d % 10) + ('0' as nat)) as char
}

fn digit_text(d: u8) -> (r: &'static str)
    requires
        d < 10,
    ensures
        r@ == seq![digit_char(d as nat)],
{
    proof {
        reveal_strlit("0");
        reveal_strlit("1");
        reveal_strlit("2");
        reveal_strlit("3");
        reveal_strlit("4");
        reveal_strlit("5");
        reveal_strlit("6");
        reveal_strlit("7");
        reveal_strlit("8");
        reveal_strlit("9");
    }
    let r = match d {
        0 => "0",
        1 => "1",
        2 => "2",
        3 => "3",
        4 => "4",
        5 => "5",
        6 => "6",
        7 => "7",
        8 => "8",
        _ => "9",
    };
    assert(r@ =~= seq![digit_char(d as nat)]);
    r
}

/// The decimal digits of a byte.
fn decimal_text(n: u8) -> (r: String)
    ensures
        r@ == decimal_of(n as nat),
{
    proof {
        reveal_with_fuel(decimal_of, 3);
    }
    if n < 10 {
        let r = String::from_str(digit_text(n));
        assert(r@ =~= decimal_of(n as nat));
        r
    } else if n < 100 {
        let r = String::from_str(digit_text(n / 10)).concat(digit_text(n % 10));
        assert(decimal_of((n / 10) as nat) == seq![digit_char((n / 10) as nat)]);
        assert(r@ =~= decimal_of(n as nat));
        r
    } else {
        let r = String::from_str(digit_text(n / 100)).concat(digit_text((n / 10) % 10)).concat(digit_text(n % 10));
        assert(decimal_of((n / 100) as nat) == seq![digit_char((n / 100) as nat)]);
        assert(((n / 10) as nat) / 10 == (n / 100) as nat);
        assert(decimal_of((n / 10) as nat) =~= seq![digit_char((n / 100) as nat), digit_char(((n / 10) % 10) as nat)]);
        assert(r@ =~= decimal_of(n as nat));
        r
    }
}

/// A role as the store encodes it: 10, 20 or 30, with room between.
pub struct DbRole(pub u8);

/// The code of a role.
pub open spec fn role_code(r: Role) -> u8 {
    match r {
        Role::User => 10,
        Role::Moderator => 20,
        Role::Admin => 30,
    }
}

/// The message for a role code that names no role.
pub open spec fn unknown_role_msg(code: u8) -> Seq<char> {
    seq!['u', 'n', 'k', 'n', 'o', 'w', 'n', ' ', 'r', 'o', 'l', 'e', ':', ' ', '\''] + decimal_of(code as nat)
        + seq!['\'']
}

impl DbRole {
    pub fn from_role(r: &Role) -> (d: DbRole)
        ensures
            d.0 == role_code(*r),
    {
        DbRole(
            match r {
                Role::User => 10,
                Role::Moderator => 20,
                Role::Admin => 30,
            },
        )
    }

    /// Decodes a stored role; an unknown code means corrupted data.
    pub fn try_into_role(self) -> (r: Result<Role, DbError>)
        ensures
            self.0 == 10 ==> r == Ok::<Role, DbError>(Role::User),
            self.0 == 20 ==> r == Ok::<Role, DbError>(Role::Moderator),
            self.0 == 30 ==> r == Ok::<Role, DbError>(Role::Admin),
            self.0 != 10 && self.0 != 20 && self.0 != 30 ==> (r matches Err(DbError::CorruptedData { msg })
                && msg@ == unknown_role_msg(self.0)),
            r matches Ok(role) ==> role_code(role) == self.0,
    {
        match self.0 {
            10 => Ok(Role::User),
            20 => Ok(Role::Moderator),
            30 => Ok(Role::Admin),
            other => {
                proof {
                    reveal_strlit("unknown role: '");
                    reveal_strlit("'");
                }
                let msg = String::from_str("unknown role: '").concat(decimal_text(other).as_str()).concat("'");
                assert(msg@ =~= unknown_role_msg(other));
                Err(DbError::CorruptedData { msg })
            },
        }
    }
}

/// A raw identifier that may stand in a row.
pub open spec fn valid_raw(v: u128) -> bool {
    id_rule(v) is Ok
}

/// The distinct identifiers of a sequence, each at its first place.
pub open spec fn distinct(s: Seq<UserId>) -> Seq<UserId>
    decreases s.len(),
{
    if s.len() == 0 {
        s
    } else {
        let d = distinct(s.drop_last());
        if d.contains(s.last()) {
            d
        } else {
            d.push(s.last())
        }
    }
}

/// User identifiers of raw values.
pub open spec fn user_ids_of(raw: Seq<u128>) -> Seq<UserId> {
    raw.map_values(|v: u128| UserId::from_value(v))
}

fn corrupted(what: &str) -> (r: DbError)
    ensures
        r is CorruptedData,
{
    DbError::CorruptedData { msg: String::from_str(what) }
}

/// The identifiers of a list, without repetition, in order of first place.
pub fn dedup_ids(v: &Vec<UserId>) -> (r: Vec<UserId>)
    ensures
        r@ == distinct(v@),
        r@.no_duplicates(),
{
    let mut out: Vec<UserId> = Vec::new();
    let mut i: usize = 0;
    while i < v.len()
        invariant
            i <= v@.len(),
            out@ == distinct(v@.subrange(0, i as int)),
            out@.no_duplicates(),
        decreases v.len() - i,
    {
        assert(v@.subrange(0, i + 1).drop_last() =~= v@.subrange(0, i as int));
        assert(v@.subrange(0, i + 1).last() == v@[i as int]);
        if !ids_contain(&out, v[i]) {
            out.push(v[i]);
        }
        i = i + 1;
    }
    assert(v@.subrange(0, v@.len() as int) =~= v@);
    out
}

/// Reads raw user identifiers; one that is all zero or all one bits means
/// corrupted data.
pub fn user_ids_from_raw(raw: &Vec<u128>) -> (r: Result<Vec<UserId>, DbError>)
    ensures
        (forall|k: int| 0 <= k < raw@.len() ==> valid_raw(#[trigger] raw@[k])) ==> r is Ok && r->Ok_0@ == user_ids_of(raw@),
        !(forall|k: int| 0 <= k < raw@.len() ==> valid_raw(#[trigger] raw@[k])) ==> r is Err && r->Err_0 is CorruptedData,
{
    let mut out: Vec<UserId> = Vec::new();
    let mut i: usize = 0;
    while i < raw.len()
        invariant
            i <= raw@.len(),
            out@ == user_ids_of(raw@.subrange(0, i as int)),
            forall|k: int| 0 <= k < i ==> valid_raw(#[trigger] raw@[k]),
        decreases raw.len() - i,
    {
        match UserId::new(raw[i]) {
            Ok(u) => {
                out.push(u);
                assert(user_ids_of(raw@.subrange(0, i + 1)) =~= user_ids_of(raw@.subrange(0, i as int)).push(u));
            },
            Err(_) => {
                return Err(corrupted("corrupted participant(s)"));
            },
        }
        i = i + 1;
    }
    assert(raw@.subrange(0, raw@.len() as int) =~= raw@);
    Ok(out)
}

/// A stored expense entry, without its participants.
#[derive(Debug, Clone, Copy)]
pub struct DbExpenseEntry {
    pub id: u128,
    pub expense_id: u128,
    pub group_id: u128,
    pub payer_id: u128,
    /// Nothing while active; the identifier of the superseding entry otherwise.
    pub status: Option<u128>,
    pub total: i64,
    pub author_id: u128,
    pub occurred_at: Timestamp,
    pub created_at: Timestamp,
}

/// A stored entry with the identifiers of its participants.
pub struct DbExpenseEntryWithParticipants {
    pub entry: DbExpenseEntry,
    pub participants: Vec<u128>,
}

/// One row of an entry joined with at most one of its participants.
#[derive(Debug, Clone, Copy)]
pub struct DbExpenseEntryWithOptionalParticipant {
    pub entry: DbExpenseEntry,
    pub participant_id: Option<u128>,
}

/// Whether a stored entry, with these participants, reads as an entity.
pub open spec fn entry_row_valid(e: DbExpenseEntry, participants: Seq<u128>) -> bool {
    &&& valid_raw(e.id)
    &&& valid_raw(e.expense_id)
    &&& valid_raw(e.group_id)
    &&& valid_raw(e.payer_id)
    &&& valid_raw(e.author_id)
    &&& (e.status matches Some(x) ==> valid_raw(x))
    &&& forall|k: int| 0 <= k < participants.len() ==> valid_raw(#[trigger] participants[k])
    &&& e.total >= 0
}

/// The entity that a valid stored entry reads as; repeated participants count once.
pub open spec fn entry_of_row(e: DbExpenseEntry, participants: Seq<u128>) -> ExpenseEntryView {
    ExpenseEntryView {
        id: ExpenseEntryId::from_value(e.id),
        expense_id: ExpenseId::from_value(e.expense_id),
        group_id: GroupId::from_value(e.group_id),
        payer_id: UserId::from_value(e.payer_id),
        participants: distinct(user_ids_of(participants)),
        status: match e.status {
            None => ExpenseEntryStatus::Active,
            Some(x) => ExpenseEntryStatus::Inactive { overwritten_by: ExpenseEntryId::from_value(x) },
        },
        total: Money::spec_from_cents(e.total),
        author_id: UserId::from_value(e.author_id),
        occurred_at: e.occurred_at,
        created_at: e.created_at,
    }
}

/// Reads a stored entry with the given participants.
pub fn build_expense_entry(e: &DbExpenseEntry, participants: &Vec<u128>) -> (r: Result<ExpenseEntry, DbError>)
    ensures
        entry_row_valid(*e, participants@) ==> r is Ok && r->Ok_0@ == entry_of_row(*e, participants@),
        !entry_row_valid(*e, participants@) ==> r is Err && r->Err_0 is CorruptedData,
{
    let id = match ExpenseEntryId::new(e.id) {
        Ok(v) => v,
        Err(_) => {
            return Err(corrupted("corrupted id"));
        },
    };
    let expense_id = match ExpenseId::new(e.expense_id) {
        Ok(v) => v,
        Err(_) => {
            return Err(corrupted("corrupted expense_id"));
        },
    };
    let group_id = match GroupId::new(e.group_id) {
        Ok(v) => v,
        Err(_) => {
            return Err(corrupted("corrupted group_id"));
        },
    };
    let payer_id = match UserId::new(e.payer_id) {
        Ok(v) => v,
        Err(_) => {
            return Err(corrupted("corrupted payer_id"));
        },
    };
    let author_id = match UserId::new(e.author_id) {
        Ok(v) => v,
        Err(_) => {
            return Err(corrupted("corrupted author_id"));
        },
    };
    let status = match e.status {
        None => ExpenseEntryStatus::Active,
        Some(x) => match ExpenseEntryId::new(x) {
            Ok(v) => ExpenseEntryStatus::Inactive { overwritten_by: v },
            Err(_) => {
                return Err(corrupted("corrupted status"));
            },
        },
    };
    let ids = match user_ids_from_raw(participants) {
        Ok(v) => v,
        Err(err) => {
            return Err(err);
        },
    };
    let unique = dedup_ids(&ids);
    let total = Money::from_cents(e.total);
    match ExpenseEntry::new(id, expense_id, group_id, payer_id, unique, status, total, author_id, e.occurred_at, e.created_at) {
        Ok(entry) => Ok(entry),
        Err(_) => Err(corrupted("corrupted expense entry")),
    }
}

/// The raw values of user identifiers.
pub open spec fn raw_of(s: Seq<UserId>) -> Seq<u128> {
    s.map_values(|u: UserId| u@)
}

/// The stored form of an entry, without its participants.
pub open spec fn row_of_entry(e: ExpenseEntryView) -> DbExpenseEntry {
    DbExpenseEntry {
        id: e.id@,
        expense_id: e.expense_id@,
        group_id: e.group_id@,
        payer_id: e.payer_id@,
        status: match e.status {
            ExpenseEntryStatus::Active => None,
            ExpenseEntryStatus::Inactive { overwritten_by } => Some(overwritten_by@),
        },
        total: e.total.spec_cents() as i64,
        author_id: e.author_id@,
        occurred_at: e.occurred_at,
        created_at: e.created_at,
    }
}

/// A sequence without repetition is its own distinct items.
pub proof fn lemma_distinct_of_unique(s: Seq<UserId>)
    requires
        s.no_duplicates(),
    ensures
        distinct(s) == s,
    decreases s.len(),
{
    if s.len() > 0 {
        let d = s.drop_last();
        assert(d.no_duplicates());
        lemma_distinct_of_unique(d);
        if d.contains(s.last()) {
            let j = choose|j: int| 0 <= j < d.len() && d[j] == s.last();
            assert(s[j] == s[s.len() - 1]);
        }
        assert(d.push(s.last()) =~= s);
    }
}

impl DbExpenseEntryWithParticipants {
    /// The stored form of an entry.
    pub fn from_entry(e: &ExpenseEntry) -> (r: Self)
        ensures
            r.entry == row_of_entry(e@),
            r.participants@ == raw_of(e.participants@),
    {
        let mut participants: Vec<u128> = Vec::new();
        let mut i: usize = 0;
        while i < e.participants.len()
            invariant
                i <= e.participants@.len(),
                participants@ == raw_of(e.participants@.subrange(0, i as int)),
            decreases e.participants.len() - i,
        {
            participants.push(e.participants[i].value());
            i = i + 1;
            assert(participants@ =~= raw_of(e.participants@.subrange(0, i as int)));
        }
        assert(e.participants@.subrange(0, e.participants@.len() as int) =~= e.participants@);
        let entry = DbExpenseEntry {
            id: e.id.value(),
            expense_id: e.expense_id.value(),
            group_id: e.group_id.value(),
            payer_id: e.payer_id.value(),
            status: match e.status {
                ExpenseEntryStatus::Active => None,
                ExpenseEntryStatus::Inactive { overwritten_by } => Some(overwritten_by.value()),
            },
            total: e.total.cents(),
            author_id: e.author_id.value(),
            occurred_at: e.occurred_at,
            created_at: e.created_at,
        };
        DbExpenseEntryWithParticipants { entry, participants }
    }

    /// Reads the stored entry as an entity; an invalid field means corrupted data.
    pub fn try_into_entry(self) -> (r: Result<ExpenseEntry, DbError>)
        ensures
            entry_row_valid(self.entry, self.participants@) ==> r is Ok && r->Ok_0@ == entry_of_row(
                self.entry,
                self.participants@,
            ),
            !entry_row_valid(self.entry, self.participants@) ==> r is Err && r->Err_0 is CorruptedData,
    {
        build_expense_entry(&self.entry, &self.participants)
    }
}

/// The participant that a joined row carries, if any.
pub open spec fn participant_of(r: DbExpenseEntryWithOptionalParticipant) -> Seq<u128> {
    match r.participant_id {
        Some(p) => seq![p],
        None => Seq::empty(),
    }
}

/// Consecutive joined rows of one entry, gathered: each run is the entry's
/// first row and the participants of all its rows.
pub open spec fn entry_runs(rows: Seq<DbExpenseEntryWithOptionalParticipant>) -> Seq<(DbExpenseEntry, Seq<u128>)>
    decreases rows.len(),
{
    if rows.len() == 0 {
        Seq::empty()
    } else {
        let prev = entry_runs(rows.drop_last());
        let r = rows.last();
        if prev.len() > 0 && prev.last().0.id == r.entry.id {
            prev.update(prev.len() - 1, (prev.last().0, prev.last().1 + participant_of(r)))
        } else {
            prev.push((r.entry, participant_of(r)))
        }
    }
}

/// Runs are maximal: two neighbouring runs belong to different entries, there
/// is a run exactly when there is a row, and the first row heads the first run.
pub open spec fn runs_maximal(rows: Seq<DbExpenseEntryWithOptionalParticipant>, runs: Seq<(DbExpenseEntry, Seq<u128>)>) -> bool {
    &&& (runs.len() == 0 <==> rows.len() == 0)
    &&& forall|k: int| 0 <= k < runs.len() - 1 ==> (#[trigger] runs[k]).0.id != runs[k + 1].0.id
    &&& rows.len() > 0 ==> runs[0].0 == rows[0].entry
}

/// Gathering consecutive rows yields maximal runs.
pub proof fn lemma_entry_runs_maximal(rows: Seq<DbExpenseEntryWithOptionalParticipant>)
    ensures
        runs_maximal(rows, entry_runs(rows)),
    decreases rows.len(),
{
    if rows.len() > 0 {
        let prev = entry_runs(rows.drop_last());
        lemma_entry_runs_maximal(rows.drop_last());
        let runs = entry_runs(rows);
        assert forall|k: int| 0 <= k < runs.len() - 1 implies (#[trigger] runs[k]).0.id != runs[k + 1].0.id by {
            if k + 1 < prev.len() {
                assert(runs[k].0 == prev[k].0 && runs[k + 1].0 == prev[k + 1].0);
            } else {
                assert(runs[k].0 == prev[k].0);
            }
        }
        if rows.len() > 1 {
            assert(rows.drop_last()[0] == rows[0]);
            assert(runs[0].0 == prev[0].0);
        }
    }
}

/// The entities that valid runs read as.
pub open spec fn entries_of_runs(runs: Seq<(DbExpenseEntry, Seq<u128>)>) -> Seq<ExpenseEntryView> {
    runs.map_values(|x: (DbExpenseEntry, Seq<u128>)| entry_of_row(x.0, x.1))
}

/// Every run reads as an entity.
pub open spec fn runs_valid(runs: Seq<(DbExpenseEntry, Seq<u128>)>) -> bool {
    forall|k: int| 0 <= k < runs.len() ==> entry_row_valid((#[trigger] runs[k]).0, runs[k].1)
}

/// The exec form of a run.
pub open spec fn run_matches(x: (DbExpenseEntry, Vec<u128>), y: (DbExpenseEntry, Seq<u128>)) -> bool {
    x.0 == y.0 && x.1@ == y.1
}

fn gather_runs(rows: &Vec<DbExpenseEntryWithOptionalParticipant>) -> (r: Vec<(DbExpenseEntry, Vec<u128>)>)
    ensures
        r@.len() == entry_runs(rows@).len(),
        forall|k: int| 0 <= k < r@.len() ==> run_matches(#[trigger] r@[k], entry_runs(rows@)[k]),
{
    let mut runs: Vec<(DbExpenseEntry, Vec<u128>)> = Vec::new();
    let mut i: usize = 0;
    while i < rows.len()
        invariant
            i <= rows@.len(),
            runs@.len() == entry_runs(rows@.subrange(0, i as int)).len(),
            forall|k: int| 0 <= k < runs@.len() ==> run_matches(#[trigger] runs@[k], entry_runs(rows@.subrange(0, i as int))[k]),
        decreases rows.len() - i,
    {
        let row = rows[i];
        let ghost prev = entry_runs(rows@.subrange(0, i as int));
        assert(rows@.subrange(0, i + 1).drop_last() =~= rows@.subrange(0, i as int));
        assert(rows@.subrange(0, i + 1).last() == row);
        let ghost next = entry_runs(rows@.subrange(0, i + 1));
        let n = runs.len();
        let same = n > 0 && runs[n - 1].0.id == row.entry.id;
        if same {
            let ghost before = runs@;
            match runs.pop() {
                Some(last) => {
                    let (head, mut parts) = last;
                    match row.participant_id {
                        Some(p) => {
                            parts.push(p);
                        },
                        None => {},
                    }
                    assert(parts@ == prev.last().1 + participant_of(row));
                    runs.push((head, parts));
                    assert forall|k: int| 0 <= k < runs@.len() implies run_matches(#[trigger] runs@[k], next[k]) by {
                        if k < n - 1 {
                            assert(runs@[k] == before[k]);
                        }
                    }
                },
                None => {},
            }
        } else {
            let mut parts: Vec<u128> = Vec::new();
            match row.participant_id {
                Some(p) => {
                    parts.push(p);
                },
                None => {},
            }
            assert(parts@ =~= participant_of(row));
            let ghost before = runs@;
            runs.push((row.entry, parts));
            assert forall|k: int| 0 <= k < runs@.len() implies run_matches(#[trigger] runs@[k], next[k]) by {
                if k < n {
                    assert(runs@[k] == before[k]);
                }
            }
        }
        i = i + 1;
    }
    assert(rows@.subrange(0, rows@.len() as int) =~= rows@);
    runs
}

/// Reads joined rows (an entry with one participant per row, rows of one
/// entry next to each other) as entities, one per run of rows.
pub fn flatten_expense_entries_with_participants(rows: Vec<DbExpenseEntryWithOptionalParticipant>) -> (r: Result<
    Vec<ExpenseEntry>,
    DbError,
>)
    ensures
        runs_maximal(rows@, entry_runs(rows@)),
        runs_valid(entry_runs(rows@)) ==> r is Ok && entry_views(r->Ok_0@) == entries_of_runs(entry_runs(rows@)),
        !runs_valid(entry_runs(rows@)) ==> r is Err && r->Err_0 is CorruptedData,
{
    let runs = gather_runs(&rows);
    let ghost spec_runs = entry_runs(rows@);
    proof {
        lemma_entry_runs_maximal(rows@);
    }
    let mut out: Vec<ExpenseEntry> = Vec::new();
    let mut k: usize = 0;
    while k < runs.len()
        invariant
            k <= runs@.len(),
            runs@.len() == spec_runs.len(),
            spec_runs == entry_runs(rows@),
            runs_maximal(rows@, spec_runs),
            forall|j: int| 0 <= j < runs@.len() ==> run_matches(#[trigger] runs@[j], spec_runs[j]),
            forall|j: int| 0 <= j < k ==> entry_row_valid((#[trigger] spec_runs[j]).0, spec_runs[j].1),
            entry_views(out@) == entries_of_runs(spec_runs.subrange(0, k as int)),
        decreases runs.len() - k,
    {
        assert(run_matches(runs@[k as int], spec_runs[k as int]));
        match build_expense_entry(&runs[k].0, &runs[k].1) {
            Ok(e) => {
                let ghost before = out@;
                out.push(e);
                assert(entry_views(out@) =~= entry_views(before).push(e@));
                assert(entries_of_runs(spec_runs.subrange(0, k + 1)) =~= entries_of_runs(spec_runs.subrange(0, k as int)).push(
                    entry_of_row(spec_runs[k as int].0, spec_runs[k as int].1)));
            },
            Err(err) => {
                return Err(err);
            },
        }
        k = k + 1;
    }
    assert(spec_runs.subrange(0, spec_runs.len() as int) =~= spec_runs);
    Ok(out)
}

/// A stored group, without its members.
pub struct DbGroup {
    pub id: u128,
    pub name: String,
    pub owner_id: u128,
    pub created_at: Timestamp,
}

/// A stored membership.
#[derive(Debug, Clone, Copy)]
pub struct DbGroupMember {
    pub group_id: u128,
    pub member_id: u128,
}

/// A stored group with its memberships.
pub struct DbGroupWithMembers {
    pub group: DbGroup,
    pub members: Vec<DbGroupMember>,
}

/// One row of a group joined with one of its members.
pub struct DbGroupWithMember {
    pub id: u128,
    pub name: String,
    pub owner_id: u128,
    pub member_id: u128,
    pub created_at: Timestamp,
}

/// Whether a stored group, with these members, reads as an entity: valid
/// identifiers, a valid name, and the owner not among the members.
pub open spec fn group_row_valid(id: u128, name: Seq<char>, owner_id: u128, members: Seq<u128>) -> bool {
    &&& valid_raw(id)
    &&& groupname_rule(name) is Ok
    &&& valid_raw(owner_id)
    &&& forall|k: int| 0 <= k < members.len() ==> valid_raw(#[trigger] members[k])
    &&& !distinct(user_ids_of(members)).contains(UserId::from_value(owner_id))
}

/// The group reads as the stored one: repeated members count once.
pub open spec fn reads_as_group(g: Group, id: u128, name: Seq<char>, owner_id: u128, members: Seq<u128>, created_at: Timestamp) -> bool {
    &&& g.id == GroupId::from_value(id)
    &&& g.name@ == groupname_rule(name)->Ok_0
    &&& g.owner_id == UserId::from_value(owner_id)
    &&& g.members@ == distinct(user_ids_of(members))
    &&& g.created_at == created_at
    &&& g.wf()
}

/// Reads a stored group with the given member identifiers.
pub fn group_from_row(id: u128, name: &String, owner_id: u128, members: &Vec<u128>, created_at: Timestamp) -> (r: Result<Group, DbError>)
    ensures
        group_row_valid(id, name@, owner_id, members@) ==> r is Ok && reads_as_group(r->Ok_0, id, name@, owner_id, members@, created_at),
        !group_row_valid(id, name@, owner_id, members@) ==> r is Err && r->Err_0 is CorruptedData,
{
    let gid = match GroupId::new(id) {
        Ok(v) => v,
        Err(_) => {
            return Err(corrupted("corrupted group_id"));
        },
    };
    let groupname = match Groupname::parse(name.as_str()) {
        Ok(v) => v,
        Err(_) => {
            return Err(corrupted("corrupted group_name"));
        },
    };
    let owner = match UserId::new(owner_id) {
        Ok(v) => v,
        Err(_) => {
            return Err(corrupted("corrupted owner_id"));
        },
    };
    let ids = match user_ids_from_raw(members) {
        Ok(v) => v,
        Err(err) => {
            return Err(err);
        },
    };
    let unique = dedup_ids(&ids);
    if ids_contain(&unique, owner) {
        return Err(corrupted("owner listed as member"));
    }
    Ok(Group::new(gid, groupname, owner, unique, created_at))
}

/// The member identifiers of stored memberships.
pub open spec fn member_ids(members: Seq<DbGroupMember>) -> Seq<u128> {
    members.map_values(|m: DbGroupMember| m.member_id)
}

impl DbGroupWithMembers {
    /// The stored form of a group; it reads back as the same group.
    pub fn from_group(g: &Group) -> (r: Self)
        requires
            g.wf(),
        ensures
            r.group.id == g.id@,
            r.group.name@ == g.name@,
            r.group.owner_id == g.owner_id@,
            r.group.created_at == g.created_at,
            member_ids(r.members@) == raw_of(g.members@),
            group_row_valid(r.group.id, r.group.name@, r.group.owner_id, member_ids(r.members@)),
            forall|x: Group|
                reads_as_group(x, r.group.id, r.group.name@, r.group.owner_id, member_ids(r.members@), r.group.created_at)
                    ==> x.id == g.id && x.name@ == g.name@ && x.owner_id == g.owner_id && x.members@ == g.members@
                    && x.created_at == g.created_at,
    {
        broadcast use UserId::lemma_of_own_value, GroupId::lemma_of_own_value;

        let id = g.id.value();
        let owner_id = g.owner_id.value();
        let mut members: Vec<DbGroupMember> = Vec::new();
        let mut i: usize = 0;
        while i < g.members.len()
            invariant
                i <= g.members@.len(),
                member_ids(members@) == raw_of(g.members@.subrange(0, i as int)),
                forall|k: int| 0 <= k < i ==> valid_raw(#[trigger] members@[k].member_id),
            decreases g.members.len() - i,
        {
            let m = g.members[i].value();
            let ghost before = members@;
            members.push(DbGroupMember { group_id: id, member_id: m });
            assert(member_ids(members@) =~= member_ids(before).push(m));
            assert(raw_of(g.members@.subrange(0, i + 1)) =~= raw_of(g.members@.subrange(0, i as int)).push(m));
            i = i + 1;
        }
        assert(g.members@.subrange(0, g.members@.len() as int) =~= g.members@);
        let name = g.name.value();
        let r = DbGroupWithMembers { group: DbGroup { id, name, owner_id, created_at: g.created_at }, members };
        proof {
            let ms = member_ids(r.members@);
            assert forall|k: int| 0 <= k < ms.len() implies valid_raw(#[trigger] ms[k]) by {
                assert(ms[k] == r.members@[k].member_id);
            }
            assert(user_ids_of(ms) =~= g.members@);
            lemma_distinct_of_unique(g.members@);
        }
        r
    }

    /// Reads the stored group as an entity; an invalid field means corrupted data.
    pub fn try_into_group(self) -> (r: Result<Group, DbError>)
        ensures
            ({
                let ms = self.members@.map_values(|m: DbGroupMember| m.member_id);
                &&& group_row_valid(self.group.id, self.group.name@, self.group.owner_id, ms) ==> r is Ok
                    && reads_as_group(r->Ok_0, self.group.id, self.group.name@, self.group.owner_id, ms, self.group.created_at)
                &&& !group_row_valid(self.group.id, self.group.name@, self.group.owner_id, ms) ==> r is Err
                    && r->Err_0 is CorruptedData
            }),
    {
        let mut ms: Vec<u128> = Vec::new();
        let mut i: usize = 0;
        while i < self.members.len()
            invariant
                i <= self.members@.len(),
                ms@ == self.members@.subrange(0, i as int).map_values(|m: DbGroupMember| m.member_id),
            decreases self.members.len() - i,
        {
            ms.push(self.members[i].member_id);
            i = i + 1;
            assert(ms@ =~= self.members@.subrange(0, i as int).map_values(|m: DbGroupMember| m.member_id));
        }
        assert(self.members@.subrange(0, self.members@.len() as int) =~= self.members@);
        group_from_row(self.group.id, &self.group.name, self.group.owner_id, &ms, self.group.created_at)
    }
}

/// The position of the last run of a group, or -1.
pub open spec fn find_run(runs: Seq<(int, Seq<u128>)>, rows: Seq<DbGroupWithMember>, id: u128) -> int
    decreases runs.len(),
{
    if runs.len() == 0 {
        -1
    } else if 0 <= runs.last().0 < rows.len() && rows[runs.last().0].id == id {
        runs.len() - 1
    } else {
        find_run(runs.drop_last(), rows, id)
    }
}

/// The rows of each group gathered, in order of first appearance: the
/// position of the group's first row and the members of all its rows.
pub open spec fn group_runs(rows: Seq<DbGroupWithMember>, n: int) -> Seq<(int, Seq<u128>)>
    decreases n,
{
    if n <= 0 {
        Seq::empty()
    } else {
        let prev = group_runs(rows, n - 1);
        let r = rows[n - 1];
        let k = find_run(prev, rows, r.id);
        if k >= 0 {
            prev.update(k, (prev[k].0, prev[k].1.push(r.member_id)))
        } else {
            prev.push((n - 1, seq![r.member_id]))
        }
    }
}

/// The rows of one group.
pub open spec fn with_group_id(id: u128) -> spec_fn(DbGroupWithMember) -> bool {
    |r: DbGroupWithMember| r.id == id
}

/// The member identifiers of the rows of one group, in row order.
pub open spec fn members_of(rows: Seq<DbGroupWithMember>, id: u128) -> Seq<u128> {
    rows.filter(with_group_id(id)).map_values(|r: DbGroupWithMember| r.member_id)
}

/// Each run is headed by one of the first `n` rows.
#[verifier::opaque]
pub open spec fn runs_heads(runs: Seq<(int, Seq<u128>)>, n: int) -> bool {
    forall|k: int| 0 <= k < runs.len() ==> 0 <= (#[trigger] runs[k]).0 < n
}

/// Runs stand in the order of their heads, one per group identifier.
#[verifier::opaque]
pub open spec fn runs_ordered(rows: Seq<DbGroupWithMember>, runs: Seq<(int, Seq<u128>)>) -> bool {
    forall|k: int, l: int| 0 <= k < l < runs.len() ==> (#[trigger] runs[k]).0 < (#[trigger] runs[l]).0
        && rows[runs[k].0].id != rows[runs[l].0].id
}

/// The head of a run is the first row of its group.
#[verifier::opaque]
pub open spec fn runs_first(rows: Seq<DbGroupWithMember>, runs: Seq<(int, Seq<u128>)>) -> bool {
    forall|k: int, i: int| 0 <= k < runs.len() && 0 <= i < (#[trigger] runs[k]).0 ==> (#[trigger] rows[i]).id
        != rows[runs[k].0].id
}

/// Every one of the first `n` rows belongs to some run.
#[verifier::opaque]
pub open spec fn runs_cover(rows: Seq<DbGroupWithMember>, n: int, runs: Seq<(int, Seq<u128>)>) -> bool {
    forall|i: int| 0 <= i < n ==> exists|k: int| 0 <= k < runs.len() && rows[(#[trigger] runs[k]).0].id == (#[trigger] rows[i]).id
}

/// Each run holds the members of all of the first `n` rows of its group.
#[verifier::opaque]
pub open spec fn runs_members(rows: Seq<DbGroupWithMember>, n: int, runs: Seq<(int, Seq<u128>)>) -> bool {
    forall|k: int| 0 <= k < runs.len() ==> (#[trigger] runs[k]).1 == members_of(rows.subrange(0, n), rows[runs[k].0].id)
}

/// What gathering the first `n` rows means: one run per group identifier,
/// headed by the first row with that identifier, runs in order of those first
/// rows, and each run holding the members of all rows of its group.
pub open spec fn gathered(rows: Seq<DbGroupWithMember>, n: int, runs: Seq<(int, Seq<u128>)>) -> bool {
    &&& runs_heads(runs, n)
    &&& runs_ordered(rows, runs)
    &&& runs_first(rows, runs)
    &&& runs_cover(rows, n, runs)
    &&& runs_members(rows, n, runs)
}

proof fn lemma_no_match_filter_empty(s: Seq<DbGroupWithMember>, id: u128)
    requires
        forall|i: int| 0 <= i < s.len() ==> (#[trigger] s[i]).id != id,
    ensures
        s.filter(with_group_id(id)).len() == 0,
{
    let f = s.filter(with_group_id(id));
    if f.len() > 0 {
        s.lemma_filter_pred(with_group_id(id), 0);
        assert(f.contains(f[0]));
        s.lemma_filter_contains_rev(with_group_id(id), f[0]);
    }
}

/// Facts of one gathering step: whether the new row's group already has a
/// run, and if not, that no earlier row belongs to it.
proof fn lemma_step_facts(rows: Seq<DbGroupWithMember>, n: int)
    requires
        0 < n <= rows.len(),
        gathered(rows, n - 1, group_runs(rows, n - 1)),
    ensures
        ({
            let prev = group_runs(rows, n - 1);
            let k0 = find_run(prev, rows, rows[n - 1].id);
            &&& -1 <= k0 < prev.len()
            &&& k0 >= 0 ==> rows[prev[k0].0].id == rows[n - 1].id
            &&& k0 == -1 ==> forall|k: int| 0 <= k < prev.len() ==> rows[(#[trigger] prev[k]).0].id != rows[n - 1].id
            &&& k0 == -1 ==> forall|i: int| 0 <= i < n - 1 ==> (#[trigger] rows[i]).id != rows[n - 1].id
        }),
{
    let prev = group_runs(rows, n - 1);
    let r = rows[n - 1];
    lemma_find_run(prev, rows, r.id);
    reveal(runs_heads);
    reveal(runs_cover);
    if find_run(prev, rows, r.id) == -1 {
        assert forall|k: int| 0 <= k < prev.len() implies rows[(#[trigger] prev[k]).0].id != r.id by {
            assert(0 <= prev[k].0 < n - 1);
        }
        assert forall|i: int| 0 <= i < n - 1 implies (#[trigger] rows[i]).id != r.id by {
            let k = choose|k: int| 0 <= k < prev.len() && rows[(#[trigger] prev[k]).0].id == rows[i].id;
        }
    }
}

proof fn lemma_step_members(rows: Seq<DbGroupWithMember>, n: int)
    requires
        0 < n <= rows.len(),
        gathered(rows, n - 1, group_runs(rows, n - 1)),
    ensures
        runs_members(rows, n, group_runs(rows, n)),
{
    lemma_step_facts(rows, n);
    let prev = group_runs(rows, n - 1);
    let r = rows[n - 1];
    let runs = group_runs(rows, n);
    let k0 = find_run(prev, rows, r.id);
    reveal(runs_members);
    reveal(runs_ordered);
    if k0 == -1 {
        lemma_no_match_filter_empty(rows.subrange(0, n - 1), r.id);
        assert(members_of(rows.subrange(0, n - 1), r.id) =~= Seq::<u128>::empty());
    }
    assert forall|k: int| 0 <= k < runs.len() implies (#[trigger] runs[k]).1 == members_of(rows.subrange(0, n), rows[runs[k].0].id) by {
        let id = rows[runs[k].0].id;
        crate::store::lemma_filter_step(rows, with_group_id(id), n - 1);
        let f0 = rows.subrange(0, n - 1).filter(with_group_id(id));
        if id == r.id {
            assert(f0.push(r).map_values(|x: DbGroupWithMember| x.member_id) =~= f0.map_values(
                |x: DbGroupWithMember| x.member_id).push(r.member_id));
        }
        if k0 >= 0 {
            assert(runs[k].0 == prev[k].0);
        } else if k < prev.len() {
            assert(runs[k] == prev[k]);
        }
    }
}

proof fn lemma_step_heads(rows: Seq<DbGroupWithMember>, n: int)
    requires
        0 < n <= rows.len(),
        gathered(rows, n - 1, group_runs(rows, n - 1)),
    ensures
        runs_heads(group_runs(rows, n), n),
{
    lemma_step_facts(rows, n);
    let prev = group_runs(rows, n - 1);
    let r = rows[n - 1];
    let runs = group_runs(rows, n);
    let k0 = find_run(prev, rows, r.id);
    reveal(runs_heads);
    assert forall|k: int| 0 <= k < runs.len() implies 0 <= (#[trigger] runs[k]).0 < n by {
        if k < prev.len() {
            assert(runs[k].0 == prev[k].0);
        }
    }
}

proof fn lemma_step_ordered(rows: Seq<DbGroupWithMember>, n: int)
    requires
        0 < n <= rows.len(),
        gathered(rows, n - 1, group_runs(rows, n - 1)),
    ensures
        runs_ordered(rows, group_runs(rows, n)),
{
    lemma_step_facts(rows, n);
    let prev = group_runs(rows, n - 1);
    let r = rows[n - 1];
    let runs = group_runs(rows, n);
    let k0 = find_run(prev, rows, r.id);
    reveal(runs_heads);
    reveal(runs_ordered);
    assert forall|k: int, l: int| 0 <= k < l < runs.len() implies (#[trigger] runs[k]).0 < (#[trigger] runs[l]).0
        && rows[runs[k].0].id != rows[runs[l].0].id by {
        assert(runs[k].0 == prev[k].0);
        if l < prev.len() {
            assert(runs[l].0 == prev[l].0);
        }
    }
}

proof fn lemma_step_first(rows: Seq<DbGroupWithMember>, n: int)
    requires
        0 < n <= rows.len(),
        gathered(rows, n - 1, group_runs(rows, n - 1)),
    ensures
        runs_first(rows, group_runs(rows, n)),
{
    lemma_step_facts(rows, n);
    let prev = group_runs(rows, n - 1);
    let r = rows[n - 1];
    let runs = group_runs(rows, n);
    let k0 = find_run(prev, rows, r.id);
    reveal(runs_first);
    assert forall|k: int, i: int| 0 <= k < runs.len() && 0 <= i < (#[trigger] runs[k]).0 implies (#[trigger] rows[i]).id
        != rows[runs[k].0].id by {
        if k < prev.len() {
            assert(runs[k].0 == prev[k].0);
        }
    }
}

proof fn lemma_step_cover(rows: Seq<DbGroupWithMember>, n: int)
    requires
        0 < n <= rows.len(),
        gathered(rows, n - 1, group_runs(rows, n - 1)),
    ensures
        runs_cover(rows, n, group_runs(rows, n)),
{
    lemma_step_facts(rows, n);
    let prev = group_runs(rows, n - 1);
    let r = rows[n - 1];
    let runs = group_runs(rows, n);
    let k0 = find_run(prev, rows, r.id);
    reveal(runs_cover);
    assert forall|i: int| 0 <= i < n implies exists|k: int|
        0 <= k < runs.len() && rows[(#[trigger] runs[k]).0].id == (#[trigger] rows[i]).id by {
        if i == n - 1 {
            if k0 >= 0 {
                assert(rows[runs[k0].0].id == rows[i].id);
            } else {
                assert(rows[runs[prev.len() as int].0].id == rows[i].id);
            }
        } else {
            let k = choose|k: int| 0 <= k < prev.len() && rows[(#[trigger] prev[k]).0].id == rows[i].id;
            assert(runs[k].0 == prev[k].0);
        }
    }
}

/// Gathering by `group_runs` means what `gathered` says.
pub proof fn lemma_group_runs_gathered(rows: Seq<DbGroupWithMember>, n: int)
    requires
        0 <= n <= rows.len(),
    ensures
        gathered(rows, n, group_runs(rows, n)),
    decreases n,
{
    if n == 0 {
        reveal(runs_heads);
        reveal(runs_ordered);
        reveal(runs_first);
        reveal(runs_cover);
        reveal(runs_members);
    } else {
        lemma_group_runs_gathered(rows, n - 1);
        lemma_step_heads(rows, n);
        lemma_step_ordered(rows, n);
        lemma_step_first(rows, n);
        lemma_step_cover(rows, n);
        lemma_step_members(rows, n);
    }
}

proof fn lemma_find_run(runs: Seq<(int, Seq<u128>)>, rows: Seq<DbGroupWithMember>, id: u128)
    ensures
        -1 <= find_run(runs, rows, id) < runs.len(),
        find_run(runs, rows, id) >= 0 ==> rows[runs[find_run(runs, rows, id)].0].id == id
            && 0 <= runs[find_run(runs, rows, id)].0 < rows.len(),
        find_run(runs, rows, id) == -1 ==> forall|k: int|
            0 <= k < runs.len() && 0 <= (#[trigger] runs[k]).0 < rows.len() ==> rows[runs[k].0].id != id,
    decreases runs.len(),
{
    if runs.len() > 0 {
        lemma_find_run(runs.drop_last(), rows, id);
        if find_run(runs, rows, id) == -1 {
            assert forall|k: int| 0 <= k < runs.len() && 0 <= (#[trigger] runs[k]).0 < rows.len() implies rows[runs[k].0].id
                != id by {
                if k < runs.len() - 1 {
                    assert(runs[k] == runs.drop_last()[k]);
                }
            }
        }
    }
}

proof fn lemma_group_runs_heads(rows: Seq<DbGroupWithMember>, n: int)
    requires
        0 <= n <= rows.len(),
    ensures
        forall|k: int| 0 <= k < group_runs(rows, n).len() ==> 0 <= (#[trigger] group_runs(rows, n)[k]).0 < n,
    decreases n,
{
    if n > 0 {
        lemma_group_runs_heads(rows, n - 1);
        lemma_find_run(group_runs(rows, n - 1), rows, rows[n - 1].id);
    }
}

fn gather_group_runs(rows: &Vec<DbGroupWithMember>) -> (r: Vec<(usize, Vec<u128>)>)
    ensures
        r@.len() == group_runs(rows@, rows@.len() as int).len(),
        forall|k: int| 0 <= k < r@.len() ==> (#[trigger] r@[k]).0 as int == group_runs(rows@, rows@.len() as int)[k].0
            && r@[k].1@ == group_runs(rows@, rows@.len() as int)[k].1,
{
    let mut runs: Vec<(usize, Vec<u128>)> = Vec::new();
    let mut i: usize = 0;
    while i < rows.len()
        invariant
            i <= rows@.len(),
            runs@.len() == group_runs(rows@, i as int).len(),
            forall|k: int| 0 <= k < runs@.len() ==> (#[trigger] runs@[k]).0 as int == group_runs(rows@, i as int)[k].0
                && runs@[k].1@ == group_runs(rows@, i as int)[k].1,
        decreases rows.len() - i,
    {
        let ghost prev = group_runs(rows@, i as int);
        proof {
            lemma_group_runs_heads(rows@, i as int);
        }
        let mut j: usize = runs.len();
        assert(prev.subrange(0, j as int) =~= prev);
        while j > 0 && rows[runs[j - 1].0].id != rows[i].id
            invariant
                j <= runs@.len(),
                i < rows@.len(),
                runs@.len() == prev.len(),
                prev == group_runs(rows@, i as int),
                forall|k: int| 0 <= k < runs@.len() ==> (#[trigger] runs@[k]).0 as int == prev[k].0 && runs@[k].1@ == prev[k].1,
                forall|k: int| 0 <= k < prev.len() ==> 0 <= (#[trigger] prev[k]).0 < i,
                find_run(prev, rows@, rows@[i as int].id) == find_run(prev.subrange(0, j as int), rows@, rows@[i as int].id),
            decreases j,
        {
            assert(prev.subrange(0, j as int).drop_last() =~= prev.subrange(0, j - 1));
            j = j - 1;
        }
        let ghost k = find_run(prev, rows@, rows@[i as int].id);
        if j > 0 {
            assert(k == j - 1) by {
                assert(prev.subrange(0, j as int).last() == prev[j - 1]);
            }
            let ghost before = runs@;
            let (head, mut members) = runs.remove(j - 1);
            members.push(rows[i].member_id);
            runs.insert(j - 1, (head, members));
            assert forall|q: int| 0 <= q < runs@.len() implies (#[trigger] runs@[q]).0 as int == group_runs(rows@, i + 1)[q].0
                && runs@[q].1@ == group_runs(rows@, i + 1)[q].1 by {
                if q != j - 1 {
                    assert(runs@[q] == before[q]);
                }
            }
        } else {
            assert(prev.subrange(0, 0) =~= Seq::<(int, Seq<u128>)>::empty());
            assert(k == -1);
            let mut members: Vec<u128> = Vec::new();
            members.push(rows[i].member_id);
            let ghost before = runs@;
            runs.push((i, members));
            assert(members@ =~= seq![rows@[i as int].member_id]);
            assert forall|q: int| 0 <= q < runs@.len() implies (#[trigger] runs@[q]).0 as int == group_runs(rows@, i + 1)[q].0
                && runs@[q].1@ == group_runs(rows@, i + 1)[q].1 by {
                if q < before.len() {
                    assert(runs@[q] == before[q]);
                }
            }
        }
        i = i + 1;
    }
    runs
}

/// Every gathered group reads as an entity.
pub open spec fn group_runs_valid(rows: Seq<DbGroupWithMember>, runs: Seq<(int, Seq<u128>)>) -> bool {
    forall|k: int|
        0 <= k < runs.len() ==> group_row_valid(rows[(#[trigger] runs[k]).0].id, rows[runs[k].0].name@, rows[runs[k].0].owner_id, runs[k].1)
}

/// Reads joined rows (a group with one member per row) as groups, one per
/// group identifier, in order of first appearance; the first row of a group
/// gives its name, owner and creation time.
pub fn flatten_group_with_member(rows: Vec<DbGroupWithMember>) -> (r: Result<Vec<Group>, DbError>)
    ensures
        ({
            let runs = group_runs(rows@, rows@.len() as int);
            &&& gathered(rows@, rows@.len() as int, runs)
            &&& group_runs_valid(rows@, runs) ==> r is Ok && r->Ok_0@.len() == runs.len() && forall|k: int|
                0 <= k < runs.len() ==> reads_as_group(#[trigger] r->Ok_0@[k], rows@[runs[k].0].id, rows@[runs[k].0].name@,
                    rows@[runs[k].0].owner_id, runs[k].1, rows@[runs[k].0].created_at)
            &&& !group_runs_valid(rows@, runs) ==> r is Err && r->Err_0 is CorruptedData
        }),
{
    let runs = gather_group_runs(&rows);
    let ghost spec_runs = group_runs(rows@, rows@.len() as int);
    proof {
        lemma_group_runs_heads(rows@, rows@.len() as int);
        lemma_group_runs_gathered(rows@, rows@.len() as int);
    }
    let mut out: Vec<Group> = Vec::new();
    let mut k: usize = 0;
    while k < runs.len()
        invariant
            k <= runs@.len(),
            runs@.len() == spec_runs.len(),
            spec_runs == group_runs(rows@, rows@.len() as int),
            forall|j: int| 0 <= j < spec_runs.len() ==> 0 <= (#[trigger] spec_runs[j]).0 < rows@.len(),
            gathered(rows@, rows@.len() as int, spec_runs),
            forall|j: int| 0 <= j < runs@.len() ==> (#[trigger] runs@[j]).0 as int == spec_runs[j].0 && runs@[j].1@ == spec_runs[j].1,
            out@.len() == k,
            forall|j: int| 0 <= j < k ==> group_row_valid(rows@[(#[trigger] spec_runs[j]).0].id, rows@[spec_runs[j].0].name@,
                rows@[spec_runs[j].0].owner_id, spec_runs[j].1),
            forall|j: int| 0 <= j < k ==> reads_as_group(#[trigger] out@[j], rows@[spec_runs[j].0].id, rows@[spec_runs[j].0].name@,
                rows@[spec_runs[j].0].owner_id, spec_runs[j].1, rows@[spec_runs[j].0].created_at),
        decreases runs.len() - k,
    {
        assert(runs@[k as int].0 as int == spec_runs[k as int].0);
        let head = &rows[runs[k].0];
        match group_from_row(head.id, &head.name, head.owner_id, &runs[k].1, head.created_at) {
            Ok(g) => {
                let ghost before = out@;
                out.push(g);
                assert forall|j: int| 0 <= j <= k implies reads_as_group(#[trigger] out@[j], rows@[spec_runs[j].0].id,
                    rows@[spec_runs[j].0].name@, rows@[spec_runs[j].0].owner_id, spec_runs[j].1, rows@[spec_runs[j].0].created_at) by {
                    if j < k {
                        assert(out@[j] == before[j]);
                    }
                }
            },
            Err(err) => {
                return Err(err);
            },
        }
        k = k + 1;
    }
    Ok(out)
}

/// A stored user.
pub struct DbUser {
    pub id: u128,
    pub name: String,
    pub email: String,
    pub role: u8,
    pub created_at: Timestamp,
}

/// The role that a stored code names.
pub open spec fn role_of_code(code: u8) -> Option<Role> {
    if code == 10 {
        Some(Role::User)
    } else if code == 20 {
        Some(Role::Moderator)
    } else if code == 30 {
        Some(Role::Admin)
    } else {
        None
    }
}

/// Whether a stored user reads as an entity.
pub open spec fn user_row_valid(u: DbUser) -> bool {
    &&& valid_raw(u.id)
    &&& username_rule(u.name@) is Ok
    &&& email_address_of(u.email@) is Some
    &&& role_of_code(u.role) is Some
}

impl DbUser {
    /// Reads the stored user as an entity; an invalid field means corrupted data.
    pub fn try_into_user(self) -> (r: Result<User, DbError>)
        ensures
            user_row_valid(self) ==> r is Ok && r->Ok_0.id == UserId::from_value(self.id)
                && r->Ok_0.name@ == username_rule(self.name@)->Ok_0
                && r->Ok_0.email@ == email_address_of(self.email@)->Some_0
                && r->Ok_0.role == role_of_code(self.role)->Some_0 && r->Ok_0.created_at == self.created_at,
            !user_row_valid(self) ==> r is Err && r->Err_0 is CorruptedData,
    {
        let id = match UserId::new(self.id) {
            Ok(v) => v,
            Err(_) => {
                return Err(corrupted("corrupted data: id"));
            },
        };
        let name = match Username::parse(self.name.as_str()) {
            Ok(v) => v,
            Err(_) => {
                return Err(corrupted("corrupted data: name"));
            },
        };
        let email = match Email::parse(self.email.as_str()) {
            Ok(v) => v,
            Err(_) => {
                return Err(corrupted("corrupted data: email"));
            },
        };
        let role = match DbRole(self.role).try_into_role() {
            Ok(v) => v,
            Err(err) => {
                return Err(err);
            },
        };
        Ok(User::new(id, name, email, role, self.created_at))
    }
}

} // verus!
