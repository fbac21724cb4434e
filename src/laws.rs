//! Properties that relate the store, the entities and the handlers.

use vstd::prelude::*;
use crate::commands::add_group_member::{add_group_member_outcome, AddGroupMemberCommand, AddGroupMemberError};
use crate::commands::create_empty_group::{create_empty_group_rule, group_added, CreateEmptyGroupCommand, CreateEmptyGroupError};
use crate::commands::create_expense::{create_expense_rule, other_than, selected, CreateExpenseCommand, CreateExpenseError};
use crate::entities::{ExpenseEntryStatus, ExpenseEntryView, GroupView};
use crate::money::Money;
use crate::rows::{entry_of_row, entry_row_valid, lemma_distinct_of_unique, raw_of, row_of_entry, user_ids_of, valid_raw};
use crate::ids::{ExpenseEntryId, ExpenseId, GroupId, UserId};
use crate::store::{entry_views, group_views, Store};

verus! {

/// In a well-formed store no group lists its owner among its members.
pub proof fn lemma_owner_never_member(s: Store, i: int)
    requires
        s.wf(),
        0 <= i < s.groups().len(),
    ensures
        !s.groups()[i].members@.contains(s.groups()[i].owner_id),
{
    assert(s.groups()[i].wf());
}

/// A successful AddGroupMember was made by the owner, and afterwards the
/// group contains the added user.
pub proof fn lemma_add_member_success(s1: Store, s2: Store, c: AddGroupMemberCommand)
    requires
        s1.wf(),
        s2.wf(),
        add_group_member_outcome(s1, c) is Ok,
        s1.member_added(s2, c.group_id, c.user_id_to_add),
    ensures
        s1.group_by_id(c.group_id)->Some_0.owner_id == c.current_user_id,
        s2.has_group(c.group_id),
        s2.group_by_id(c.group_id)->Some_0.spec_contains(c.user_id_to_add),
{
    let p = s1.group_pos(c.group_id);
    let v = with_member_at(s1, p, c.user_id_to_add);
    assert(group_views(s2.groups()).len() == group_views(s1.groups()).len());
    assert(group_views(s2.groups())[p] == v);
    assert(s2.groups()[p]@ == v);
    assert(s2.groups()[p].id == c.group_id);
    let q = s2.group_pos(c.group_id);
    assert(s2.groups()[q].id == c.group_id);
    assert(q == p);
    assert(s2.groups()[p].members@ == s1.groups()[p].members@.push(c.user_id_to_add));
    assert(s2.groups()[p].members@.last() == c.user_id_to_add);
}

spec fn with_member_at(s: Store, p: int, u: UserId) -> GroupView {
    crate::store::with_member(s.groups()[p]@, u)
}

/// AddGroupMember tests existence before authorization before conflict:
/// a missing group or user wins over a wrong actor, and a wrong actor wins
/// over a user who already belongs to the group.
pub proof fn lemma_add_member_condition_order(s: Store, c: AddGroupMemberCommand)
    ensures
        s.group_by_id(c.group_id) is None ==> add_group_member_outcome(s, c) == Err::<(), AddGroupMemberError>(
            AddGroupMemberError::GroupNotFound),
        s.group_by_id(c.group_id) is Some && !s.has_user(c.user_id_to_add) ==> add_group_member_outcome(s, c)
            == Err::<(), AddGroupMemberError>(AddGroupMemberError::UserNotFound),
        s.group_by_id(c.group_id) is Some && s.has_user(c.user_id_to_add) && s.group_by_id(c.group_id)->Some_0.owner_id
            != c.current_user_id ==> add_group_member_outcome(s, c) == Err::<(), AddGroupMemberError>(
            AddGroupMemberError::NotOwner),
        s.group_by_id(c.group_id) is Some && s.has_user(c.user_id_to_add) && s.group_by_id(c.group_id)->Some_0.owner_id
            == c.current_user_id && s.group_by_id(c.group_id)->Some_0.spec_contains(c.user_id_to_add)
            ==> add_group_member_outcome(s, c) == Err::<(), AddGroupMemberError>(AddGroupMemberError::AlreadyMember),
{
}

/// After a group is created, the same owner cannot create another group of
/// exactly that name; every other owner and name pair, including a name that
/// differs only by case, is judged as before.
pub proof fn lemma_group_name_unique_per_owner(s1: Store, s2: Store, v: GroupView, c: CreateEmptyGroupCommand)
    requires
        s1.wf(),
        s2.wf(),
        group_added(s1, s2, v),
    ensures
        c.owner_id == v.owner_id && c.groupname@ == v.name@ && s1.has_user(c.owner_id) ==> create_empty_group_rule(s2, c)
            == Err::<(), CreateEmptyGroupError>(CreateEmptyGroupError::NameNotAvailable),
        !(c.owner_id == v.owner_id && c.groupname@ == v.name@) ==> create_empty_group_rule(s2, c)
            == create_empty_group_rule(s1, c),
{
    let p = choose|p: int| 0 <= p <= s1.groups().len() && group_views(s2.groups()) == group_views(s1.groups()).insert(p, v);
    let n1 = s1.groups().len();
    assert(group_views(s2.groups()).len() == n1 + 1);
    assert(s2.groups().len() == n1 + 1);
    assert forall|i: int| 0 <= i < s2.groups().len() implies (#[trigger] s2.groups()[i])@ == (if i < p {
        s1.groups()[i]@
    } else if i == p {
        v
    } else {
        s1.groups()[i - 1]@
    }) by {
        assert(group_views(s2.groups())[i] == group_views(s1.groups()).insert(p, v)[i]);
    }
    assert(s2.groups()[p]@ == v);
    if c.owner_id == v.owner_id && c.groupname@ == v.name@ {
        assert(s2.groups()[p].owner_id == c.owner_id && s2.groups()[p].name@ == c.groupname@);
    } else {
        if s1.name_taken(c.owner_id, c.groupname@) {
            let i = choose|i: int| 0 <= i < n1 && (#[trigger] s1.groups()[i]).owner_id == c.owner_id
                && s1.groups()[i].name@ == c.groupname@;
            let j = if i < p { i } else { i + 1 };
            assert(s2.groups()[j]@ == s1.groups()[i]@);
        }
        if s2.name_taken(c.owner_id, c.groupname@) {
            let j = choose|j: int| 0 <= j < n1 + 1 && (#[trigger] s2.groups()[j]).owner_id == c.owner_id
                && s2.groups()[j].name@ == c.groupname@;
            let i = if j < p { j } else { j - 1 };
            assert(j != p);
            assert(s2.groups()[j]@ == s1.groups()[i]@);
        }
    }
}

/// A negative total is refused whatever the rest of the command says.
pub proof fn lemma_negative_total_rejected(s: Store, c: CreateExpenseCommand)
    requires
        c.total.spec_cents() < 0,
    ensures
        create_expense_rule(s, c) == Err::<Seq<UserId>, CreateExpenseError>(CreateExpenseError::InvalidTotal),
{
}

/// The payer never stands among the recorded participants.
pub proof fn lemma_payer_not_participant(s: Store, c: CreateExpenseCommand)
    requires
        create_expense_rule(s, c) is Ok,
    ensures
        !create_expense_rule(s, c)->Ok_0.contains(c.payer_id),
{
    let g = s.group_by_id(c.group_id)->Some_0;
    let users = selected(g, c.participants)->Ok_0;
    let parts = users.filter(other_than(c.payer_id));
    if parts.contains(c.payer_id) {
        let k = choose|k: int| 0 <= k < parts.len() && parts[k] == c.payer_id;
        users.lemma_filter_pred(other_than(c.payer_id), k);
    }
}

/// With every member selected, the participants are exactly the owner and
/// the members at the time of the call, less the payer.
pub proof fn lemma_all_participants(s: Store, c: CreateExpenseCommand, u: UserId)
    requires
        c.participants is All,
        create_expense_rule(s, c) is Ok,
    ensures
        create_expense_rule(s, c)->Ok_0.contains(u) <==> (u == s.group_by_id(c.group_id)->Some_0.owner_id
            || s.group_by_id(c.group_id)->Some_0.members@.contains(u)) && u != c.payer_id,
{
    let g = s.group_by_id(c.group_id)->Some_0;
    let everyone = seq![g.owner_id] + g.members@;
    let pred = other_than(c.payer_id);
    let parts = everyone.filter(pred);
    assert(selected(g, c.participants) == Ok::<Seq<UserId>, CreateExpenseError>(everyone));
    if parts.contains(u) {
        everyone.lemma_filter_contains_rev(pred, u);
        let k = choose|k: int| 0 <= k < parts.len() && parts[k] == u;
        everyone.lemma_filter_pred(pred, k);
        let j = choose|j: int| 0 <= j < everyone.len() && everyone[j] == u;
        if j > 0 {
            assert(g.members@[j - 1] == u);
        }
    }
    if (u == g.owner_id || g.members@.contains(u)) && u != c.payer_id {
        if u == g.owner_id {
            assert(everyone[0] == u);
            everyone.lemma_filter_contains(pred, 0);
        } else {
            let j = choose|j: int| 0 <= j < g.members@.len() && g.members@[j] == u;
            assert(everyone[j + 1] == u);
            everyone.lemma_filter_contains(pred, j + 1);
        }
    }
}

/// An entry stored by `create_entry` reads back unchanged by its identifier.
pub proof fn lemma_entry_round_trip(s1: Store, s2: Store, e: ExpenseEntryView)
    requires
        s1.wf(),
        s2.wf(),
        s1.create_entry_error(e) is None,
        entry_views(s2.entries()) == entry_views(s1.entries()).push(e),
    ensures
        s2.has_entry(e.id),
        s2.entry_by_id(e.id)->Some_0@ == e,
{
    let n = s1.entries().len();
    assert(entry_views(s2.entries()).len() == n + 1);
    assert(entry_views(s2.entries())[n as int] == e);
    assert(s2.entries()[n as int]@ == e);
    assert(s2.entries()[n as int].id == e.id);
    let c = choose|i: int| 0 <= i < s2.entries().len() && (#[trigger] s2.entries()[i]).id == e.id;
    assert(c == n);
}

/// Writing a valid entry in its stored form and reading it back gives the
/// same entry, participants included.
pub proof fn lemma_entry_row_round_trip(e: ExpenseEntryView)
    requires
        e.id.valid(),
        e.expense_id.valid(),
        e.group_id.valid(),
        e.payer_id.valid(),
        e.author_id.valid(),
        e.status matches ExpenseEntryStatus::Inactive { overwritten_by } ==> overwritten_by.valid(),
        forall|k: int| 0 <= k < e.participants.len() ==> (#[trigger] e.participants[k]).valid(),
        e.participants.no_duplicates(),
        e.total.spec_cents() >= 0,
    ensures
        entry_row_valid(row_of_entry(e), raw_of(e.participants)),
        entry_of_row(row_of_entry(e), raw_of(e.participants)) == e,
{
    broadcast use UserId::lemma_of_own_value, GroupId::lemma_of_own_value, ExpenseId::lemma_of_own_value,
        ExpenseEntryId::lemma_of_own_value, Money::lemma_of_own_cents, Money::lemma_cents_range;

    let raw = raw_of(e.participants);
    assert forall|k: int| 0 <= k < raw.len() implies valid_raw(#[trigger] raw[k]) by {
        assert(e.participants[k].valid());
    }
    assert(user_ids_of(raw) =~= e.participants);
    lemma_distinct_of_unique(e.participants);
    let back = entry_of_row(row_of_entry(e), raw);
    assert(back.status == e.status);
    assert(back.total == e.total);
}

} // verus!
