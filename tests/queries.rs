use coin_ledger::commands::add_group_member::AddGroupMemberCommand;
use coin_ledger::commands::create_empty_group::CreateEmptyGroupCommand;
use coin_ledger::commands::create_expense::{CreateExpenseCommand, IncludeParticipants};
use coin_ledger::commands::create_user::CreateUserCommand;
use coin_ledger::contact::{Email, Timestamp};
use coin_ledger::ids::{ExpenseEntryId, ExpenseId, GroupId, UserId};
use coin_ledger::money::Money;
use coin_ledger::names::{Groupname, Username};
use coin_ledger::pagination::Pagination;
use coin_ledger::queries::get_expenses_for_group::{GetExpensesForGroupError, GetExpensesForGroupQuery};
use coin_ledger::queries::get_groups_for_user::GetGroupsForUserQuery;
use coin_ledger::queries::get_user_by_email::GetUserByEmailQuery;
use coin_ledger::queries::get_user_by_id::GetUserByIdQuery;
use coin_ledger::store::Store;

fn user(store: &mut Store, raw: u128, name: &str) -> UserId {
    let id = UserId::new(raw).unwrap();
    CreateUserCommand {
        email: Email::parse(&format!("{}@gmail.com", name.to_lowercase())).unwrap(),
        name: Username::parse(name).unwrap(),
    }
    .handle_with(store, id, Timestamp::from_micros(0))
    .unwrap()
}

fn group(store: &mut Store, raw: u128, name: &str, owner: UserId, at: i64) -> GroupId {
    CreateEmptyGroupCommand { groupname: Groupname::parse(name).unwrap(), owner_id: owner }
        .handle_with(store, GroupId::new(raw).unwrap(), Timestamp::from_micros(at))
        .unwrap()
}

fn member(store: &mut Store, g: GroupId, owner: UserId, u: UserId) {
    AddGroupMemberCommand { group_id: g, user_id_to_add: u, current_user_id: owner }.handle(store).unwrap();
}

fn expense(store: &mut Store, raw: u128, g: GroupId, payer: UserId, cents: i64) -> ExpenseId {
    CreateExpenseCommand {
        group_id: g,
        payer_id: payer,
        author_id: payer,
        participants: IncludeParticipants::All,
        occured_at: Timestamp::from_micros(5),
        total: Money::from_cents(cents),
    }
    .handle_with(store, ExpenseEntryId::new(raw).unwrap(), ExpenseId::new(raw + 1000).unwrap(), Timestamp::from_micros(9))
    .unwrap()
}

#[test]
fn groups_for_user_newest_first_then_by_id() {
    let mut store = Store::new();
    let alice = user(&mut store, 1, "Alice");
    let bob = user(&mut store, 2, "Bob");
    group(&mut store, 30, "Old", alice, 100);
    group(&mut store, 20, "New B", bob, 300);
    group(&mut store, 10, "New A", alice, 300);
    group(&mut store, 40, "Not Alice's", bob, 400);
    member(&mut store, GroupId::new(20).unwrap(), bob, alice);

    let out = GetGroupsForUserQuery { current_user: alice, pagination: Pagination::new(1, 10).unwrap() }
        .handle(&store)
        .unwrap();
    assert_eq!(3, out.total_items);
    let ids: Vec<u128> = out.groups.iter().map(|g| g.id.value()).collect();
    assert_eq!(vec![10, 20, 30], ids);
    assert_eq!("Bob", out.groups[1].owner.name.value());
    assert_eq!("New B", out.groups[1].name.value());
}

#[test]
fn groups_for_user_second_page() {
    let mut store = Store::new();
    let alice = user(&mut store, 1, "Alice");
    for k in 0..5u128 {
        group(&mut store, 100 + k, &format!("Group {}", k), alice, k as i64);
    }
    let out = GetGroupsForUserQuery { current_user: alice, pagination: Pagination::new(2, 2).unwrap() }
        .handle(&store)
        .unwrap();
    assert_eq!(5, out.total_items);
    let ids: Vec<u128> = out.groups.iter().map(|g| g.id.value()).collect();
    assert_eq!(vec![102, 101], ids);

    let past_end = GetGroupsForUserQuery { current_user: alice, pagination: Pagination::new(4, 2).unwrap() }
        .handle(&store)
        .unwrap();
    assert!(past_end.groups.is_empty());
    assert_eq!(5, past_end.total_items);
}

#[test]
fn expenses_for_group_with_names() {
    let mut store = Store::new();
    let bob = user(&mut store, 1, "Bob");
    let alice = user(&mut store, 2, "Alice");
    let g = group(&mut store, 10, "Bali Trip 2026", bob, 0);
    member(&mut store, g, bob, alice);
    let x = expense(&mut store, 1, g, bob, 12_800);

    let out = GetExpensesForGroupQuery { group_id: g, current_user: alice, pagination: Pagination::new(1, 10).unwrap() }
        .handle(&store)
        .unwrap();
    assert_eq!(1, out.total_items);
    assert_eq!(1, out.expenses.len());
    let e = &out.expenses[0];
    assert_eq!(x, e.id);
    assert_eq!("Bob", e.payer.name.value());
    assert_eq!(1, e.participants.len());
    assert_eq!(alice, e.participants[0].id);
    assert_eq!("Alice", e.participants[0].name.value());
    assert_eq!(12_800, e.total.cents());
}

#[test]
fn expenses_for_group_forbidden_and_missing() {
    let mut store = Store::new();
    let bob = user(&mut store, 1, "Bob");
    let eve = user(&mut store, 3, "Eve");
    let g = group(&mut store, 10, "Bali Trip 2026", bob, 0);
    let page = Pagination::new(1, 10).unwrap();
    assert!(matches!(
        GetExpensesForGroupQuery { group_id: g, current_user: eve, pagination: page }.handle(&store),
        Err(GetExpensesForGroupError::Forbidden)
    ));
    assert!(matches!(
        GetExpensesForGroupQuery { group_id: GroupId::new(99).unwrap(), current_user: bob, pagination: page }.handle(&store),
        Err(GetExpensesForGroupError::GroupNotFound)
    ));
}

#[test]
fn expenses_for_group_paged() {
    let mut store = Store::new();
    let bob = user(&mut store, 1, "Bob");
    let g = group(&mut store, 10, "Solo", bob, 0);
    for k in 0..3u128 {
        expense(&mut store, 50 + k, g, bob, 100 * k as i64);
    }
    let out = GetExpensesForGroupQuery { group_id: g, current_user: bob, pagination: Pagination::new(2, 2).unwrap() }
        .handle(&store)
        .unwrap();
    assert_eq!(3, out.total_items);
    assert_eq!(1, out.expenses.len());
    assert_eq!(200, out.expenses[0].total.cents());
    assert!(out.expenses[0].participants.is_empty());
}

#[test]
fn user_lookups() {
    let mut store = Store::new();
    let bob = user(&mut store, 1, "Bob");
    let found = GetUserByIdQuery { id: bob }.handle(&store).unwrap().unwrap();
    assert_eq!("bob@gmail.com", found.email.value());
    assert!(GetUserByIdQuery { id: UserId::new(2).unwrap() }.handle(&store).unwrap().is_none());
    let by_mail = GetUserByEmailQuery { email: Email::parse("bob@gmail.com").unwrap() }.handle(&store).unwrap().unwrap();
    assert_eq!(bob, by_mail.id);
    assert!(GetUserByEmailQuery { email: Email::parse("yannick.noah@gmail.com").unwrap() }
        .handle(&store)
        .unwrap()
        .is_none());
}
