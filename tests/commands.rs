use coin_ledger::commands::add_group_member::{AddGroupMemberCommand, AddGroupMemberError};
use coin_ledger::commands::create_empty_group::{CreateEmptyGroupCommand, CreateEmptyGroupError};
use coin_ledger::commands::create_expense::{CreateExpenseCommand, CreateExpenseError, IncludeParticipants};
use coin_ledger::commands::create_user::{CreateUserCommand, CreateUserError};
use coin_ledger::contact::{Email, Timestamp};
use coin_ledger::entities::ExpenseEntryStatus;
use coin_ledger::ids::{ExpenseEntryId, ExpenseId, GroupId, UserId};
use coin_ledger::money::Money;
use coin_ledger::names::{Groupname, Username};
use coin_ledger::role::Role;
use coin_ledger::store::{DbError, Store};

fn create_user_with_name_and_email(store: &mut Store, name: &str, email: &str) -> Result<UserId, CreateUserError> {
    CreateUserCommand { email: Email::parse(email).unwrap(), name: Username::parse(name).unwrap() }.handle(store)
}

fn create_user(store: &mut Store, name: &str) -> UserId {
    create_user_with_name_and_email(store, name, &format!("{}@gmail.com", name)).unwrap()
}

fn create_empty_group(store: &mut Store, name: &str, owner: UserId) -> Result<GroupId, CreateEmptyGroupError> {
    CreateEmptyGroupCommand { groupname: Groupname::parse(name).unwrap(), owner_id: owner }.handle(store)
}

fn add_member(store: &mut Store, group: GroupId, actor: UserId, target: UserId) -> Result<(), AddGroupMemberError> {
    AddGroupMemberCommand { group_id: group, user_id_to_add: target, current_user_id: actor }.handle(store)
}

fn jan_08_2025() -> Timestamp {
    Timestamp::from_micros(1_736_294_400_000_000)
}

fn create_expense(
    store: &mut Store,
    group: GroupId,
    payer: UserId,
    total_euros: i64,
    participants: IncludeParticipants,
) -> Result<ExpenseId, CreateExpenseError> {
    CreateExpenseCommand {
        group_id: group,
        payer_id: payer,
        author_id: payer,
        participants,
        occured_at: jan_08_2025(),
        total: Money::from_euros(total_euros),
    }
    .handle(store)
}

fn unknown_id() -> u128 {
    UserId::new_random().value()
}

#[test]
fn add_group_member_happy_path() {
    let mut store = Store::new();
    let bob_id = create_user(&mut store, "Bob");
    let alice_id = create_user(&mut store, "Alice");
    let group_id = create_empty_group(&mut store, "Trip Summer 2026", alice_id).unwrap();

    add_member(&mut store, group_id, alice_id, bob_id).unwrap();

    let group = store.get_group_by_id(&group_id).unwrap();
    assert_eq!(vec![bob_id], group.members);
    assert!(group.contains_user(&bob_id));
}

#[test]
fn owner_cannot_self_add() {
    let mut store = Store::new();
    let alice_id = create_user(&mut store, "Alice");
    let group_id = create_empty_group(&mut store, "Trip Summer 2026", alice_id).unwrap();

    let err = add_member(&mut store, group_id, alice_id, alice_id).unwrap_err();
    assert_eq!(AddGroupMemberError::AlreadyMember, err);
}

#[test]
fn user_to_add_not_found() {
    let mut store = Store::new();
    let alice_id = create_user(&mut store, "Alice");
    let group_id = create_empty_group(&mut store, "Trip Summer 2026", alice_id).unwrap();

    let stranger = UserId::new(unknown_id()).unwrap();
    let err = add_member(&mut store, group_id, alice_id, stranger).unwrap_err();
    assert_eq!(AddGroupMemberError::UserNotFound, err);
}

#[test]
fn add_group_member_group_not_found() {
    let mut store = Store::new();
    let alice_id = create_user(&mut store, "Alice");
    let bob_id = create_user(&mut store, "Bob");

    let err = add_member(&mut store, GroupId::new(unknown_id()).unwrap(), alice_id, bob_id).unwrap_err();
    assert_eq!(AddGroupMemberError::GroupNotFound, err);
}

#[test]
fn user_already_member() {
    let mut store = Store::new();
    let alice_id = create_user(&mut store, "Alice");
    let bob_id = create_user(&mut store, "Bob");
    let group_id = create_empty_group(&mut store, "Trip Summer 2026", alice_id).unwrap();
    add_member(&mut store, group_id, alice_id, bob_id).unwrap();

    let err = add_member(&mut store, group_id, alice_id, bob_id).unwrap_err();
    assert_eq!(AddGroupMemberError::AlreadyMember, err);
}

#[test]
fn add_group_member_owner_not_found() {
    let mut store = Store::new();
    let alice_id = create_user(&mut store, "Alice");
    let bob_id = create_user(&mut store, "Bob");
    let group_id = create_empty_group(&mut store, "Trip Summer 2026", alice_id).unwrap();

    let err = add_member(&mut store, group_id, UserId::new(unknown_id()).unwrap(), bob_id).unwrap_err();
    assert_eq!(AddGroupMemberError::NotOwner, err);
}

#[test]
fn not_owner_reported_before_already_member() {
    let mut store = Store::new();
    let alice_id = create_user(&mut store, "Alice");
    let bob_id = create_user(&mut store, "Bob");
    let group_id = create_empty_group(&mut store, "Trip Summer 2026", alice_id).unwrap();
    add_member(&mut store, group_id, alice_id, bob_id).unwrap();

    let err = add_member(&mut store, group_id, bob_id, bob_id).unwrap_err();
    assert_eq!(AddGroupMemberError::NotOwner, err);
}

#[test]
fn create_empty_group_happy_path() {
    let mut store = Store::new();
    let alice_id = create_user(&mut store, "Alice");
    let group_id = create_empty_group(&mut store, "Trip Summer 2026", alice_id).unwrap();

    let group = store.get_group_by_id(&group_id).unwrap();
    assert_eq!("Trip Summer 2026", group.name.value());
    assert_eq!(alice_id, group.owner_id);
    assert!(group.members.is_empty());
}

#[test]
fn duplicate_name() {
    let mut store = Store::new();
    let alice_id = create_user(&mut store, "Alice");
    create_empty_group(&mut store, "Trip Summer 2026", alice_id).unwrap();

    let err = create_empty_group(&mut store, "Trip Summer 2026", alice_id).unwrap_err();
    assert_eq!(CreateEmptyGroupError::NameNotAvailable, err);
}

#[test]
fn same_name_different_owners() {
    let mut store = Store::new();
    let alice_id = create_user(&mut store, "Alice");
    let bob_id = create_user(&mut store, "Bob");
    create_empty_group(&mut store, "Trip Summer 2026", alice_id).unwrap();
    create_empty_group(&mut store, "Trip Summer 2026", bob_id).unwrap();
}

#[test]
fn same_owner_different_names() {
    let mut store = Store::new();
    let alice_id = create_user(&mut store, "Alice");
    create_empty_group(&mut store, "Trip to Europe", alice_id).unwrap();
    create_empty_group(&mut store, "Shared expenses - House", alice_id).unwrap();
}

#[test]
fn same_owner_same_name_different_case() {
    let mut store = Store::new();
    let alice_id = create_user(&mut store, "Alice");
    create_empty_group(&mut store, "Trip to Europe", alice_id).unwrap();
    create_empty_group(&mut store, "TRIP TO EUROPE", alice_id).unwrap();
}

#[test]
fn create_empty_group_owner_not_found() {
    let mut store = Store::new();
    let err = create_empty_group(&mut store, "Trip Summer 2026", UserId::new(unknown_id()).unwrap()).unwrap_err();
    assert_eq!(CreateEmptyGroupError::OwnerNotFound, err);
}

#[test]
fn create_empty_group_with_taken_id() {
    let mut store = Store::new();
    let alice_id = create_user(&mut store, "Alice");
    let id = GroupId::new(7).unwrap();
    let name = Groupname::parse("First").unwrap();
    CreateEmptyGroupCommand { groupname: name, owner_id: alice_id }
        .handle_with(&mut store, id, jan_08_2025())
        .unwrap();
    let err = CreateEmptyGroupCommand { groupname: Groupname::parse("Second").unwrap(), owner_id: alice_id }
        .handle_with(&mut store, id, jan_08_2025())
        .unwrap_err();
    assert_eq!(CreateEmptyGroupError::Database(DbError::UniqueViolation), err);
}

#[test]
fn create_expense_happy_path() {
    let mut store = Store::new();
    let bob_id = create_user(&mut store, "Bob");
    let alice_id = create_user(&mut store, "Alice");
    let group_id = create_empty_group(&mut store, "Bali Trip 2026", bob_id).unwrap();
    add_member(&mut store, group_id, bob_id, alice_id).unwrap();

    let expense_id = create_expense(&mut store, group_id, bob_id, 128, IncludeParticipants::All).unwrap();

    let entries = store.get_all_by_expense_id(&expense_id);
    assert_eq!(1, entries.len());
    let entry = &entries[0];
    assert_eq!(bob_id, entry.payer_id);
    assert_eq!(vec![alice_id], entry.participants);
    assert_eq!(group_id, entry.group_id);
    assert_eq!(12_800, entry.total.cents());
    assert_eq!(ExpenseEntryStatus::Active, entry.status);
}

#[test]
fn happy_path_list_participants() {
    let mut store = Store::new();
    let alice_id = create_user(&mut store, "Alice");
    let bob_id = create_user(&mut store, "Bob");
    let _ = create_user(&mut store, "Charlie");
    let group_id = create_empty_group(&mut store, "Bali Trip 2026", bob_id).unwrap();
    add_member(&mut store, group_id, bob_id, alice_id).unwrap();

    let expense_id = create_expense(
        &mut store,
        group_id,
        alice_id,
        56,
        IncludeParticipants::List { participants: vec![bob_id] },
    )
    .unwrap();

    let entries = store.get_all_by_expense_id(&expense_id);
    assert_eq!(1, entries.len());
    assert_eq!(alice_id, entries[0].payer_id);
    assert_eq!(vec![bob_id], entries[0].participants);
}

#[test]
fn payer_removed_from_listed_participants() {
    let mut store = Store::new();
    let alice_id = create_user(&mut store, "Alice");
    let bob_id = create_user(&mut store, "Bob");
    let group_id = create_empty_group(&mut store, "Bali Trip 2026", bob_id).unwrap();
    add_member(&mut store, group_id, bob_id, alice_id).unwrap();

    let expense_id = create_expense(
        &mut store,
        group_id,
        alice_id,
        56,
        IncludeParticipants::List { participants: vec![alice_id, bob_id] },
    )
    .unwrap();

    let entries = store.get_all_by_expense_id(&expense_id);
    assert_eq!(vec![bob_id], entries[0].participants);
}

#[test]
fn negative_total() {
    let mut store = Store::new();
    let bob_id = create_user(&mut store, "Bob");
    let alice_id = create_user(&mut store, "Alice");
    let group_id = create_empty_group(&mut store, "Bali Trip 2026", bob_id).unwrap();
    add_member(&mut store, group_id, bob_id, alice_id).unwrap();

    let err = create_expense(&mut store, group_id, bob_id, -10_000, IncludeParticipants::All).unwrap_err();
    assert_eq!(CreateExpenseError::InvalidTotal, err);
}

#[test]
fn negative_total_wins_over_missing_group() {
    let mut store = Store::new();
    let bob_id = create_user(&mut store, "Bob");
    let err = create_expense(&mut store, GroupId::new(unknown_id()).unwrap(), bob_id, -1, IncludeParticipants::All).unwrap_err();
    assert_eq!(CreateExpenseError::InvalidTotal, err);
}

#[test]
fn zero_total_accepted() {
    let mut store = Store::new();
    let bob_id = create_user(&mut store, "Bob");
    let group_id = create_empty_group(&mut store, "Bali Trip 2026", bob_id).unwrap();
    assert!(create_expense(&mut store, group_id, bob_id, 0, IncludeParticipants::All).is_ok());
}

#[test]
fn create_expense_group_not_found() {
    let mut store = Store::new();
    let bob_id = create_user(&mut store, "Bob");
    let err = create_expense(&mut store, GroupId::new(unknown_id()).unwrap(), bob_id, 50, IncludeParticipants::All).unwrap_err();
    assert_eq!(CreateExpenseError::GroupNotFound, err);
}

#[test]
fn payer_not_in_group() {
    let mut store = Store::new();
    let bob_id = create_user(&mut store, "Bob");
    let alice_id = create_user(&mut store, "Alice");
    let group_id = create_empty_group(&mut store, "Alice's expenses", alice_id).unwrap();

    let err = create_expense(&mut store, group_id, bob_id, 23, IncludeParticipants::All).unwrap_err();
    assert_eq!(CreateExpenseError::PayerIsNotGroupMember, err);
}

#[test]
fn author_not_in_group() {
    let mut store = Store::new();
    let bob_id = create_user(&mut store, "Bob");
    let alice_id = create_user(&mut store, "Alice");
    let group_id = create_empty_group(&mut store, "Alice's expenses", alice_id).unwrap();

    let err = CreateExpenseCommand {
        group_id,
        payer_id: alice_id,
        author_id: bob_id,
        participants: IncludeParticipants::All,
        occured_at: jan_08_2025(),
        total: Money::from_euros(23),
    }
    .handle(&mut store)
    .unwrap_err();
    assert_eq!(CreateExpenseError::AuthorNotInGroup, err);
}

#[test]
fn participant_not_found_in_group() {
    let mut store = Store::new();
    let alice_id = create_user(&mut store, "Alice");
    let bob_id = create_user(&mut store, "Bob");
    let charlie_id = create_user(&mut store, "Charlie");
    let group_id = create_empty_group(&mut store, "Bob and Alice expenses", alice_id).unwrap();

    let err = create_expense(
        &mut store,
        group_id,
        alice_id,
        5_031,
        IncludeParticipants::List { participants: vec![alice_id, bob_id, charlie_id] },
    )
    .unwrap_err();
    assert_eq!(CreateExpenseError::ParticipantNotFound, err);
}

#[test]
fn expense_entry_round_trip() {
    let mut store = Store::new();
    let bob_id = create_user(&mut store, "Bob");
    let alice_id = create_user(&mut store, "Alice");
    let group_id = create_empty_group(&mut store, "Bali Trip 2026", bob_id).unwrap();
    add_member(&mut store, group_id, bob_id, alice_id).unwrap();

    let entry_id = ExpenseEntryId::new(11).unwrap();
    let expense_id = ExpenseId::new(12).unwrap();
    let created_at = Timestamp::from_micros(1_736_300_000_000_000);
    let command = CreateExpenseCommand {
        group_id,
        payer_id: alice_id,
        author_id: bob_id,
        participants: IncludeParticipants::All,
        occured_at: jan_08_2025(),
        total: Money::from_cents(4_250),
    };
    assert_eq!(Ok(expense_id), command.handle_with(&mut store, entry_id, expense_id, created_at));

    let entry = store.get_entry_by_id(&entry_id).unwrap();
    assert_eq!(entry_id, entry.id);
    assert_eq!(expense_id, entry.expense_id);
    assert_eq!(group_id, entry.group_id);
    assert_eq!(alice_id, entry.payer_id);
    assert_eq!(vec![bob_id], entry.participants);
    assert_eq!(ExpenseEntryStatus::Active, entry.status);
    assert_eq!(4_250, entry.total.cents());
    assert_eq!(bob_id, entry.author_id);
    assert_eq!(jan_08_2025(), entry.occurred_at);
    assert_eq!(created_at, entry.created_at);
}

#[test]
fn create_user_happy_path() {
    let mut store = Store::new();
    let id = create_user_with_name_and_email(&mut store, "Bob", "bob@gmail.com").unwrap();
    let user = store.get_user_by_id(&id).unwrap();
    assert_eq!("Bob", user.name.value());
    assert_eq!("bob@gmail.com", user.email.value());
    assert_eq!(Role::User, user.role);
}

#[test]
fn email_already_taken() {
    let mut store = Store::new();
    create_user_with_name_and_email(&mut store, "Bob", "bob.thegoat@gmail.com").unwrap();
    let err = create_user_with_name_and_email(&mut store, "Josh", "bob.thegoat@gmail.com").unwrap_err();
    assert_eq!(CreateUserError::EmailAlreadyTaken, err);
}

#[test]
fn same_username_different_email() {
    let mut store = Store::new();
    create_user_with_name_and_email(&mut store, "Bob", "bob.thegoat@gmail.com").unwrap();
    create_user_with_name_and_email(&mut store, "Bob", "bob2@gmail.com").unwrap();
}
