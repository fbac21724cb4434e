use coin_ledger::auth::{Entry, Password, PasswordError, Session};
use coin_ledger::contact::Timestamp;
use coin_ledger::entities::{ExpenseEntryStatus, Group};
use coin_ledger::ids::GroupId;
use coin_ledger::names::Groupname;
use coin_ledger::ids::UserId;
use coin_ledger::role::Role;
use coin_ledger::rows::{
    flatten_expense_entries_with_participants, flatten_group_with_member, DbExpenseEntry,
    DbExpenseEntryWithOptionalParticipant, DbExpenseEntryWithParticipants, DbGroup, DbGroupMember,
    DbGroupWithMember, DbGroupWithMembers, DbUser,
};
use coin_ledger::store::DbError;

fn entry_row(id: u128, status: Option<u128>, total: i64) -> DbExpenseEntry {
    DbExpenseEntry {
        id,
        expense_id: 500,
        group_id: 600,
        payer_id: 1,
        status,
        total,
        author_id: 1,
        occurred_at: Timestamp::from_micros(10),
        created_at: Timestamp::from_micros(20),
    }
}

#[test]
fn entry_row_reads_back() {
    let row = DbExpenseEntryWithParticipants { entry: entry_row(7, None, 12_000), participants: vec![2, 3, 2] };
    let entry = row.try_into_entry().unwrap();
    assert_eq!(7, entry.id.value());
    assert_eq!(500, entry.expense_id.value());
    assert_eq!(12_000, entry.total.cents());
    assert_eq!(ExpenseEntryStatus::Active, entry.status);
    let parts: Vec<u128> = entry.participants.iter().map(|p| p.value()).collect();
    assert_eq!(vec![2, 3], parts);
}

#[test]
fn entry_row_inactive_status() {
    let row = DbExpenseEntryWithParticipants { entry: entry_row(7, Some(8), 120), participants: vec![] };
    let entry = row.try_into_entry().unwrap();
    match entry.status {
        ExpenseEntryStatus::Inactive { overwritten_by } => assert_eq!(8, overwritten_by.value()),
        ExpenseEntryStatus::Active => panic!("expected an inactive entry"),
    }
}

#[test]
fn entry_row_corrupted() {
    let zero_id = DbExpenseEntryWithParticipants { entry: entry_row(0, None, 1), participants: vec![] };
    assert!(matches!(zero_id.try_into_entry(), Err(DbError::CorruptedData { .. })));
    let bad_participant = DbExpenseEntryWithParticipants { entry: entry_row(7, None, 1), participants: vec![u128::MAX] };
    assert!(matches!(bad_participant.try_into_entry(), Err(DbError::CorruptedData { .. })));
    let negative = DbExpenseEntryWithParticipants { entry: entry_row(7, None, -1), participants: vec![] };
    assert!(matches!(negative.try_into_entry(), Err(DbError::CorruptedData { .. })));
}

#[test]
fn joined_entry_rows_grouped_by_run() {
    let rows = vec![
        DbExpenseEntryWithOptionalParticipant { entry: entry_row(7, None, 1), participant_id: Some(2) },
        DbExpenseEntryWithOptionalParticipant { entry: entry_row(7, None, 1), participant_id: Some(3) },
        DbExpenseEntryWithOptionalParticipant { entry: entry_row(9, Some(7), 5), participant_id: None },
    ];
    let entries = flatten_expense_entries_with_participants(rows).unwrap();
    assert_eq!(2, entries.len());
    assert_eq!(7, entries[0].id.value());
    assert_eq!(2, entries[0].participants.len());
    assert_eq!(9, entries[1].id.value());
    assert!(entries[1].participants.is_empty());
    assert!(flatten_expense_entries_with_participants(vec![]).unwrap().is_empty());
}

#[test]
fn group_row_reads_back() {
    let g = DbGroupWithMembers {
        group: DbGroup { id: 10, name: " Trip to Paris ".to_string(), owner_id: 1, created_at: Timestamp::from_micros(3) },
        members: vec![DbGroupMember { group_id: 10, member_id: 2 }, DbGroupMember { group_id: 10, member_id: 2 }],
    };
    let group = g.try_into_group().unwrap();
    assert_eq!("Trip to Paris", group.name.value());
    assert_eq!(vec![UserId::new(2).unwrap()], group.members);
}

#[test]
fn group_row_with_owner_as_member_is_corrupted() {
    let g = DbGroupWithMembers {
        group: DbGroup { id: 10, name: "Trip".to_string(), owner_id: 1, created_at: Timestamp::from_micros(3) },
        members: vec![DbGroupMember { group_id: 10, member_id: 1 }],
    };
    assert!(matches!(g.try_into_group(), Err(DbError::CorruptedData { .. })));
}

fn group_member_row(id: u128, member: u128) -> DbGroupWithMember {
    DbGroupWithMember { id, name: format!("Group {}", id), owner_id: 1, member_id: member, created_at: Timestamp::from_micros(0) }
}

#[test]
fn joined_group_rows_grouped_by_id() {
    let rows = vec![group_member_row(10, 2), group_member_row(11, 3), group_member_row(10, 4)];
    let groups = flatten_group_with_member(rows).unwrap();
    assert_eq!(2, groups.len());
    assert_eq!(10, groups[0].id.value());
    let members: Vec<u128> = groups[0].members.iter().map(|m| m.value()).collect();
    assert_eq!(vec![2, 4], members);
    assert_eq!("Group 11", groups[1].name.value());
}

#[test]
fn user_row_reads_back() {
    let row = DbUser { id: 5, name: "John".to_string(), email: "john.doe@gmail.com".to_string(), role: 20, created_at: Timestamp::from_micros(1) };
    let user = row.try_into_user().unwrap();
    assert_eq!("John", user.name.value());
    assert_eq!(Role::Moderator, user.role);
    let bad = DbUser { id: 5, name: "John".to_string(), email: "john.doe@gmail.com".to_string(), role: 27, created_at: Timestamp::from_micros(1) };
    assert_eq!("database corrupted data: unknown role: '27'", bad.try_into_user().unwrap_err().message());
}

#[test]
fn password_policy() {
    assert_eq!("Abcdefgh123!", Password::parse("  Abcdefgh123!  ").unwrap().value());
    assert_eq!(PasswordError::Empty, Password::parse("   ").err().unwrap());
    assert_eq!(PasswordError::TooSmall, Password::parse("Ab1!").err().unwrap());
    assert_eq!(PasswordError::TooLong, Password::parse(&format!("Ab1!{}", "x".repeat(125))).err().unwrap());
    assert_eq!(PasswordError::TooWeak, Password::parse("abcdefgh1234").err().unwrap());
}

#[test]
fn oldest_session_and_expiry() {
    let session = |at: i64| Session { id: [0u8; 128], entry_id: 1, expires_at: Timestamp::from_micros(at) };
    let entry = Entry {
        id: 1,
        user_id: UserId::new(9).unwrap(),
        hashed_password: vec![],
        created_at: Timestamp::from_micros(0),
        sessions: vec![session(30), session(10), session(10)],
    };
    let oldest = entry.oldest_session().unwrap();
    assert_eq!(10, oldest.expires_at.micros);
    assert!(oldest.is_expired(Timestamp::from_micros(10)));
    assert!(!oldest.is_expired(Timestamp::from_micros(9)));
}

#[test]
fn group_row_round_trip() {
    let group = Group::new(
        GroupId::new(10).unwrap(),
        Groupname::parse("  Bali Trip 2026 ").unwrap(),
        UserId::new(1).unwrap(),
        vec![UserId::new(2).unwrap(), UserId::new(3).unwrap()],
        Timestamp::from_micros(42),
    );
    let row = DbGroupWithMembers::from_group(&group);
    assert_eq!(10, row.group.id);
    assert_eq!(2, row.members.len());
    let back = row.try_into_group().unwrap();
    assert_eq!(group, back);
}

#[test]
fn entry_row_round_trip() {
    let row = DbExpenseEntryWithParticipants { entry: entry_row(7, Some(8), 12_000), participants: vec![2, 3] };
    let entry = row.try_into_entry().unwrap();
    let again = DbExpenseEntryWithParticipants::from_entry(&entry).try_into_entry().unwrap();
    assert_eq!(entry, again);
}
