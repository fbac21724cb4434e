use coin_ledger::contact::{Email, EmailError};
use coin_ledger::ids::{GroupId, IdError, UserId};
use coin_ledger::money::Money;
use coin_ledger::names::{Groupname, GroupnameError, Username, UsernameError};
use coin_ledger::role::{Role, RoleError};
use coin_ledger::rows::DbRole;

#[test]
fn group_id_new_random_works() {
    let id = GroupId::new_random();
    assert!(id.value() != 0);
    assert!(id.value() != u128::MAX);
}

#[test]
fn user_id_new_random_works() {
    let id = UserId::new_random();
    assert!(id.value() != 0);
    assert!(id.value() != u128::MAX);
}

#[test]
fn valid_user_id() {
    for input in [
        "019b14ca-c11a-7882-ac00-0e88e8ba5e84",
        "019b14cac11a7882ac000e88e8ba5e84",
        "      019b14cac11a7882ac000e88e8ba5e84",
        "019b14ca-c11a-7882-ac00-0e88e8ba5e84     ",
    ] {
        let id = UserId::parse(input).unwrap();
        assert_eq!(0x019b14cac11a7882ac000e88e8ba5e84, id.value());
    }
}

#[test]
fn invalid_user_id() {
    assert_eq!(IdError::Malformed, UserId::parse("").unwrap_err());
    assert_eq!(IdError::ZerosOnly, UserId::parse("00000000-0000-0000-0000-000000000000").unwrap_err());
    assert_eq!(IdError::ZerosOnly, UserId::parse("00000000000000000000000000000000").unwrap_err());
    assert_eq!(IdError::OnesOnly, UserId::parse("ffffffff-ffff-ffff-ffff-ffffffffffff").unwrap_err());
    assert_eq!(IdError::OnesOnly, GroupId::parse("ffffffffffffffffffffffffffffffff").unwrap_err());
}

#[test]
fn id_from_raw_value() {
    assert_eq!(IdError::ZerosOnly, UserId::new(0).unwrap_err());
    assert_eq!(IdError::OnesOnly, GroupId::new(u128::MAX).unwrap_err());
    assert_eq!(42, UserId::new(42).unwrap().value());
}

#[test]
fn money_from_euros() {
    assert_eq!(12_800, Money::from_euros(128).cents());
    assert_eq!(-1_000_000, Money::from_euros(-10_000).cents());
    assert!(Money::from_cents(-1).is_negative());
    assert!(!Money::from_cents(0).is_negative());
}

#[test]
fn valid_username() {
    for input in ["abc", "A_user-123", "UserName_", "john_doe", "alice123", "Bob-Builder", "xYz_09", "   trimmed   ", "usér", "ąbc"] {
        let username = Username::parse(input).unwrap();
        assert_eq!(input.trim(), username.value());
    }
}

#[test]
fn invalid_username() {
    let cases = [
        ("", UsernameError::Empty),
        ("a", UsernameError::TooSmall),
        ("ab", UsernameError::TooSmall),
        ("aaaaaaaaaaaaaaaaaaaaaaaaa", UsernameError::TooLong),
        ("abcdefghijklmnopqrstuvwxyz", UsernameError::TooLong),
        ("1abc", UsernameError::MustStartWithLetter),
        ("_abc", UsernameError::MustStartWithLetter),
        ("-user", UsernameError::MustStartWithLetter),
        ("john!", UsernameError::InvalidChars),
        ("john doe", UsernameError::InvalidChars),
        ("john$", UsernameError::InvalidChars),
        ("jo@n", UsernameError::InvalidChars),
        ("   ", UsernameError::Empty),
    ];
    for (input, expected) in cases {
        assert_eq!(expected, Username::parse(input).unwrap_err(), "{}", input);
    }
}

#[test]
fn groupname_bounds() {
    assert_eq!("Trip to Paris", Groupname::parse("  Trip to Paris ").unwrap().value());
    assert_eq!(GroupnameError::Empty, Groupname::parse("   ").unwrap_err());
    assert_eq!(GroupnameError::TooLong, Groupname::parse(&"a".repeat(256)).unwrap_err());
    assert!(Groupname::parse(&"a".repeat(255)).is_ok());
    let a = Groupname::parse("Trip to Europe").unwrap();
    let b = Groupname::parse("TRIP TO EUROPE").unwrap();
    assert!(!a.same_as(&b));
}

#[test]
fn valid_role() {
    let cases = [
        ("user", Role::User),
        ("moderator", Role::Moderator),
        ("admin", Role::Admin),
        ("    user", Role::User),
        ("user   ", Role::User),
        (" moderator     ", Role::Moderator),
        ("admin ", Role::Admin),
        ("ADMIN", Role::Admin),
    ];
    for (input, expected) in cases {
        assert_eq!(expected, Role::parse(input).unwrap());
    }
}

#[test]
fn invalid_role() {
    for input in ["", "usr", "ad", "mod", "u", "111111"] {
        assert_eq!(RoleError::Unknown, Role::parse(input).unwrap_err());
    }
}

#[test]
fn from_domain_to_db() {
    assert_eq!(10, DbRole::from_role(&Role::User).0);
    assert_eq!(20, DbRole::from_role(&Role::Moderator).0);
    assert_eq!(30, DbRole::from_role(&Role::Admin).0);
}

#[test]
fn from_db_to_domain_ok() {
    assert_eq!(Role::User, DbRole(10).try_into_role().unwrap());
    assert_eq!(Role::Moderator, DbRole(20).try_into_role().unwrap());
    assert_eq!(Role::Admin, DbRole(30).try_into_role().unwrap());
}

#[test]
fn from_db_to_domain_invalid() {
    let invalid_db_role = 27;
    let err = DbRole(invalid_db_role).try_into_role().unwrap_err();
    let err_msg = err.message();
    assert_eq!("database corrupted data: unknown role: '27'", err_msg);
}

#[test]
fn email_validation() {
    assert_eq!("bob@gmail.com", Email::parse("bob@gmail.com").unwrap().value());
    assert_eq!(EmailError::Invalid, Email::parse("not an address").unwrap_err());
    assert_eq!("bob@gmail.com", Email::parse("Bob <bob@gmail.com>").unwrap().value());
}
