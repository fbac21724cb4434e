//! Command handlers: each runs one business transaction against the store.

pub mod add_group_member;
pub mod create_empty_group;
pub mod create_user;
pub mod create_expense;
