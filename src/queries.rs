//! Query handlers: read-only views of the store.

pub mod get_groups_for_user;
pub mod get_user_by_email;
pub mod get_user_by_id;
pub mod get_expenses_for_group;
