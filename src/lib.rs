//! Ledger and membership rules for expense-sharing groups: validated value
//! types, the entities built from them, a transactional in-memory store and
//! the command and query handlers that keep their invariants.

pub mod text;
pub mod money;
pub mod ids;
pub mod names;
pub mod role;
pub mod contact;
pub mod entities;
pub mod pagination;
pub mod store;
pub mod commands;
pub mod queries;
pub mod laws;
pub mod rows;
pub mod auth;
