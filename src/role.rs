//! User roles.

use vstd::prelude::*;
use vstd::string::StringExecFns;
use crate::text::{lowercased, to_lowercase, trim_text, trimmed};

verus! {

/// What a user may do: a closed set of three roles.
#[derive(Debug, PartialEq, Eq, Structural, Clone, Copy)]
pub enum Role {
    User,
    Moderator,
    Admin,
}

/// Why a text names no role.
#[derive(Debug, PartialEq, Eq, Structural, Clone, Copy)]
pub enum RoleError {
    Unknown,
}

/// The role that a lowercase word names.
pub open spec fn role_of_word(w: Seq<char>) -> Option<Role> {
    if w == seq!['u', 's', 'e', 'r'] {
        Some(Role::User)
    } else if w == seq!['m', 'o', 'd', 'e', 'r', 'a', 't', 'o', 'r'] {
        Some(Role::Moderator)
    } else if w == seq!['a', 'd', 'm', 'i', 'n'] {
        Some(Role::Admin)
    } else {
        None
    }
}

/// The outcome of reading a role: white space around it and case are ignored.
pub open spec fn role_parse(s: Seq<char>) -> Result<Role, RoleError> {
    match role_of_word(lowercased(trimmed(s))) {
        Some(r) => Ok(r),
        None => Err(RoleError::Unknown),
    }
}

impl Role {
    /// Reads a role name, ignoring case and surrounding white space.
    pub fn parse(s: &str) -> (r: Result<Role, RoleError>)
        ensures
            r == role_parse(s@),
    {
        let w = to_lowercase(trim_text(s));
        proof {
            reveal_strlit("user");
            reveal_strlit("moderator");
            reveal_strlit("admin");
            assert("user"@ =~= seq!['u', 's', 'e', 'r']);
            assert("moderator"@ =~= seq!['m', 'o', 'd', 'e', 'r', 'a', 't', 'o', 'r']);
            assert("admin"@ =~= seq!['a', 'd', 'm', 'i', 'n']);
        }
        if w == String::from_str("user") {
            Ok(Role::User)
        } else if w == String::from_str("moderator") {
            Ok(Role::Moderator)
        } else if w == String::from_str("admin") {
            Ok(Role::Admin)
        } else {
            Err(RoleError::Unknown)
        }
    }
}

} // verus!
