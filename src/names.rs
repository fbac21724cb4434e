//! Display names: user names and group names, kept trimmed and bounded.

use vstd::prelude::*;
use vstd::string::StrSliceExecFns;
use crate::text::{alphabetic, alphanumeric, byte_len, is_alphabetic, is_alphanumeric, trim_text, trimmed};

verus! {

pub const USERNAME_MIN_LENGTH: usize = 3;
pub const USERNAME_MAX_LENGTH: usize = 24;
pub const GROUPNAME_MAX_LENGTH: usize = 255;

/// Why a text cannot be a user name.
#[derive(Debug, PartialEq, Eq, Structural, Clone, Copy)]
pub enum UsernameError {
    Empty,
    TooSmall,
    TooLong,
    MustStartWithLetter,
    InvalidChars,
}

/// A character that may stand in a user name.
pub open spec fn allowed_char(c: char) -> bool {
    alphanumeric(c) || c == '-' || c == '_'
}

/// The outcome of reading a user name: the trimmed text, which must take
/// 3 to 24 bytes, start with a letter and hold only letters, digits, dashes
/// and underscores.
pub open spec fn username_rule(s: Seq<char>) -> Result<Seq<char>, UsernameError> {
    let t = trimmed(s);
    if t.len() == 0 {
        Err(UsernameError::Empty)
    } else if byte_len(t) < USERNAME_MIN_LENGTH {
        Err(UsernameError::TooSmall)
    } else if byte_len(t) > USERNAME_MAX_LENGTH {
        Err(UsernameError::TooLong)
    } else if !alphabetic(t[0]) {
        Err(UsernameError::MustStartWithLetter)
    } else if exists|i: int| 0 <= i < t.len() && !allowed_char(#[trigger] t[i]) {
        Err(UsernameError::InvalidChars)
    } else {
        Ok(t)
    }
}

fn is_allowed_char(c: char) -> (r: bool)
    ensures
        r == allowed_char(c),
{
    is_alphanumeric(c) || c == '-' || c == '_'
}

/// A user's display name.
#[derive(Debug, PartialEq, Eq)]
pub struct Username {
    val: String,
}

impl View for Username {
    type V = Seq<char>;

    closed spec fn view(&self) -> Seq<char> {
        self.val@
    }
}

impl Clone for Username {
    fn clone(&self) -> (r: Self)
        ensures
            r == *self,
    {
        Username { val: self.val.clone() }
    }
}

impl Username {
    /// Reads a user name; surrounding white space is dropped.
    pub fn parse(s: &str) -> (r: Result<Self, UsernameError>)
        ensures
            match username_rule(s@) {
                Ok(t) => r is Ok && r->Ok_0@ == t,
                Err(e) => r == Err::<Self, UsernameError>(e),
            },
    {
        let t = trim_text(s);
        if t.is_empty() {
            return Err(UsernameError::Empty);
        }
        let n = t.as_bytes().len();
        if n < USERNAME_MIN_LENGTH {
            return Err(UsernameError::TooSmall);
        }
        if n > USERNAME_MAX_LENGTH {
            return Err(UsernameError::TooLong);
        }
        if !is_alphabetic(t.get_char(0)) {
            return Err(UsernameError::MustStartWithLetter);
        }
        let len = t.unicode_len();
        let mut i: usize = 0;
        while i < len
            invariant
                len == t@.len(),
                t@ == trimmed(s@),
                t@.len() > 0,
                USERNAME_MIN_LENGTH <= byte_len(t@) <= USERNAME_MAX_LENGTH,
                alphabetic(t@[0]),
                i <= len,
                forall|j: int| 0 <= j < i ==> allowed_char(#[trigger] t@[j]),
            decreases len - i,
        {
            let c = t.get_char(i);
            if !is_allowed_char(c) {
                assert(!allowed_char(t@[i as int]));
                return Err(UsernameError::InvalidChars);
            }
            i = i + 1;
        }
        Ok(Username { val: t.to_owned() })
    }

    pub fn value(&self) -> (r: String)
        ensures
            r@ == self@,
    {
        self.val.clone()
    }
}

/// Why a text cannot be a group name.
#[derive(Debug, PartialEq, Eq, Structural, Clone, Copy)]
pub enum GroupnameError {
    Empty,
    TooLong,
}

/// The outcome of reading a group name: the trimmed text, non-empty and at
/// most 255 bytes. Case is kept.
pub open spec fn groupname_rule(s: Seq<char>) -> Result<Seq<char>, GroupnameError> {
    let t = trimmed(s);
    if t.len() == 0 {
        Err(GroupnameError::Empty)
    } else if byte_len(t) > GROUPNAME_MAX_LENGTH {
        Err(GroupnameError::TooLong)
    } else {
        Ok(t)
    }
}

/// A group's display name.
#[derive(Debug, PartialEq, Eq)]
pub struct Groupname {
    val: String,
}

impl View for Groupname {
    type V = Seq<char>;

    closed spec fn view(&self) -> Seq<char> {
        self.val@
    }
}

impl Clone for Groupname {
    fn clone(&self) -> (r: Self)
        ensures
            r == *self,
    {
        proof {
            use_type_invariant(self);
        }
        Groupname { val: self.val.clone() }
    }
}

impl Groupname {
    /// A group name reads back as itself.
    #[verifier::type_invariant]
    spec fn well_formed(self) -> bool {
        groupname_rule(self.val@) == Ok::<Seq<char>, GroupnameError>(self.val@)
    }

    /// Reads a group name; surrounding white space is dropped.
    pub fn parse(s: &str) -> (r: Result<Self, GroupnameError>)
        ensures
            match groupname_rule(s@) {
                Ok(t) => r is Ok && r->Ok_0@ == t,
                Err(e) => r == Err::<Self, GroupnameError>(e),
            },
    {
        let t = trim_text(s);
        if t.is_empty() {
            return Err(GroupnameError::Empty);
        }
        if t.as_bytes().len() > GROUPNAME_MAX_LENGTH {
            return Err(GroupnameError::TooLong);
        }
        Ok(Groupname { val: t.to_owned() })
    }

    pub fn value(&self) -> (r: String)
        ensures
            r@ == self@,
            groupname_rule(r@) == Ok::<Seq<char>, GroupnameError>(r@),
    {
        proof {
            use_type_invariant(self);
        }
        self.val.clone()
    }

    /// Exact comparison: names that differ only by case are different.
    pub fn same_as(&self, other: &Groupname) -> (r: bool)
        ensures
            r == (self@ == other@),
    {
        self.val == other.val
    }
}

} // verus!
