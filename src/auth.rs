//! Credentials and sessions: the password policy, and the session rules
//! that sign-in relies on.

use vstd::prelude::*;
use vstd::string::StrSliceExecFns;
use crate::contact::Timestamp;
use crate::ids::UserId;
use crate::text::{byte_len, trim_text, trimmed};

verus! {

pub const PASSWORD_MIN_LENGTH: usize = 12;
pub const PASSWORD_MAX_LENGTH: usize = 128;

/// Why a text cannot be a password.
#[derive(Debug, PartialEq, Eq, Structural, Clone, Copy)]
pub enum PasswordError {
    Empty,
    TooSmall,
    TooLong,
    TooWeak,
}

pub open spec fn is_lower(c: char) -> bool {
    'a' <= c <= 'z'
}

pub open spec fn is_upper(c: char) -> bool {
    'A' <= c <= 'Z'
}

pub open spec fn is_digit(c: char) -> bool {
    '0' <= c <= '9'
}

/// Any character but an ASCII letter or digit.
pub open spec fn is_special(c: char) -> bool {
    !is_lower(c) && !is_upper(c) && !is_digit(c)
}

/// Some character of the text has the property.
pub open spec fn has_some(t: Seq<char>, p: spec_fn(char) -> bool) -> bool {
    exists|i: int| 0 <= i < t.len() && p(#[trigger] t[i])
}

/// The outcome of reading a password: the trimmed text, 12 to 128 bytes,
/// with a lowercase letter, an uppercase letter, a digit and another
/// character.
pub open spec fn password_rule(s: Seq<char>) -> Result<Seq<char>, PasswordError> {
    let t = trimmed(s);
    if t.len() == 0 {
        Err(PasswordError::Empty)
    } else if byte_len(t) < PASSWORD_MIN_LENGTH {
        Err(PasswordError::TooSmall)
    } else if byte_len(t) > PASSWORD_MAX_LENGTH {
        Err(PasswordError::TooLong)
    } else if has_some(t, |c: char| is_lower(c)) && has_some(t, |c: char| is_upper(c)) && has_some(t, |c: char| is_digit(c))
        && has_some(t, |c: char| is_special(c)) {
        Ok(t)
    } else {
        Err(PasswordError::TooWeak)
    }
}

/// A password that meets the policy.
pub struct Password {
    val: String,
}

impl View for Password {
    type V = Seq<char>;

    closed spec fn view(&self) -> Seq<char> {
        self.val@
    }
}

impl Password {
    /// Reads a password; surrounding white space is dropped.
    pub fn parse(s: &str) -> (r: Result<Password, PasswordError>)
        ensures
            match password_rule(s@) {
                Ok(t) => r is Ok && r->Ok_0@ == t,
                Err(e) => r == Err::<Password, PasswordError>(e),
            },
    {
        let t = trim_text(s);
        if t.is_empty() {
            return Err(PasswordError::Empty);
        }
        let n = t.as_bytes().len();
        if n < PASSWORD_MIN_LENGTH {
            return Err(PasswordError::TooSmall);
        }
        if n > PASSWORD_MAX_LENGTH {
            return Err(PasswordError::TooLong);
        }
        let len = t.unicode_len();
        let mut has_lowercase = false;
        let mut has_uppercase = false;
        let mut has_digit = false;
        let mut has_special = false;
        let mut i: usize = 0;
        while i < len
            invariant
                len == t@.len(),
                i <= len,
                has_lowercase == has_some(t@.subrange(0, i as int), |c: char| is_lower(c)),
                has_uppercase == has_some(t@.subrange(0, i as int), |c: char| is_upper(c)),
                has_digit == has_some(t@.subrange(0, i as int), |c: char| is_digit(c)),
                has_special == has_some(t@.subrange(0, i as int), |c: char| is_special(c)),
            decreases len - i,
        {
            let c = t.get_char(i);
            let ghost pre = t@.subrange(0, i as int);
            let ghost post = t@.subrange(0, i + 1);
            assert(post =~= pre.push(c));
            if 'a' <= c && c <= 'z' {
                has_lowercase = true;
            } else if 'A' <= c && c <= 'Z' {
                has_uppercase = true;
            } else if '0' <= c && c <= '9' {
                has_digit = true;
            } else {
                has_special = true;
            }
            proof {
                assert(post[i as int] == c);
                assert forall|p: spec_fn(char) -> bool| has_some(post, p) == (has_some(pre, p) || p(c)) by {
                    if has_some(post, p) {
                        let j = choose|j: int| 0 <= j < post.len() && p(#[trigger] post[j]);
                        if j < i {
                            assert(pre[j] == post[j]);
                        }
                    }
                    if has_some(pre, p) {
                        let j = choose|j: int| 0 <= j < pre.len() && p(#[trigger] pre[j]);
                        assert(post[j] == pre[j]);
                    }
                }
            }
            i = i + 1;
        }
        assert(t@.subrange(0, len as int) =~= t@);
        if has_lowercase && has_uppercase && has_digit && has_special {
            return Ok(Password { val: t.to_owned() });
        }
        Err(PasswordError::TooWeak)
    }

    pub fn value(&self) -> (r: String)
        ensures
            r@ == self@,
    {
        self.val.clone()
    }
}

/// A signed-in session.
pub struct Session {
    pub id: [u8; 128],
    pub entry_id: u128,
    pub expires_at: Timestamp,
}

impl Session {
    fn is_valid(&self, now: Timestamp) -> (r: bool)
        ensures
            r == (now.micros < self.expires_at.micros),
    {
        now.micros < self.expires_at.micros
    }

    /// A session has expired once `now` reaches its expiry time.
    pub fn is_expired(&self, now: Timestamp) -> (r: bool)
        ensures
            r == (now.micros >= self.expires_at.micros),
    {
        !self.is_valid(now)
    }
}

/// A user's credentials and open sessions.
pub struct Entry {
    pub id: u128,
    pub user_id: UserId,
    pub hashed_password: Vec<u8>,
    pub created_at: Timestamp,
    pub sessions: Vec<Session>,
}

impl Entry {
    /// The session that expires the soonest; the first of several such.
    pub fn oldest_session(&self) -> (r: Option<&Session>)
        ensures
            self.sessions@.len() == 0 <==> r is None,
            r matches Some(s) ==> exists|i: int|
                0 <= i < self.sessions@.len() && *s == self.sessions@[i]
                    && (forall|j: int| 0 <= j < self.sessions@.len() ==> s.expires_at.micros <= (#[trigger] self.sessions@[j]).expires_at.micros)
                    && (forall|j: int| 0 <= j < i ==> s.expires_at.micros < (#[trigger] self.sessions@[j]).expires_at.micros),
    {
        if self.sessions.len() == 0 {
            return None;
        }
        let mut best: usize = 0;
        let mut i: usize = 1;
        while i < self.sessions.len()
            invariant
                1 <= i <= self.sessions@.len(),
                best < i,
                forall|j: int| 0 <= j < i ==> self.sessions@[best as int].expires_at.micros <= (#[trigger] self.sessions@[j]).expires_at.micros,
                forall|j: int| 0 <= j < best ==> self.sessions@[best as int].expires_at.micros < (#[trigger] self.sessions@[j]).expires_at.micros,
            decreases self.sessions.len() - i,
        {
            if self.sessions[i].expires_at.micros < self.sessions[best].expires_at.micros {
                best = i;
            }
            i = i + 1;
        }
        Some(&self.sessions[best])
    }
}

} // verus!
