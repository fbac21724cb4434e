//! E-mail addresses and points in time, as the entities hold them.

use vstd::prelude::*;

verus! {

/// The address that `email_address::EmailAddress` reads in a text, with its
/// default options, as its `email` method writes it (`local@domain`, any
/// display name dropped); nothing where the text is not an address.
pub uninterp spec fn email_address_of(s: Seq<char>) -> Option<Seq<char>>;

/// Relies on `email_address::EmailAddress::from_str` to parse the text, and on
/// its `email` method to write the address part back.
#[verifier::external_body]
fn read_email(s: &str) -> (r: Option<String>)
    ensures
        r is Some == email_address_of(s@) is Some,
        r is Some ==> r->Some_0@ == email_address_of(s@)->Some_0,
{
    s.parse::<email_address::EmailAddress>().ok().map(|e| e.email())
}

/// Why a text is not an e-mail address.
#[derive(Debug, PartialEq, Eq, Structural, Clone, Copy)]
pub enum EmailError {
    Invalid,
}

/// A validated e-mail address, kept as `local@domain`.
#[derive(Debug, PartialEq, Eq)]
pub struct Email {
    val: String,
}

impl View for Email {
    type V = Seq<char>;

    closed spec fn view(&self) -> Seq<char> {
        self.val@
    }
}

impl Clone for Email {
    fn clone(&self) -> (r: Self)
        ensures
            r == *self,
    {
        Email { val: self.val.clone() }
    }
}

impl Email {
    /// Reads an address; a display name around it is dropped.
    pub fn parse(s: &str) -> (r: Result<Email, EmailError>)
        ensures
            match email_address_of(s@) {
                Some(a) => r is Ok && r->Ok_0@ == a,
                None => r == Err::<Email, EmailError>(EmailError::Invalid),
            },
    {
        match read_email(s) {
            Some(a) => Ok(Email { val: a }),
            None => Err(EmailError::Invalid),
        }
    }

    pub fn value(&self) -> (r: String)
        ensures
            r@ == self@,
    {
        self.val.clone()
    }

    /// Exact comparison of two addresses.
    pub fn same_as(&self, other: &Email) -> (r: bool)
        ensures
            r == (self@ == other@),
    {
        self.val == other.val
    }
}

/// A point in time, in microseconds since the Unix epoch (UTC).
#[derive(Debug, PartialEq, Eq, Structural, Clone, Copy)]
pub struct Timestamp {
    pub micros: i64,
}

/// Relies on `chrono::Utc::now`: the current time, as microseconds since the
/// Unix epoch. Nothing is known of the value.
#[verifier::external_body]
fn now_micros() -> (r: i64) {
    chrono::Utc::now().timestamp_micros()
}

impl Timestamp {
    pub fn from_micros(micros: i64) -> (r: Timestamp)
        ensures
            r.micros == micros,
    {
        Timestamp { micros }
    }

    /// The current time from the system clock.
    pub fn now() -> (r: Timestamp) {
        Timestamp { micros: now_micros() }
    }
}

} // verus!
