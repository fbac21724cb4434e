//! Identifiers: 128-bit UUIDs that are neither all zero nor all one bits.

use vstd::prelude::*;
use crate::text::{trim_text, trimmed};

verus! {

/// Why a value cannot be an identifier.
#[derive(Debug, PartialEq, Eq, Structural, Clone, Copy)]
pub enum IdError {
    /// The text does not spell a UUID.
    Malformed,
    /// The UUID has all bits zero.
    ZerosOnly,
    /// The UUID has all bits one.
    OnesOnly,
}

/// The UUID that a text spells, if it spells one.
pub uninterp spec fn uuid_of_text(s: Seq<char>) -> Option<u128>;

/// Relies on `uuid::Uuid::parse_str`: the value of a UUID written as hex
/// digits with optional hyphens, or nothing where the text is not one.
#[verifier::external_body]
fn parse_uuid(s: &str) -> (r: Option<u128>)
    ensures
        r == uuid_of_text(s@),
{
    uuid::Uuid::parse_str(s).ok().map(|u| u.as_u128())
}

/// Relies on `uuid::Uuid::now_v7`: a version 7 UUID; its version field holds
/// 7, so its bits are neither all zero nor all one.
#[verifier::external_body]
fn fresh_uuid() -> (r: u128)
    ensures
        r != 0,
        r != u128::MAX,
{
    uuid::Uuid::now_v7().as_u128()
}

/// The outcome of validating a raw UUID value.
pub open spec fn id_rule(v: u128) -> Result<u128, IdError> {
    if v == 0 {
        Err(IdError::ZerosOnly)
    } else if v == u128::MAX {
        Err(IdError::OnesOnly)
    } else {
        Ok(v)
    }
}

/// The outcome of reading an identifier from text: surrounding white space
/// is ignored.
pub open spec fn id_parse(s: Seq<char>) -> Result<u128, IdError> {
    match uuid_of_text(trimmed(s)) {
        None => Err(IdError::Malformed),
        Some(v) => id_rule(v),
    }
}

fn validate_raw(v: u128) -> (r: Result<u128, IdError>)
    ensures
        r == id_rule(v),
{
    if v == 0 {
        Err(IdError::ZerosOnly)
    } else if v == u128::MAX {
        Err(IdError::OnesOnly)
    } else {
        Ok(v)
    }
}

fn parse_raw(s: &str) -> (r: Result<u128, IdError>)
    ensures
        r == id_parse(s@),
{
    match parse_uuid(trim_text(s)) {
        None => Err(IdError::Malformed),
        Some(v) => validate_raw(v),
    }
}

/// Identifies a user.
#[derive(Debug, PartialEq, Eq, Structural, Clone, Copy, Hash)]
pub struct UserId {
    pub(crate) val: u128,
}

impl View for UserId {
    type V = u128;

    closed spec fn view(&self) -> u128 {
        self.val
    }
}

impl UserId {
    #[verifier::type_invariant]
    spec fn valid_value(self) -> bool {
        self.val != 0 && self.val != u128::MAX
    }

    /// The identifier with this value.
    pub closed spec fn from_value(v: u128) -> Self {
        Self { val: v }
    }

    /// An identifier is the one of its value.
    pub broadcast proof fn lemma_of_own_value(a: Self)
        ensures
            #[trigger] Self::from_value(a@) == a,
    {
    }

    /// The value is neither all zero nor all one bits.
    pub open spec fn valid(self) -> bool {
        self@ != 0 && self@ != u128::MAX
    }

    pub fn new(id: u128) -> (r: Result<Self, IdError>)
        ensures
            match id_rule(id) {
                Ok(v) => r == Ok::<Self, IdError>(Self::from_value(v)),
                Err(e) => r == Err::<Self, IdError>(e),
            },
    {
        match validate_raw(id) {
            Ok(v) => Ok(Self { val: v }),
            Err(e) => Err(e),
        }
    }

    /// A fresh identifier from the clock and randomness.
    pub fn new_random() -> (r: Self)
        ensures
            r.valid(),
    {
        Self { val: fresh_uuid() }
    }

    pub fn value(&self) -> (r: u128)
        ensures
            r == self@,
            self.valid(),
    {
        proof {
            use_type_invariant(self);
        }
        self.val
    }

    /// Reads an identifier written as a UUID, ignoring surrounding white space.
    pub fn parse(s: &str) -> (r: Result<Self, IdError>)
        ensures
            match id_parse(s@) {
                Ok(v) => r == Ok::<Self, IdError>(Self::from_value(v)),
                Err(e) => r == Err::<Self, IdError>(e),
            },
    {
        match parse_raw(s) {
            Ok(v) => Ok(Self { val: v }),
            Err(e) => Err(e),
        }
    }
}

/// Identifies a group.
#[derive(Debug, PartialEq, Eq, Structural, Clone, Copy, Hash)]
pub struct GroupId {
    pub(crate) val: u128,
}

impl View for GroupId {
    type V = u128;

    closed spec fn view(&self) -> u128 {
        self.val
    }
}

impl GroupId {
    #[verifier::type_invariant]
    spec fn valid_value(self) -> bool {
        self.val != 0 && self.val != u128::MAX
    }

    /// The identifier with this value.
    pub closed spec fn from_value(v: u128) -> Self {
        Self { val: v }
    }

    /// An identifier is the one of its value.
    pub broadcast proof fn lemma_of_own_value(a: Self)
        ensures
            #[trigger] Self::from_value(a@) == a,
    {
    }

    /// Identifiers with the same value are equal.
    pub proof fn lemma_view_injective(a: Self, b: Self)
        ensures
            a@ == b@ ==> a == b,
    {
    }

    /// The value is neither all zero nor all one bits.
    pub open spec fn valid(self) -> bool {
        self@ != 0 && self@ != u128::MAX
    }

    pub fn new(id: u128) -> (r: Result<Self, IdError>)
        ensures
            match id_rule(id) {
                Ok(v) => r == Ok::<Self, IdError>(Self::from_value(v)),
                Err(e) => r == Err::<Self, IdError>(e),
            },
    {
        match validate_raw(id) {
            Ok(v) => Ok(Self { val: v }),
            Err(e) => Err(e),
        }
    }

    /// A fresh identifier from the clock and randomness.
    pub fn new_random() -> (r: Self)
        ensures
            r.valid(),
    {
        Self { val: fresh_uuid() }
    }

    pub fn value(&self) -> (r: u128)
        ensures
            r == self@,
            self.valid(),
    {
        proof {
            use_type_invariant(self);
        }
        self.val
    }

    /// Reads an identifier written as a UUID, ignoring surrounding white space.
    pub fn parse(s: &str) -> (r: Result<Self, IdError>)
        ensures
            match id_parse(s@) {
                Ok(v) => r == Ok::<Self, IdError>(Self::from_value(v)),
                Err(e) => r == Err::<Self, IdError>(e),
            },
    {
        match parse_raw(s) {
            Ok(v) => Ok(Self { val: v }),
            Err(e) => Err(e),
        }
    }
}

/// Identifies a logical expense, shared by all its versions.
#[derive(Debug, PartialEq, Eq, Structural, Clone, Copy, Hash)]
pub struct ExpenseId {
    pub(crate) val: u128,
}

impl View for ExpenseId {
    type V = u128;

    closed spec fn view(&self) -> u128 {
        self.val
    }
}

impl ExpenseId {
    #[verifier::type_invariant]
    spec fn valid_value(self) -> bool {
        self.val != 0 && self.val != u128::MAX
    }

    /// The identifier with this value.
    pub closed spec fn from_value(v: u128) -> Self {
        Self { val: v }
    }

    /// An identifier is the one of its value.
    pub broadcast proof fn lemma_of_own_value(a: Self)
        ensures
            #[trigger] Self::from_value(a@) == a,
    {
    }

    /// The value is neither all zero nor all one bits.
    pub open spec fn valid(self) -> bool {
        self@ != 0 && self@ != u128::MAX
    }

    pub fn new(id: u128) -> (r: Result<Self, IdError>)
        ensures
            match id_rule(id) {
                Ok(v) => r == Ok::<Self, IdError>(Self::from_value(v)),
                Err(e) => r == Err::<Self, IdError>(e),
            },
    {
        match validate_raw(id) {
            Ok(v) => Ok(Self { val: v }),
            Err(e) => Err(e),
        }
    }

    /// A fresh identifier from the clock and randomness.
    pub fn new_random() -> (r: Self)
        ensures
            r.valid(),
    {
        Self { val: fresh_uuid() }
    }

    pub fn value(&self) -> (r: u128)
        ensures
            r == self@,
            self.valid(),
    {
        proof {
            use_type_invariant(self);
        }
        self.val
    }

    /// Reads an identifier written as a UUID, ignoring surrounding white space.
    pub fn parse(s: &str) -> (r: Result<Self, IdError>)
        ensures
            match id_parse(s@) {
                Ok(v) => r == Ok::<Self, IdError>(Self::from_value(v)),
                Err(e) => r == Err::<Self, IdError>(e),
            },
    {
        match parse_raw(s) {
            Ok(v) => Ok(Self { val: v }),
            Err(e) => Err(e),
        }
    }
}

/// Identifies one version of an expense.
#[derive(Debug, PartialEq, Eq, Structural, Clone, Copy, Hash)]
pub struct ExpenseEntryId {
    pub(crate) val: u128,
}

impl View for ExpenseEntryId {
    type V = u128;

    closed spec fn view(&self) -> u128 {
        self.val
    }
}

impl ExpenseEntryId {
    #[verifier::type_invariant]
    spec fn valid_value(self) -> bool {
        self.val != 0 && self.val != u128::MAX
    }

    /// The identifier with this value.
    pub closed spec fn from_value(v: u128) -> Self {
        Self { val: v }
    }

    /// An identifier is the one of its value.
    pub broadcast proof fn lemma_of_own_value(a: Self)
        ensures
            #[trigger] Self::from_value(a@) == a,
    {
    }

    /// The value is neither all zero nor all one bits.
    pub open spec fn valid(self) -> bool {
        self@ != 0 && self@ != u128::MAX
    }

    pub fn new(id: u128) -> (r: Result<Self, IdError>)
        ensures
            match id_rule(id) {
                Ok(v) => r == Ok::<Self, IdError>(Self::from_value(v)),
                Err(e) => r == Err::<Self, IdError>(e),
            },
    {
        match validate_raw(id) {
            Ok(v) => Ok(Self { val: v }),
            Err(e) => Err(e),
        }
    }

    /// A fresh identifier from the clock and randomness.
    pub fn new_random() -> (r: Self)
        ensures
            r.valid(),
    {
        Self { val: fresh_uuid() }
    }

    pub fn value(&self) -> (r: u128)
        ensures
            r == self@,
            self.valid(),
    {
        proof {
            use_type_invariant(self);
        }
        self.val
    }

    /// Reads an identifier written as a UUID, ignoring surrounding white space.
    pub fn parse(s: &str) -> (r: Result<Self, IdError>)
        ensures
            match id_parse(s@) {
                Ok(v) => r == Ok::<Self, IdError>(Self::from_value(v)),
                Err(e) => r == Err::<Self, IdError>(e),
            },
    {
        match parse_raw(s) {
            Ok(v) => Ok(Self { val: v }),
            Err(e) => Err(e),
        }
    }
}

} // verus!
