//! A monetary amount, counted in cents.

use vstd::prelude::*;

verus! {

/// A signed amount of money in minor units (cents).
#[derive(Debug, PartialEq, Eq, Structural, Clone, Copy)]
pub struct Money {
    cents: i64,
}

impl Money {
    /// The amount in cents.
    pub closed spec fn spec_cents(self) -> int {
        self.cents as int
    }

    /// The amount of this many cents.
    pub closed spec fn spec_from_cents(cents: i64) -> Self {
        Self { cents }
    }

    /// An amount fits in 64 bits.
    pub broadcast proof fn lemma_cents_range(m: Self)
        ensures
            i64::MIN <= #[trigger] m.spec_cents() <= i64::MAX,
    {
    }

    /// An amount is the one of its cents.
    pub broadcast proof fn lemma_of_own_cents(m: Self)
        ensures
            #[trigger] Self::spec_from_cents(m.spec_cents() as i64) == m,
    {
    }

    pub fn from_cents(cents: i64) -> (r: Self)
        ensures
            r == Self::spec_from_cents(cents),
            r.spec_cents() == cents,
    {
        Self { cents }
    }

    /// A whole number of euros, a hundred cents each.
    pub fn from_euros(euros: i64) -> (r: Self)
        requires
            i64::MIN <= euros * 100 <= i64::MAX,
        ensures
            r.spec_cents() == euros * 100,
    {
        Self::from_cents(euros * 100)
    }

    pub fn cents(&self) -> (r: i64)
        ensures
            r == self.spec_cents(),
    {
        self.cents
    }

    pub fn is_negative(&self) -> (r: bool)
        ensures
            r == (self.spec_cents() < 0),
    {
        self.cents < 0
    }
}

} // verus!
