use vstd::prelude::*;

verus! {

/// Credits a subscriber has granted and the server has not yet spent.
///
/// Each credit is the right to deliver one message. The balance is a 32-bit
/// counter: grants saturate at `u32::MAX` and spending never goes below zero.
/// Callers that share a balance between tasks hold it behind a lock.
#[derive(Debug)]
pub struct CreditBalance {
    credits: u32,
}

impl CreditBalance {
    /// The number of credits currently held.
    pub closed spec fn spec_available(&self) -> nat {
        self.credits as nat
    }

    /// A balance that starts at zero.
    pub fn new() -> (r: Self)
        ensures
            r.spec_available() == 0,
    {
        CreditBalance { credits: 0 }
    }

    /// A balance that starts at `initial`.
    pub fn with_initial(initial: u32) -> (r: Self)
        ensures
            r.spec_available() == initial,
    {
        CreditBalance { credits: initial }
    }

    /// Grants `amount` more credits and returns the new total, which stops at
    /// `u32::MAX`.
    pub fn add(&mut self, amount: u32) -> (r: u32)
        ensures
            r == saturating_credit_sum(old(self).spec_available(), amount as nat),
            final(self).spec_available() == r,
    {
        self.credits = self.credits.saturating_add(amount);
        self.credits
    }

    /// Spends one credit if there is one.
    pub fn try_consume(&mut self) -> (r: bool)
        ensures
            r == (old(self).spec_available() > 0),
            r ==> final(self).spec_available() == old(self).spec_available() - 1,
            !r ==> final(self).spec_available() == 0,
    {
        if self.credits == 0 {
            false
        } else {
            self.credits = self.credits - 1;
            true
        }
    }

    /// Spends up to `amount` credits and returns how many were spent: all of
    /// them if the balance allows, else the whole balance.
    pub fn try_consume_many(&mut self, amount: u32) -> (r: u32)
        ensures
            r == min_nat(old(self).spec_available(), amount as nat),
            final(self).spec_available() == old(self).spec_available() - r,
    {
        let taken: u32 = if self.credits < amount {
            self.credits
        } else {
            amount
        };
        self.credits = self.credits - taken;
        taken
    }

    /// The number of credits currently held.
    pub fn available(&self) -> (r: u32)
        ensures
            r == self.spec_available(),
    {
        self.credits
    }

    /// Drops every credit and returns how many there were.
    pub fn reset(&mut self) -> (r: u32)
        ensures
            r == old(self).spec_available(),
            final(self).spec_available() == 0,
    {
        let prior = self.credits;
        self.credits = 0;
        prior
    }
}

impl Default for CreditBalance {
    fn default() -> (r: Self)
        ensures
            r.spec_available() == 0,
    {
        CreditBalance::new()
    }
}

/// `a + b`, or `u32::MAX` where the sum would not fit in 32 bits.
pub open spec fn saturating_credit_sum(a: nat, b: nat) -> nat {
    if a + b > u32::MAX {
        u32::MAX as nat
    } else {
        a + b
    }
}

pub open spec fn min_nat(a: nat, b: nat) -> nat {
    if a < b {
        a
    } else {
        b
    }
}

/// A balance always lies between zero and `u32::MAX`, whatever sequence of
/// grants, spends and resets led to it.
pub proof fn lemma_credit_balance_in_range(b: &CreditBalance)
    ensures
        0 <= b.spec_available() <= u32::MAX,
{
}

} // verus!
