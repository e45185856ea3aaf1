//! Per-(user, asset) balance entries.
use vstd::prelude::*;
use crate::decimal::Decimal;

verus! {

/// Funds of one user in one asset: `available` can be spent or withdrawn,
/// `frozen` is locked by open orders.
#[derive(Clone, Copy, Debug, PartialEq, Eq, Structural)]
pub struct BalanceEntry {
    pub available: Decimal,
    pub frozen: Decimal,
}

/// The empty entry.
pub open spec fn zero_entry() -> BalanceEntry {
    BalanceEntry { available: Decimal { units: 0 }, frozen: Decimal { units: 0 } }
}

impl BalanceEntry {
    pub fn new() -> (r: BalanceEntry)
        ensures
            r == zero_entry(),
    {
        BalanceEntry { available: Decimal::zero(), frozen: Decimal::zero() }
    }

    /// `available + frozen`.
    pub fn total(&self) -> (r: Decimal)
        requires
            i128::MIN <= self.available@ + self.frozen@ <= i128::MAX,
        ensures
            r@ == self.available@ + self.frozen@,
    {
        Decimal::from_units(self.available.units + self.frozen.units)
    }

    pub fn is_zero(&self) -> (r: bool)
        ensures
            r == (self.available@ == 0 && self.frozen@ == 0),
    {
        self.available.is_zero() && self.frozen.is_zero()
    }
}

impl Default for BalanceEntry {
    fn default() -> (r: BalanceEntry)
        ensures
            r == zero_entry(),
    {
        BalanceEntry::new()
    }
}

} // verus!
