//! Supply conservation: per-asset running totals of deposits and
//! withdrawals, checked against the balances actually held.
use vstd::prelude::*;
use crate::decimal::Decimal;
use crate::error::{OpenmatchError, Result};

verus! {

/// The amount listed for asset `a` (the first entry that names it), or
/// zero.
pub open spec fn amount_of(s: Seq<(String, Decimal)>, a: Seq<char>) -> int
    decreases s.len(),
{
    if s.len() == 0 {
        0
    } else if s[0].0@ == a {
        s[0].1@
    } else {
        amount_of(s.drop_first(), a)
    }
}

/// No asset is listed twice.
pub open spec fn keys_unique(s: Seq<(String, Decimal)>) -> bool {
    forall|i: int, j: int| 0 <= i < s.len() && 0 <= j < s.len() && i != j ==> s[i].0@ != s[j].0@
}

/// Every listed amount is non-negative.
pub open spec fn amounts_nonneg(s: Seq<(String, Decimal)>) -> bool {
    forall|i: int| 0 <= i < s.len() ==> (#[trigger] s[i]).1@ >= 0
}

pub proof fn lemma_amount_absent(s: Seq<(String, Decimal)>, a: Seq<char>)
    requires
        forall|i: int| 0 <= i < s.len() ==> (#[trigger] s[i]).0@ != a,
    ensures
        amount_of(s, a) == 0,
    decreases s.len(),
{
    if s.len() > 0 {
        assert(s[0].0@ != a);
        assert forall|i: int| 0 <= i < s.drop_first().len() implies (#[trigger] s.drop_first()[i]).0@ != a by {
            assert(s.drop_first()[i] == s[i + 1]);
        }
        lemma_amount_absent(s.drop_first(), a);
    }
}

pub proof fn lemma_amount_at(s: Seq<(String, Decimal)>, i: int, a: Seq<char>)
    requires
        0 <= i < s.len(),
        keys_unique(s),
        s[i].0@ == a,
    ensures
        amount_of(s, a) == s[i].1@,
    decreases s.len(),
{
    if i > 0 {
        assert(s[0].0@ != a);
        assert(s.drop_first()[i - 1] == s[i]);
        lemma_amount_at(s.drop_first(), i - 1, a);
    }
}

pub proof fn lemma_amount_nonneg(s: Seq<(String, Decimal)>, a: Seq<char>)
    requires
        amounts_nonneg(s),
    ensures
        0 <= amount_of(s, a) <= i128::MAX,
    decreases s.len(),
{
    if s.len() > 0 {
        assert(s[0].1@ >= 0);
        assert forall|i: int| 0 <= i < s.drop_first().len() implies (#[trigger] s.drop_first()[i]).1@ >= 0 by {
            assert(s.drop_first()[i] == s[i + 1]);
        }
        lemma_amount_nonneg(s.drop_first(), a);
    }
}

/// Position of asset `a` in `s`, if listed.
pub fn find_asset(s: &Vec<(String, Decimal)>, a: &String) -> (r: Option<usize>)
    ensures
        r matches Some(i) ==> i < s@.len() && s@[i as int].0@ == a@,
        r is None ==> forall|i: int| 0 <= i < s@.len() ==> (#[trigger] s@[i]).0@ != a@,
{
    let mut i: usize = 0;
    while i < s.len()
        invariant
            i <= s@.len(),
            forall|k: int| 0 <= k < i ==> (#[trigger] s@[k]).0@ != a@,
        decreases s@.len() - i,
    {
        if s[i].0 == *a {
            return Some(i);
        }
        i = i + 1;
    }
    None
}

/// Adds `amount` to the entry of `a`, creating it if needed.
pub fn add_amount(s: &mut Vec<(String, Decimal)>, a: &String, amount: Decimal)
    requires
        keys_unique(old(s)@),
        amounts_nonneg(old(s)@),
        amount@ >= 0,
        amount_of(old(s)@, a@) + amount@ <= i128::MAX,
    ensures
        keys_unique(final(s)@),
        amounts_nonneg(final(s)@),
        forall|b: Seq<char>| #[trigger] amount_of(final(s)@, b) == amount_of(old(s)@, b) + if b == a@ {
            amount@
        } else {
            0
        },
{
    let ghost s0 = s@;
    match find_asset(s, a) {
        Some(i) => {
            proof { lemma_amount_at(s0, i as int, a@); }
            let v = Decimal::from_units(s[i].1.units + amount.units);
            s.set(i, (a.clone(), v));
            proof {
                assert forall|b: Seq<char>| #[trigger] amount_of(s@, b) == amount_of(s0, b) + if b == a@ {
                    amount@
                } else {
                    0
                } by {
                    if b == a@ {
                        lemma_amount_at(s@, i as int, b);
                    } else if exists|k: int| 0 <= k < s0.len() && s0[k].0@ == b {
                        let k = choose|k: int| 0 <= k < s0.len() && s0[k].0@ == b;
                        lemma_amount_at(s0, k, b);
                        lemma_amount_at(s@, k, b);
                    } else {
                        lemma_amount_absent(s0, b);
                        assert forall|k: int| 0 <= k < s@.len() implies (#[trigger] s@[k]).0@ != b by {
                            if k != i {
                                assert(s@[k] == s0[k]);
                            }
                        }
                        lemma_amount_absent(s@, b);
                    }
                }
            }
        },
        None => {
            proof { lemma_amount_absent(s0, a@); }
            s.push((a.clone(), amount));
            proof {
                assert forall|b: Seq<char>| #[trigger] amount_of(s@, b) == amount_of(s0, b) + if b == a@ {
                    amount@
                } else {
                    0
                } by {
                    if b == a@ {
                        lemma_amount_at(s@, s0.len() as int, b);
                    } else if exists|k: int| 0 <= k < s0.len() && s0[k].0@ == b {
                        let k = choose|k: int| 0 <= k < s0.len() && s0[k].0@ == b;
                        lemma_amount_at(s0, k, b);
                        lemma_amount_at(s@, k, b);
                    } else {
                        lemma_amount_absent(s0, b);
                        assert forall|k: int| 0 <= k < s@.len() implies (#[trigger] s@[k]).0@ != b by {
                            if k < s0.len() {
                                assert(s@[k] == s0[k]);
                            }
                        }
                        lemma_amount_absent(s@, b);
                    }
                }
            }
        },
    }
}

/// Sets the entry of `a` to `amount`, creating it if needed.
pub fn put_amount(s: &mut Vec<(String, Decimal)>, a: &String, amount: Decimal)
    requires
        keys_unique(old(s)@),
    ensures
        keys_unique(final(s)@),
        forall|b: Seq<char>| #[trigger] amount_of(final(s)@, b) == if b == a@ {
            amount@
        } else {
            amount_of(old(s)@, b)
        },
{
    let ghost s0 = s@;
    match find_asset(s, a) {
        Some(i) => {
            s.set(i, (a.clone(), amount));
            proof {
                assert forall|b: Seq<char>| #[trigger] amount_of(s@, b) == if b == a@ { amount@ } else { amount_of(s0, b) } by {
                    if b == a@ {
                        lemma_amount_at(s@, i as int, b);
                    } else if exists|k: int| 0 <= k < s0.len() && s0[k].0@ == b {
                        let k = choose|k: int| 0 <= k < s0.len() && s0[k].0@ == b;
                        lemma_amount_at(s0, k, b);
                        lemma_amount_at(s@, k, b);
                    } else {
                        lemma_amount_absent(s0, b);
                        assert forall|k: int| 0 <= k < s@.len() implies (#[trigger] s@[k]).0@ != b by {
                            if k != i {
                                assert(s@[k] == s0[k]);
                            }
                        }
                        lemma_amount_absent(s@, b);
                    }
                }
            }
        },
        None => {
            s.push((a.clone(), amount));
            proof {
                assert forall|b: Seq<char>| #[trigger] amount_of(s@, b) == if b == a@ { amount@ } else { amount_of(s0, b) } by {
                    if b == a@ {
                        lemma_amount_at(s@, s0.len() as int, b);
                    } else if exists|k: int| 0 <= k < s0.len() && s0[k].0@ == b {
                        let k = choose|k: int| 0 <= k < s0.len() && s0[k].0@ == b;
                        lemma_amount_at(s0, k, b);
                        lemma_amount_at(s@, k, b);
                    } else {
                        lemma_amount_absent(s0, b);
                        assert forall|k: int| 0 <= k < s@.len() implies (#[trigger] s@[k]).0@ != b by {
                            if k < s0.len() {
                                assert(s@[k] == s0[k]);
                            }
                        }
                        lemma_amount_absent(s@, b);
                    }
                }
            }
        },
    }
}

/// The amount listed for `a`.
pub fn amount_lookup(s: &Vec<(String, Decimal)>, a: &String) -> (r: Decimal)
    requires
        keys_unique(s@),
    ensures
        r@ == amount_of(s@, a@),
{
    match find_asset(s, a) {
        Some(i) => {
            proof { lemma_amount_at(s@, i as int, a@); }
            s[i].1
        },
        None => {
            proof { lemma_amount_absent(s@, a@); }
            Decimal::zero()
        },
    }
}

/// The first amount listed for `a` in a list that may repeat assets.
fn first_amount(s: &Vec<(String, Decimal)>, a: &String) -> (r: Decimal)
    ensures
        r@ == amount_of(s@, a@),
{
    let mut i: usize = 0;
    assert(s@.skip(0) =~= s@);
    while i < s.len()
        invariant
            i <= s@.len(),
            amount_of(s@, a@) == amount_of(s@.skip(i as int), a@),
        decreases s@.len() - i,
    {
        if s[i].0 == *a {
            return s[i].1;
        }
        assert(s@.skip(i as int).drop_first() =~= s@.skip(i as int + 1));
        i = i + 1;
    }
    Decimal::zero()
}

/// The asset names of `s`.
pub open spec fn names_of(s: Seq<(String, Decimal)>) -> Seq<Seq<char>> {
    s.map_values(|e: (String, Decimal)| e.0@)
}

/// Some element of `v` reads `a`.
pub open spec fn listed(v: Seq<String>, a: Seq<char>) -> bool {
    exists|m: int| 0 <= m < v.len() && #[trigger] v[m]@ == a
}

/// Appends to `out` each asset of `s` that it does not hold yet.
fn collect_names(out: &mut Vec<String>, s: &Vec<(String, Decimal)>)
    requires
        forall|x: int, y: int| 0 <= x < old(out)@.len() && 0 <= y < old(out)@.len() && x != y ==> old(out)@[x]@ != old(out)@[y]@,
    ensures
        forall|x: int, y: int| 0 <= x < final(out)@.len() && 0 <= y < final(out)@.len() && x != y ==> final(out)@[x]@ != final(out)@[y]@,
        final(out)@.len() >= old(out)@.len(),
        forall|m: int| 0 <= m < old(out)@.len() ==> final(out)@[m] == old(out)@[m],
        forall|m: int| old(out)@.len() <= m < final(out)@.len() ==> names_of(s@).contains(#[trigger] final(out)@[m]@),
        forall|k: int| 0 <= k < s@.len() ==> listed(final(out)@, #[trigger] s@[k].0@),
{
    let ghost o0 = out@;
    let mut i: usize = 0;
    while i < s.len()
        invariant
            i <= s@.len(),
            forall|x: int, y: int| 0 <= x < out@.len() && 0 <= y < out@.len() && x != y ==> out@[x]@ != out@[y]@,
            out@.len() >= o0.len(),
            forall|m: int| 0 <= m < o0.len() ==> out@[m] == o0[m],
            forall|m: int| o0.len() <= m < out@.len() ==> names_of(s@).contains(#[trigger] out@[m]@),
            forall|k: int| 0 <= k < i ==> listed(out@, #[trigger] s@[k].0@),
        decreases s@.len() - i,
    {
        let name = &s[i].0;
        let mut j: usize = 0;
        let mut seen = false;
        while j < out.len()
            invariant
                j <= out@.len(),
                seen ==> listed(out@, name@),
                !seen ==> forall|m: int| 0 <= m < j ==> (#[trigger] out@[m])@ != name@,
            decreases out@.len() - j,
        {
            if out[j] == *name {
                seen = true;
            }
            j = j + 1;
        }
        let ghost before = out@;
        proof {
            assert(names_of(s@)[i as int] == name@);
        }
        if !seen {
            out.push(name.clone());
            proof {
                assert(out@[out@.len() - 1]@ == name@);
                assert forall|x: int, y: int| 0 <= x < out@.len() && 0 <= y < out@.len() && x != y implies out@[x]@ != out@[y]@ by {
                    if x < before.len() { assert(out@[x] == before[x]); }
                    if y < before.len() { assert(out@[y] == before[y]); }
                }
                assert forall|m: int| o0.len() <= m < out@.len() implies names_of(s@).contains(#[trigger] out@[m]@) by {
                    if m < before.len() { assert(out@[m] == before[m]); }
                }
                assert forall|k: int| 0 <= k < i + 1 implies listed(out@, #[trigger] s@[k].0@) by {
                    if k < i {
                        let m = choose|m: int| 0 <= m < before.len() && #[trigger] before[m]@ == s@[k].0@;
                        assert(out@[m] == before[m]);
                    } else {
                        assert(out@[out@.len() - 1]@ == s@[k].0@);
                    }
                }
            }
        }
        i = i + 1;
    }
}

/// Running totals of deposits and withdrawals per asset.
pub struct SupplyConservation {
    total_deposits: Vec<(String, Decimal)>,
    total_withdrawals: Vec<(String, Decimal)>,
}

impl SupplyConservation {
    /// Total deposited of asset `a`.
    pub closed spec fn deposited(&self, a: Seq<char>) -> int {
        amount_of(self.total_deposits@, a)
    }

    /// Total withdrawn of asset `a`.
    pub closed spec fn withdrawn(&self, a: Seq<char>) -> int {
        amount_of(self.total_withdrawals@, a)
    }

    /// Well-formedness: one non-negative total per asset.
    pub closed spec fn wf(&self) -> bool {
        &&& keys_unique(self.total_deposits@)
        &&& keys_unique(self.total_withdrawals@)
        &&& amounts_nonneg(self.total_deposits@)
        &&& amounts_nonneg(self.total_withdrawals@)
    }

    pub proof fn lemma_totals_nonneg(&self, a: Seq<char>)
        requires
            self.wf(),
        ensures
            0 <= self.deposited(a) <= i128::MAX,
            0 <= self.withdrawn(a) <= i128::MAX,
    {
        lemma_amount_nonneg(self.total_deposits@, a);
        lemma_amount_nonneg(self.total_withdrawals@, a);
    }

    pub fn new() -> (r: SupplyConservation)
        ensures
            r.wf(),
            forall|a: Seq<char>| r.deposited(a) == 0 && r.withdrawn(a) == 0,
    {
        SupplyConservation { total_deposits: Vec::new(), total_withdrawals: Vec::new() }
    }

    /// Adds `amount` to the deposits of `asset`.
    pub fn record_deposit(&mut self, asset: &str, amount: Decimal)
        requires
            old(self).wf(),
            amount@ >= 0,
            old(self).deposited(asset@) + amount@ <= i128::MAX,
        ensures
            final(self).wf(),
            forall|a: Seq<char>| #[trigger] final(self).deposited(a) == old(self).deposited(a) + if a == asset@ {
                amount@
            } else {
                0
            },
            forall|a: Seq<char>| #[trigger] final(self).withdrawn(a) == old(self).withdrawn(a),
    {
        let a = String::from_str(asset);
        add_amount(&mut self.total_deposits, &a, amount);
    }

    /// Adds `amount` to the withdrawals of `asset`.
    pub fn record_withdrawal(&mut self, asset: &str, amount: Decimal)
        requires
            old(self).wf(),
            amount@ >= 0,
            old(self).withdrawn(asset@) + amount@ <= i128::MAX,
        ensures
            final(self).wf(),
            forall|a: Seq<char>| #[trigger] final(self).withdrawn(a) == old(self).withdrawn(a) + if a == asset@ {
                amount@
            } else {
                0
            },
            forall|a: Seq<char>| #[trigger] final(self).deposited(a) == old(self).deposited(a),
    {
        let a = String::from_str(asset);
        add_amount(&mut self.total_withdrawals, &a, amount);
    }

    /// Total deposited of `asset`.
    pub fn total_deposits(&self, asset: &str) -> (r: Decimal)
        requires
            self.wf(),
        ensures
            r@ == self.deposited(asset@),
    {
        let a = String::from_str(asset);
        amount_lookup(&self.total_deposits, &a)
    }

    /// Total withdrawn of `asset`.
    pub fn total_withdrawals(&self, asset: &str) -> (r: Decimal)
        requires
            self.wf(),
        ensures
            r@ == self.withdrawn(asset@),
    {
        let a = String::from_str(asset);
        amount_lookup(&self.total_withdrawals, &a)
    }

    /// Deposits minus withdrawals of `asset`.
    pub fn expected_total(&self, asset: &str) -> (r: Decimal)
        requires
            self.wf(),
        ensures
            r@ == self.deposited(asset@) - self.withdrawn(asset@),
    {
        let a = String::from_str(asset);
        proof { self.lemma_totals_nonneg(asset@); }
        let d = amount_lookup(&self.total_deposits, &a);
        let w = amount_lookup(&self.total_withdrawals, &a);
        Decimal::from_units(d.units - w.units)
    }

    /// Whether `a` has a deposit or a withdrawal total.
    pub closed spec fn tracks(&self, a: Seq<char>) -> bool {
        (exists|i: int| 0 <= i < self.total_deposits@.len() && (#[trigger] self.total_deposits@[i]).0@ == a)
            || (exists|i: int| 0 <= i < self.total_withdrawals@.len() && (#[trigger] self.total_withdrawals@[i]).0@ == a)
    }

    /// Every asset with a deposit or withdrawal total, each once.
    pub fn tracked_assets(&self) -> (r: Vec<String>)
        ensures
            forall|i: int| 0 <= i < r@.len() ==> self.tracks(#[trigger] r@[i]@),
            forall|a: Seq<char>| self.tracks(a) ==> listed(r@, a),
            forall|i: int, j: int| 0 <= i < r@.len() && 0 <= j < r@.len() && i != j ==> r@[i]@ != r@[j]@,
    {
        let mut out: Vec<String> = Vec::new();
        collect_names(&mut out, &self.total_deposits);
        let ghost mid = out@;
        collect_names(&mut out, &self.total_withdrawals);
        proof {
            assert forall|a: Seq<char>| self.tracks(a) implies listed(out@, a) by {
                if exists|k: int| 0 <= k < self.total_deposits@.len() && (#[trigger] self.total_deposits@[k]).0@ == a {
                    let k = choose|k: int| 0 <= k < self.total_deposits@.len() && (#[trigger] self.total_deposits@[k]).0@ == a;
                    assert(listed(mid, self.total_deposits@[k].0@));
                    let m = choose|m: int| 0 <= m < mid.len() && #[trigger] mid[m]@ == a;
                    assert(out@[m] == mid[m]);
                } else {
                    let k = choose|k: int| 0 <= k < self.total_withdrawals@.len() && (#[trigger] self.total_withdrawals@[k]).0@ == a;
                    assert(listed(out@, self.total_withdrawals@[k].0@));
                }
            }
            assert forall|i: int| 0 <= i < out@.len() implies self.tracks(#[trigger] out@[i]@) by {
                let a = out@[i]@;
                if i < mid.len() {
                    assert(out@[i] == mid[i]);
                    assert(names_of(self.total_deposits@).contains(mid[i]@));
                    let k = choose|k: int| 0 <= k < names_of(self.total_deposits@).len() && #[trigger] names_of(self.total_deposits@)[k] == a;
                    assert(self.total_deposits@[k].0@ == a);
                } else {
                    assert(names_of(self.total_withdrawals@).contains(a));
                    let k = choose|k: int| 0 <= k < names_of(self.total_withdrawals@).len() && #[trigger] names_of(self.total_withdrawals@)[k] == a;
                    assert(self.total_withdrawals@[k].0@ == a);
                }
            }
        }
        out
    }

    /// Deposits minus withdrawals of `asset`.
    pub fn expected_supply(&self, asset: &str) -> (r: Decimal)
        requires
            self.wf(),
        ensures
            r@ == self.deposited(asset@) - self.withdrawn(asset@),
    {
        self.expected_total(asset)
    }

    /// Checks the balance held of one asset against its deposits minus
    /// withdrawals.
    pub fn verify_asset(&self, asset: &str, actual_supply: Decimal) -> (r: Result<()>)
        requires
            self.wf(),
        ensures
            r is Ok <==> actual_supply@ == self.deposited(asset@) - self.withdrawn(asset@),
            r is Err ==> r matches Err(OpenmatchError::SupplyInvariantViolation { .. }),
    {
        let expected = self.expected_total(asset);
        if expected.units != actual_supply.units {
            let a = String::from_str(asset);
            return Err(OpenmatchError::SupplyInvariantViolation { reason: self.mismatch_reason(&a) });
        }
        Ok(())
    }

    /// Checks `actual` (the balance held per asset; an asset not listed
    /// holds zero) against deposits minus withdrawals, for every asset.
    pub fn verify(&self, actual: &Vec<(String, Decimal)>) -> (r: Result<()>)
        requires
            self.wf(),
        ensures
            r is Ok <==> forall|a: Seq<char>| #[trigger] amount_of(actual@, a) == self.deposited(a) - self.withdrawn(a),
            r is Err ==> r matches Err(OpenmatchError::SupplyInvariantViolation { .. }),
    {
        let mut i: usize = 0;
        while i < self.total_deposits.len()
            invariant
                self.wf(),
                i <= self.total_deposits@.len(),
                forall|k: int| 0 <= k < i ==> amount_of(actual@, (#[trigger] self.total_deposits@[k]).0@) == self.deposited(self.total_deposits@[k].0@) - self.withdrawn(self.total_deposits@[k].0@),
            decreases self.total_deposits@.len() - i,
        {
            if !self.asset_balanced(&self.total_deposits[i].0, actual) {
                return Err(OpenmatchError::SupplyInvariantViolation { reason: self.mismatch_reason(&self.total_deposits[i].0) });
            }
            i = i + 1;
        }
        let mut j: usize = 0;
        while j < self.total_withdrawals.len()
            invariant
                self.wf(),
                j <= self.total_withdrawals@.len(),
                forall|k: int| 0 <= k < self.total_deposits@.len() ==> amount_of(actual@, (#[trigger] self.total_deposits@[k]).0@) == self.deposited(self.total_deposits@[k].0@) - self.withdrawn(self.total_deposits@[k].0@),
                forall|k: int| 0 <= k < j ==> amount_of(actual@, (#[trigger] self.total_withdrawals@[k]).0@) == self.deposited(self.total_withdrawals@[k].0@) - self.withdrawn(self.total_withdrawals@[k].0@),
            decreases self.total_withdrawals@.len() - j,
        {
            if !self.asset_balanced(&self.total_withdrawals[j].0, actual) {
                return Err(OpenmatchError::SupplyInvariantViolation { reason: self.mismatch_reason(&self.total_withdrawals[j].0) });
            }
            j = j + 1;
        }
        let mut m: usize = 0;
        while m < actual.len()
            invariant
                self.wf(),
                m <= actual@.len(),
                forall|k: int| 0 <= k < self.total_deposits@.len() ==> amount_of(actual@, (#[trigger] self.total_deposits@[k]).0@) == self.deposited(self.total_deposits@[k].0@) - self.withdrawn(self.total_deposits@[k].0@),
                forall|k: int| 0 <= k < self.total_withdrawals@.len() ==> amount_of(actual@, (#[trigger] self.total_withdrawals@[k]).0@) == self.deposited(self.total_withdrawals@[k].0@) - self.withdrawn(self.total_withdrawals@[k].0@),
                forall|k: int| 0 <= k < m ==> amount_of(actual@, (#[trigger] actual@[k]).0@) == self.deposited(actual@[k].0@) - self.withdrawn(actual@[k].0@),
            decreases actual@.len() - m,
        {
            if !self.asset_balanced(&actual[m].0, actual) {
                return Err(OpenmatchError::SupplyInvariantViolation { reason: self.mismatch_reason(&actual[m].0) });
            }
            m = m + 1;
        }
        proof {
            assert forall|a: Seq<char>| #[trigger] amount_of(actual@, a) == self.deposited(a) - self.withdrawn(a) by {
                if exists|k: int| 0 <= k < self.total_deposits@.len() && (#[trigger] self.total_deposits@[k]).0@ == a {
                    let k = choose|k: int| 0 <= k < self.total_deposits@.len() && (#[trigger] self.total_deposits@[k]).0@ == a;
                } else if exists|k: int| 0 <= k < self.total_withdrawals@.len() && (#[trigger] self.total_withdrawals@[k]).0@ == a {
                    let k = choose|k: int| 0 <= k < self.total_withdrawals@.len() && (#[trigger] self.total_withdrawals@[k]).0@ == a;
                } else if exists|k: int| 0 <= k < actual@.len() && (#[trigger] actual@[k]).0@ == a {
                    let k = choose|k: int| 0 <= k < actual@.len() && (#[trigger] actual@[k]).0@ == a;
                } else {
                    lemma_amount_absent(self.total_deposits@, a);
                    lemma_amount_absent(self.total_withdrawals@, a);
                    lemma_amount_absent(actual@, a);
                }
            }
        }
        Ok(())
    }

    /// Whether `actual` lists deposits minus withdrawals for `asset`.
    fn asset_balanced(&self, asset: &String, actual: &Vec<(String, Decimal)>) -> (r: bool)
        requires
            self.wf(),
        ensures
            r == (amount_of(actual@, asset@) == self.deposited(asset@) - self.withdrawn(asset@)),
    {
        proof { self.lemma_totals_nonneg(asset@); }
        let d = amount_lookup(&self.total_deposits, asset);
        let w = amount_lookup(&self.total_withdrawals, asset);
        let held = first_amount(actual, asset);
        held.units == d.units - w.units
    }

    fn mismatch_reason(&self, asset: &String) -> (r: String) {
        let mut s = String::from_str("Supply mismatch for asset ");
        s.append(asset.as_str());
        s
    }
}

} // verus!
