//! Weighted sums over sequences of orders, and their invariance under
//! reordering.
use vstd::prelude::*;
use crate::clearing::{demand_at, remaining_total, supply_at};
use crate::order::{effective_price_of, Order};

verus! {

broadcast use vstd::seq_lib::group_to_multiset_ensures, vstd::multiset::group_multiset_axioms;

/// `Σ w(o)` over the orders of `s`.
pub open spec fn wsum(s: Seq<Order>, w: spec_fn(Order) -> int) -> int
    decreases s.len(),
{
    if s.len() == 0 {
        0
    } else {
        wsum(s.drop_last(), w) + w(s.last())
    }
}

pub proof fn lemma_wsum_remove(s: Seq<Order>, k: int, w: spec_fn(Order) -> int)
    requires
        0 <= k < s.len(),
    ensures
        wsum(s, w) == wsum(s.remove(k), w) + w(s[k]),
    decreases s.len(),
{
    if k == s.len() - 1 {
        assert(s.remove(k) =~= s.drop_last());
    } else {
        lemma_wsum_remove(s.drop_last(), k, w);
        assert(s.remove(k).drop_last() =~= s.drop_last().remove(k));
        assert(s.remove(k).last() == s.last());
    }
}

pub proof fn lemma_wsum_update(s: Seq<Order>, k: int, x: Order, w: spec_fn(Order) -> int)
    requires
        0 <= k < s.len(),
    ensures
        wsum(s.update(k, x), w) == wsum(s, w) - w(s[k]) + w(x),
    decreases s.len(),
{
    if k == s.len() - 1 {
        assert(s.update(k, x).drop_last() =~= s.drop_last());
    } else {
        lemma_wsum_update(s.drop_last(), k, x, w);
        assert(s.update(k, x).drop_last() =~= s.drop_last().update(k, x));
    }
}

/// A sum of non-negative weights is non-negative.
pub proof fn lemma_wsum_nonneg(s: Seq<Order>, w: spec_fn(Order) -> int)
    requires
        forall|i: int| 0 <= i < s.len() ==> w(#[trigger] s[i]) >= 0,
    ensures
        wsum(s, w) >= 0,
    decreases s.len(),
{
    if s.len() > 0 {
        assert(w(s[s.len() - 1]) >= 0);
        lemma_wsum_nonneg(s.drop_last(), w);
    }
}

/// Reordering does not change a weighted sum.
pub proof fn lemma_wsum_perm(s1: Seq<Order>, s2: Seq<Order>, w: spec_fn(Order) -> int)
    requires
        s1.to_multiset() == s2.to_multiset(),
    ensures
        wsum(s1, w) == wsum(s2, w),
    decreases s1.len(),
{
    if s1.len() == 0 {
        assert(s2.to_multiset().len() == 0);
    } else {
        let x = s1.last();
        assert(s1 =~= s1.drop_last().push(x));
        assert(s1.to_multiset() =~= s1.drop_last().to_multiset().insert(x));
        assert(s2.to_multiset().count(x) > 0);
        assert(s2.contains(x));
        let k = choose|k: int| 0 <= k < s2.len() && s2[k] == x;
        assert(s2.remove(k).to_multiset() =~= s2.to_multiset().remove(x));
        assert(s2.remove(k).to_multiset() =~= s1.drop_last().to_multiset());
        lemma_wsum_perm(s1.drop_last(), s2.remove(k), w);
        lemma_wsum_remove(s2, k, w);
    }
}

/// Weight of an order in the demand at `p`.
pub open spec fn demand_weight(p: int) -> spec_fn(Order) -> int {
    |o: Order| if effective_price_of(o) >= p { o.remaining_qty@ } else { 0 }
}

/// Weight of an order in the supply at `p`.
pub open spec fn supply_weight(p: int) -> spec_fn(Order) -> int {
    |o: Order| if effective_price_of(o) <= p { o.remaining_qty@ } else { 0 }
}

/// Weight of an order in the remaining total.
pub open spec fn remaining_weight() -> spec_fn(Order) -> int {
    |o: Order| o.remaining_qty@
}

pub proof fn lemma_sums_as_wsum(s: Seq<Order>, p: int)
    ensures
        demand_at(s, p) == wsum(s, demand_weight(p)),
        supply_at(s, p) == wsum(s, supply_weight(p)),
        remaining_total(s) == wsum(s, remaining_weight()),
    decreases s.len(),
{
    if s.len() > 0 {
        lemma_sums_as_wsum(s.drop_last(), p);
    }
}

/// Demand, supply and remaining totals do not depend on the order of the
/// orders.
pub proof fn lemma_sums_perm(s1: Seq<Order>, s2: Seq<Order>, p: int)
    requires
        s1.to_multiset() == s2.to_multiset(),
    ensures
        demand_at(s1, p) == demand_at(s2, p),
        supply_at(s1, p) == supply_at(s2, p),
        remaining_total(s1) == remaining_total(s2),
{
    lemma_sums_as_wsum(s1, p);
    lemma_sums_as_wsum(s2, p);
    lemma_wsum_perm(s1, s2, demand_weight(p));
    lemma_wsum_perm(s1, s2, supply_weight(p));
    lemma_wsum_perm(s1, s2, remaining_weight());
}

/// Every order of `s2` occurs in `s1` when their multisets agree.
pub proof fn lemma_perm_members(s1: Seq<Order>, s2: Seq<Order>, i: int)
    requires
        s1.to_multiset() == s2.to_multiset(),
        0 <= i < s2.len(),
    ensures
        exists|j: int| 0 <= j < s1.len() && s1[j] == s2[i],
{
    assert(s2.contains(s2[i]));
    assert(s1.to_multiset().count(s2[i]) > 0);
    assert(s1.contains(s2[i]));
}

} // verus!
