//! The uniform clearing price of a batch auction.
//!
//! At a candidate price `p`, demand is the remaining quantity of buys that
//! pay at least `p` and supply that of sells that ask at most `p`. The
//! clearing price maximises `min(demand, supply)`; ties go to the smaller
//! imbalance `|demand - supply|`, then to the higher price.
use vstd::prelude::*;
use crate::decimal::{Decimal, MAX_UNITS};
use crate::order::{effective_price_of, Order};

verus! {

/// Outcome of the clearing computation.
#[derive(Clone, Copy, Debug, PartialEq, Eq, Structural)]
pub struct ClearingResult {
    /// The uniform clearing price.
    pub price: Decimal,
    /// `min(demand, supply)` at that price.
    pub volume: Decimal,
    /// Remaining quantity of the buys eligible at that price.
    pub demand: Decimal,
    /// Remaining quantity of the sells eligible at that price.
    pub supply: Decimal,
}

/// Remaining quantity of the buys in `s` that pay at least `p`.
pub open spec fn demand_at(s: Seq<Order>, p: int) -> int
    decreases s.len(),
{
    if s.len() == 0 {
        0
    } else {
        demand_at(s.drop_last(), p) + if effective_price_of(s.last()) >= p {
            s.last().remaining_qty@
        } else {
            0
        }
    }
}

/// Remaining quantity of the sells in `s` that ask at most `p`.
pub open spec fn supply_at(s: Seq<Order>, p: int) -> int
    decreases s.len(),
{
    if s.len() == 0 {
        0
    } else {
        supply_at(s.drop_last(), p) + if effective_price_of(s.last()) <= p {
            s.last().remaining_qty@
        } else {
            0
        }
    }
}

/// Total remaining quantity of `s`.
pub open spec fn remaining_total(s: Seq<Order>) -> int
    decreases s.len(),
{
    if s.len() == 0 {
        0
    } else {
        remaining_total(s.drop_last()) + s.last().remaining_qty@
    }
}

/// No order of `s` has a negative remaining quantity.
pub open spec fn remaining_nonneg(s: Seq<Order>) -> bool {
    forall|i: int| 0 <= i < s.len() ==> (#[trigger] s[i]).remaining_qty@ >= 0
}

/// Inputs the solver accepts: non-negative remaining quantities whose
/// totals per side are representable.
pub open spec fn solvable(buys: Seq<Order>, sells: Seq<Order>) -> bool {
    &&& remaining_nonneg(buys)
    &&& remaining_nonneg(sells)
    &&& remaining_total(buys) <= i128::MAX
    &&& remaining_total(sells) <= i128::MAX
}

/// `min(demand, supply)` at `p`.
pub open spec fn matchable_at(buys: Seq<Order>, sells: Seq<Order>, p: int) -> int {
    let d = demand_at(buys, p);
    let s = supply_at(sells, p);
    if d <= s {
        d
    } else {
        s
    }
}

/// `|demand - supply|` at `p`.
pub open spec fn imbalance_at(buys: Seq<Order>, sells: Seq<Order>, p: int) -> int {
    let d = demand_at(buys, p);
    let s = supply_at(sells, p);
    if d >= s {
        d - s
    } else {
        s - d
    }
}

/// `p` is the effective price of some order and not the market-buy
/// sentinel.
pub open spec fn is_candidate(buys: Seq<Order>, sells: Seq<Order>, p: int) -> bool {
    &&& p != MAX_UNITS
    &&& (exists|i: int| 0 <= i < buys.len() && effective_price_of(#[trigger] buys[i]) == p)
        || (exists|i: int| 0 <= i < sells.len() && effective_price_of(#[trigger] sells[i]) == p)
}

/// `p` is strictly preferred to `q`: more volume, or equal volume and a
/// smaller imbalance, or equal both and a higher price.
pub open spec fn beats(buys: Seq<Order>, sells: Seq<Order>, p: int, q: int) -> bool {
    let mp = matchable_at(buys, sells, p);
    let mq = matchable_at(buys, sells, q);
    let ip = imbalance_at(buys, sells, p);
    let iq = imbalance_at(buys, sells, q);
    mp > mq || (mp == mq && (ip < iq || (ip == iq && p > q)))
}

/// `p` is a candidate with positive volume that beats every other such
/// candidate.
pub open spec fn is_clearing_price(buys: Seq<Order>, sells: Seq<Order>, p: int) -> bool {
    &&& is_candidate(buys, sells, p)
    &&& matchable_at(buys, sells, p) > 0
    &&& forall|q: int|
        #![trigger is_candidate(buys, sells, q)]
        is_candidate(buys, sells, q) && matchable_at(buys, sells, q) > 0 && q != p ==> beats(
            buys,
            sells,
            p,
            q,
        )
}

/// The clearing price is a function of the two sides alone: at most one
/// price satisfies `is_clearing_price`.
pub proof fn lemma_clearing_price_unique(buys: Seq<Order>, sells: Seq<Order>, p: int, q: int)
    requires
        is_clearing_price(buys, sells, p),
        is_clearing_price(buys, sells, q),
    ensures
        p == q,
{
    if p != q {
        assert(is_candidate(buys, sells, q));
        assert(is_candidate(buys, sells, p));
        assert(beats(buys, sells, p, q));
        assert(beats(buys, sells, q, p));
    }
}

/// Some candidate price has positive volume.
pub open spec fn crosses(buys: Seq<Order>, sells: Seq<Order>) -> bool {
    exists|p: int| #[trigger] is_candidate(buys, sells, p) && matchable_at(buys, sells, p) > 0
}

/// The result describes price `r.price` exactly.
pub open spec fn describes(buys: Seq<Order>, sells: Seq<Order>, r: ClearingResult) -> bool {
    &&& r.demand@ == demand_at(buys, r.price@)
    &&& r.supply@ == supply_at(sells, r.price@)
    &&& r.volume@ == matchable_at(buys, sells, r.price@)
}

proof fn lemma_demand_bounds(s: Seq<Order>, p: int)
    requires
        remaining_nonneg(s),
    ensures
        0 <= demand_at(s, p) <= remaining_total(s),
        0 <= supply_at(s, p) <= remaining_total(s),
    decreases s.len(),
{
    if s.len() > 0 {
        assert(s.last() == s[s.len() - 1]);
        lemma_demand_bounds(s.drop_last(), p);
    }
}

pub proof fn lemma_prefix_bounds(s: Seq<Order>, i: int)
    requires
        remaining_nonneg(s),
        0 <= i <= s.len(),
    ensures
        0 <= remaining_total(s.take(i)) <= remaining_total(s),
    decreases s.len() - i,
{
    if i < s.len() {
        lemma_prefix_bounds(s, i + 1);
        assert(s.take(i + 1).drop_last() =~= s.take(i));
    } else {
        assert(s.take(i) =~= s);
    }
    lemma_nonneg_total(s.take(i));
}

/// Remaining totals of non-negative orders are non-negative.
pub proof fn lemma_nonneg_total_pub(s: Seq<Order>)
    requires
        remaining_nonneg(s),
    ensures
        remaining_total(s) >= 0,
        s.len() > 0 ==> remaining_nonneg(s.drop_last()),
        s.len() > 0 ==> s.last().remaining_qty@ >= 0,
{
    lemma_nonneg_total(s);
    if s.len() > 0 {
        assert(s.last() == s[s.len() - 1]);
        assert forall|i: int| 0 <= i < s.drop_last().len() implies (#[trigger] s.drop_last()[i]).remaining_qty@ >= 0 by {
            assert(s.drop_last()[i] == s[i]);
        }
    }
}

proof fn lemma_nonneg_total(s: Seq<Order>)
    requires
        remaining_nonneg(s),
    ensures
        remaining_total(s) >= 0,
    decreases s.len(),
{
    if s.len() > 0 {
        lemma_nonneg_total(s.drop_last());
    }
}

/// Demand at `p`, in units.
fn demand_exec(buys: &[Order], p: i128) -> (r: i128)
    requires
        remaining_nonneg(buys@),
        remaining_total(buys@) <= i128::MAX,
    ensures
        r == demand_at(buys@, p as int),
{
    let mut acc: i128 = 0;
    let mut i: usize = 0;
    while i < buys.len()
        invariant
            i <= buys@.len(),
            remaining_nonneg(buys@),
            remaining_total(buys@) <= i128::MAX,
            acc == demand_at(buys@.take(i as int), p as int),
        decreases buys@.len() - i,
    {
        proof {
            let t = buys@.take(i as int + 1);
            assert(t.drop_last() =~= buys@.take(i as int));
            assert(t.last() == buys@[i as int]);
            assert(remaining_nonneg(t));
            lemma_demand_bounds(t, p as int);
            lemma_prefix_bounds(buys@, i as int + 1);
        }
        if buys[i].effective_price().units >= p {
            acc = acc + buys[i].remaining_qty.units;
        }
        i = i + 1;
    }
    assert(buys@.take(i as int) =~= buys@);
    acc
}

/// Supply at `p`, in units.
fn supply_exec(sells: &[Order], p: i128) -> (r: i128)
    requires
        remaining_nonneg(sells@),
        remaining_total(sells@) <= i128::MAX,
    ensures
        r == supply_at(sells@, p as int),
{
    let mut acc: i128 = 0;
    let mut i: usize = 0;
    while i < sells.len()
        invariant
            i <= sells@.len(),
            remaining_nonneg(sells@),
            remaining_total(sells@) <= i128::MAX,
            acc == supply_at(sells@.take(i as int), p as int),
        decreases sells@.len() - i,
    {
        proof {
            let t = sells@.take(i as int + 1);
            assert(t.drop_last() =~= sells@.take(i as int));
            assert(t.last() == sells@[i as int]);
            assert(remaining_nonneg(t));
            lemma_demand_bounds(t, p as int);
            lemma_prefix_bounds(sells@, i as int + 1);
        }
        if sells[i].effective_price().units <= p {
            acc = acc + sells[i].remaining_qty.units;
        }
        i = i + 1;
    }
    assert(sells@.take(i as int) =~= sells@);
    acc
}

/// The best of `best` and the candidate `p`.
fn consider(buys: &[Order], sells: &[Order], p: i128, best: Option<ClearingResult>) -> (r: Option<
    ClearingResult,
>)
    requires
        solvable(buys@, sells@),
        best matches Some(b) ==> describes(buys@, sells@, b) && matchable_at(buys@, sells@, b.price@)
            > 0,
    ensures
        r matches Some(x) ==> describes(buys@, sells@, x) && matchable_at(buys@, sells@, x.price@)
            > 0,
        r matches Some(x) ==> (x.price@ == p as int && matchable_at(buys@, sells@, p as int) > 0)
            || best == r,
        best matches Some(b) ==> r is Some,
        // what was preferred stays preferred, and `p` is covered
        forall|q: int|
            #![trigger beats(buys@, sells@, r->0.price@, q)]
            (best matches Some(b) && (q == b.price@ || beats(buys@, sells@, b.price@, q))) ==> (
            r->0.price@ == q || beats(buys@, sells@, r->0.price@, q)),
        matchable_at(buys@, sells@, p as int) > 0 ==> r is Some && (r->0.price@ == p as int
            || beats(buys@, sells@, r->0.price@, p as int)),
        best is None && matchable_at(buys@, sells@, p as int) <= 0 ==> r is None,
{
    proof {
        lemma_demand_bounds(buys@, p as int);
        lemma_demand_bounds(sells@, p as int);
    }
    let d = demand_exec(buys, p);
    let s = supply_exec(sells, p);
    let m = if d <= s {
        d
    } else {
        s
    };
    if m == 0 {
        return best;
    }
    let imb = if d >= s {
        d - s
    } else {
        s - d
    };
    let cand = ClearingResult {
        price: Decimal::from_units(p),
        volume: Decimal::from_units(m),
        demand: Decimal::from_units(d),
        supply: Decimal::from_units(s),
    };
    match best {
        None => Some(cand),
        Some(cur) => {
            proof {
                lemma_demand_bounds(buys@, cur.price@);
                lemma_demand_bounds(sells@, cur.price@);
            }
            let cur_imb = if cur.demand.units >= cur.supply.units {
                cur.demand.units - cur.supply.units
            } else {
                cur.supply.units - cur.demand.units
            };
            let better = if m > cur.volume.units {
                true
            } else if m == cur.volume.units {
                if imb < cur_imb {
                    true
                } else if imb == cur_imb {
                    p > cur.price.units
                } else {
                    false
                }
            } else {
                false
            };
            if better {
                Some(cand)
            } else {
                best
            }
        },
    }
}

/// The uniform clearing price of `buys` against `sells`, or `None` when
/// either side is empty or no candidate price has positive volume.
pub fn compute_clearing_price(buys: &[Order], sells: &[Order]) -> (r: Option<ClearingResult>)
    requires
        solvable(buys@, sells@),
    ensures
        r is None <==> buys@.len() == 0 || sells@.len() == 0 || !crosses(buys@, sells@),
        r matches Some(x) ==> describes(buys@, sells@, x) && is_clearing_price(
            buys@,
            sells@,
            x.price@,
        ),
{
    if buys.len() == 0 || sells.len() == 0 {
        return None;
    }
    let mut best: Option<ClearingResult> = None;
    let mut i: usize = 0;
    while i < buys.len()
        invariant
            solvable(buys@, sells@),
            i <= buys@.len(),
            best matches Some(b) ==> describes(buys@, sells@, b) && matchable_at(buys@, sells@, b.price@) > 0
                && is_candidate(buys@, sells@, b.price@),
            forall|k: int|
                0 <= k < i && effective_price_of(#[trigger] buys@[k]) != MAX_UNITS
                    && matchable_at(buys@, sells@, effective_price_of(buys@[k])) > 0 ==> best is Some
                    && (best->0.price@ == effective_price_of(buys@[k]) || beats(
                    buys@,
                    sells@,
                    best->0.price@,
                    effective_price_of(buys@[k]),
                )),
        decreases buys@.len() - i,
    {
        let p = buys[i].effective_price().units;
        if p != MAX_UNITS {
            best = consider(buys, sells, p, best);
            proof {
                if let Some(b) = best {
                    if b.price@ == p as int {
                        assert(effective_price_of(buys@[i as int]) == p);
                    }
                }
            }
        }
        i = i + 1;
    }
    let mut j: usize = 0;
    while j < sells.len()
        invariant
            solvable(buys@, sells@),
            j <= sells@.len(),
            best matches Some(b) ==> describes(buys@, sells@, b) && matchable_at(buys@, sells@, b.price@) > 0
                && is_candidate(buys@, sells@, b.price@),
            forall|k: int|
                0 <= k < buys@.len() && effective_price_of(#[trigger] buys@[k]) != MAX_UNITS
                    && matchable_at(buys@, sells@, effective_price_of(buys@[k])) > 0 ==> best is Some
                    && (best->0.price@ == effective_price_of(buys@[k]) || beats(
                    buys@,
                    sells@,
                    best->0.price@,
                    effective_price_of(buys@[k]),
                )),
            forall|k: int|
                0 <= k < j && effective_price_of(#[trigger] sells@[k]) != MAX_UNITS
                    && matchable_at(buys@, sells@, effective_price_of(sells@[k])) > 0 ==> best is Some
                    && (best->0.price@ == effective_price_of(sells@[k]) || beats(
                    buys@,
                    sells@,
                    best->0.price@,
                    effective_price_of(sells@[k]),
                )),
        decreases sells@.len() - j,
    {
        let p = sells[j].effective_price().units;
        if p != MAX_UNITS {
            best = consider(buys, sells, p, best);
            proof {
                if let Some(b) = best {
                    if b.price@ == p as int {
                        assert(effective_price_of(sells@[j as int]) == p);
                    }
                }
            }
        }
        j = j + 1;
    }
    proof {
        if let Some(b) = best {
            assert forall|q: int|
                #![trigger is_candidate(buys@, sells@, q)]
                is_candidate(buys@, sells@, q) && matchable_at(buys@, sells@, q) > 0 && q != b.price@
                    implies beats(buys@, sells@, b.price@, q) by {
                if exists|k: int| 0 <= k < buys@.len() && effective_price_of(#[trigger] buys@[k]) == q {
                    let k = choose|k: int| 0 <= k < buys@.len() && effective_price_of(#[trigger] buys@[k]) == q;
                    assert(effective_price_of(buys@[k]) == q);
                } else {
                    let k = choose|k: int| 0 <= k < sells@.len() && effective_price_of(#[trigger] sells@[k]) == q;
                    assert(effective_price_of(sells@[k]) == q);
                }
            }
        } else {
            assert forall|q: int| #[trigger] is_candidate(buys@, sells@, q) implies matchable_at(buys@, sells@, q) <= 0 by {
                if exists|k: int| 0 <= k < buys@.len() && effective_price_of(#[trigger] buys@[k]) == q {
                    let k = choose|k: int| 0 <= k < buys@.len() && effective_price_of(#[trigger] buys@[k]) == q;
                    assert(effective_price_of(buys@[k]) == q);
                } else {
                    let k = choose|k: int| 0 <= k < sells@.len() && effective_price_of(#[trigger] sells@[k]) == q;
                    assert(effective_price_of(sells@[k]) == q);
                }
            }
        }
    }
    best
}

} // verus!
