//! The ingress risk kernel: the hard gate every order passes before it
//! enters the pending buffer.
use vstd::prelude::*;
use crate::decimal::{saturated_product, Decimal, MAX_UNITS, UNITS_PER_ONE};
use crate::error::{OpenmatchError, Result};
use crate::ids::{EpochId, UserId};
use crate::order::{Order, OrderType};
use crate::supply::{amount_lookup, amount_of, keys_unique, put_amount};

verus! {

spec fn count_in(s: Seq<(UserId, usize)>, u: u128) -> nat
    decreases s.len(),
{
    if s.len() == 0 {
        0
    } else if s[0].0.0 == u {
        s[0].1 as nat
    } else {
        count_in(s.drop_first(), u)
    }
}

spec fn counts_unique(s: Seq<(UserId, usize)>) -> bool {
    forall|i: int, j: int| 0 <= i < s.len() && 0 <= j < s.len() && i != j ==> s[i].0.0 != s[j].0.0
}

proof fn lemma_count_at(s: Seq<(UserId, usize)>, i: int, u: u128)
    requires
        0 <= i < s.len(),
        counts_unique(s),
        s[i].0.0 == u,
    ensures
        count_in(s, u) == s[i].1 as nat,
    decreases s.len(),
{
    if i > 0 {
        assert(s.drop_first()[i - 1] == s[i]);
        lemma_count_at(s.drop_first(), i - 1, u);
    }
}

proof fn lemma_count_absent(s: Seq<(UserId, usize)>, u: u128)
    requires
        forall|i: int| 0 <= i < s.len() ==> (#[trigger] s[i]).0.0 != u,
    ensures
        count_in(s, u) == 0,
    decreases s.len(),
{
    if s.len() > 0 {
        assert(s[0].0.0 != u);
        assert forall|i: int| 0 <= i < s.drop_first().len() implies (#[trigger] s.drop_first()[i]).0.0 != u by {
            assert(s.drop_first()[i] == s[i + 1]);
        }
        lemma_count_absent(s.drop_first(), u);
    }
}

/// `p > min(d * l / 10^8, MAX)` is `p * 10^8 > d * l` for representable
/// non-negative `p`.
proof fn lemma_exceeds_product(p: int, d: int, l: int)
    requires
        0 <= p <= MAX_UNITS,
        d >= 0,
        l >= 0,
    ensures
        (p > saturated_product(d, l)) == (p * UNITS_PER_ONE > d * l),
{
    let s = UNITS_PER_ONE as int;
    let x = d * l;
    assert(x >= 0) by (nonlinear_arith)
        requires d >= 0, l >= 0, x == d * l;
    let q = x / s;
    assert(q * s <= x < (q + 1) * s) by (nonlinear_arith)
        requires s > 0, x >= 0, q == x / s;
    if p > q {
        assert(p * s >= (q + 1) * s) by (nonlinear_arith)
            requires p >= q + 1, s > 0;
    } else {
        assert(p * s <= q * s) by (nonlinear_arith)
            requires p <= q, s > 0;
    }
}

/// Whether `price` deviates from `last` by more than the factor `d`, all
/// in units: a positive `last` and either ratio above `d`.
pub open spec fn deviates(price: int, last: int, d: int) -> bool {
    last > 0 && (price * UNITS_PER_ONE > d * last || last * UNITS_PER_ONE > d * price)
}

/// What `validate` decides for `order`, given the user's count this epoch
/// and the market's last price.
pub open spec fn validation(order: Order, count: nat, last: int, max_count: usize, max_size: int, max_dev: int) -> Option<OpenmatchError> {
    if order.quantity@ <= 0 {
        Some(OpenmatchError::InvalidOrder { reason: arbitrary() })
    } else if order.order_type == OrderType::Cancel {
        None
    } else if order.quantity@ > max_size {
        Some(OpenmatchError::InvalidOrder { reason: arbitrary() })
    } else if order.order_type == OrderType::Limit && order.price is Some && order.price->0@ <= 0 {
        Some(OpenmatchError::SuspiciousPrice { reason: arbitrary() })
    } else if order.order_type == OrderType::Limit && order.price is Some && deviates(order.price->0@, last, max_dev) {
        Some(OpenmatchError::SuspiciousPrice { reason: arbitrary() })
    } else if count >= max_count {
        Some(OpenmatchError::OrderFloodDetected { count: count as usize, window_ms: 0 })
    } else {
        None
    }
}

pub struct RiskKernel {
    max_orders_per_user_per_epoch: usize,
    max_order_size: Decimal,
    max_price_deviation: Decimal,
    epoch_order_counts: Vec<(UserId, usize)>,
    current_epoch: EpochId,
    last_prices: Vec<(String, Decimal)>,
}

impl RiskKernel {
    /// Orders of `u` admitted this epoch.
    pub closed spec fn count_of(&self, u: u128) -> nat {
        count_in(self.epoch_order_counts@, u)
    }

    /// The last price of market `m` (its symbol), zero when unknown.
    pub closed spec fn last_price(&self, m: Seq<char>) -> int {
        amount_of(self.last_prices@, m)
    }

    pub closed spec fn max_count(&self) -> usize {
        self.max_orders_per_user_per_epoch
    }

    pub closed spec fn max_size(&self) -> Decimal {
        self.max_order_size
    }

    pub closed spec fn max_deviation(&self) -> Decimal {
        self.max_price_deviation
    }

    pub closed spec fn epoch(&self) -> EpochId {
        self.current_epoch
    }

    pub closed spec fn wf(&self) -> bool {
        &&& counts_unique(self.epoch_order_counts@)
        &&& keys_unique(self.last_prices@)
    }

    /// Limits of 50 orders per user and epoch, 100 units per order and a
    /// tenfold price deviation.
    pub fn new() -> (r: RiskKernel)
        ensures
            r.wf(),
            r.max_count() == 50,
            r.max_size()@ == 100 * UNITS_PER_ONE,
            r.max_deviation()@ == 10 * UNITS_PER_ONE,
            forall|u: u128| r.count_of(u) == 0,
            forall|m: Seq<char>| r.last_price(m) == 0,
    {
        RiskKernel::with_limits(50, Decimal::from_int(100), Decimal::from_int(10))
    }

    pub fn with_limits(max_orders_per_user_per_epoch: usize, max_order_size: Decimal, max_price_deviation: Decimal) -> (r: RiskKernel)
        ensures
            r.wf(),
            r.max_count() == max_orders_per_user_per_epoch,
            r.max_size() == max_order_size,
            r.max_deviation() == max_price_deviation,
            r.epoch() == EpochId(0),
            forall|u: u128| r.count_of(u) == 0,
            forall|m: Seq<char>| r.last_price(m) == 0,
    {
        RiskKernel {
            max_orders_per_user_per_epoch,
            max_order_size,
            max_price_deviation,
            epoch_order_counts: Vec::new(),
            current_epoch: EpochId(0),
            last_prices: Vec::new(),
        }
    }

    /// Moves to `epoch_id` and clears the per-user counts.
    pub fn advance_epoch(&mut self, epoch_id: EpochId)
        requires
            old(self).wf(),
        ensures
            final(self).wf(),
            final(self).epoch() == epoch_id,
            forall|u: u128| final(self).count_of(u) == 0,
            forall|m: Seq<char>| final(self).last_price(m) == old(self).last_price(m),
            final(self).max_count() == old(self).max_count(),
            final(self).max_size() == old(self).max_size(),
            final(self).max_deviation() == old(self).max_deviation(),
    {
        self.current_epoch = epoch_id;
        self.epoch_order_counts = Vec::new();
    }

    /// Records the last price of the market with symbol `market`.
    pub fn set_last_price(&mut self, market: &str, price: Decimal)
        requires
            old(self).wf(),
        ensures
            final(self).wf(),
            forall|m: Seq<char>| #[trigger] final(self).last_price(m) == if m == market@ { price@ } else { old(self).last_price(m) },
            forall|u: u128| final(self).count_of(u) == old(self).count_of(u),
            final(self).max_count() == old(self).max_count(),
            final(self).max_size() == old(self).max_size(),
            final(self).max_deviation() == old(self).max_deviation(),
            final(self).epoch() == old(self).epoch(),
    {
        let m = String::from_str(market);
        put_amount(&mut self.last_prices, &m, price);
    }

    fn find_user(&self, user: &UserId) -> (r: Option<usize>)
        requires
            self.wf(),
        ensures
            r matches Some(i) ==> i < self.epoch_order_counts@.len() && self.epoch_order_counts@[i as int].0.0 == user.0,
            r is None ==> forall|k: int| 0 <= k < self.epoch_order_counts@.len() ==> (#[trigger] self.epoch_order_counts@[k]).0.0 != user.0,
    {
        let mut i: usize = 0;
        while i < self.epoch_order_counts.len()
            invariant
                i <= self.epoch_order_counts@.len(),
                forall|k: int| 0 <= k < i ==> (#[trigger] self.epoch_order_counts@[k]).0.0 != user.0,
            decreases self.epoch_order_counts@.len() - i,
        {
            if self.epoch_order_counts[i].0.0 == user.0 {
                return Some(i);
            }
            i = i + 1;
        }
        None
    }

    /// Orders of `user_id` admitted this epoch.
    pub fn user_order_count(&self, user_id: &UserId) -> (r: usize)
        requires
            self.wf(),
        ensures
            r == self.count_of(user_id.0),
    {
        match self.find_user(user_id) {
            Some(i) => {
                proof { lemma_count_at(self.epoch_order_counts@, i as int, user_id.0); }
                self.epoch_order_counts[i].1
            },
            None => {
                proof { lemma_count_absent(self.epoch_order_counts@, user_id.0); }
                0
            },
        }
    }

    /// Rejects `price` when it deviates from the market's last price by
    /// more than the allowed factor.
    fn check_price_deviation(&self, market: &String, price: Decimal) -> (r: Result<()>)
        requires
            self.wf(),
            price@ > 0,
        ensures
            r is Ok <==> !deviates(price@, self.last_price(market@), self.max_deviation()@),
            r is Err ==> r matches Err(OpenmatchError::SuspiciousPrice { .. }),
    {
        let last = amount_lookup(&self.last_prices, market);
        if last.units <= 0 {
            return Ok(());
        }
        let d = self.max_price_deviation;
        if d.units < 0 {
            assert(price@ * UNITS_PER_ONE > d@ * last@) by (nonlinear_arith)
                requires price@ > 0, last@ > 0, d@ < 0;
            return Err(OpenmatchError::SuspiciousPrice { reason: String::from_str("Price deviates too far from the last price") });
        }
        let upper = d.saturating_mul(last);
        let lower = d.saturating_mul(price);
        proof {
            lemma_exceeds_product(price@, d@, last@);
            lemma_exceeds_product(last@, d@, price@);
        }
        if price.units > upper.units || last.units > lower.units {
            return Err(OpenmatchError::SuspiciousPrice { reason: String::from_str("Price deviates too far from the last price") });
        }
        Ok(())
    }

    /// Admits or rejects `order`: a non-positive quantity is invalid; a
    /// cancel passes; an oversized order is invalid; a limit price must be
    /// positive and within the deviation of the market's last price; a user
    /// at the per-epoch cap is flooding. An admitted non-cancel order counts
    /// against its user.
    pub fn validate(&mut self, order: &Order) -> (r: Result<()>)
        requires
            old(self).wf(),
        ensures
            final(self).wf(),
            final(self).max_count() == old(self).max_count(),
            final(self).max_size() == old(self).max_size(),
            final(self).max_deviation() == old(self).max_deviation(),
            final(self).epoch() == old(self).epoch(),
            forall|m: Seq<char>| final(self).last_price(m) == old(self).last_price(m),
            ({
                let v = validation(
                    *order,
                    old(self).count_of(order.user_id.0),
                    old(self).last_price(order.market.base@ + seq!['/'] + order.market.quote@),
                    old(self).max_count(),
                    old(self).max_size()@,
                    old(self).max_deviation()@,
                );
                &&& (r is Ok <==> v is None)
                &&& (v matches Some(OpenmatchError::InvalidOrder { .. })) ==> (r matches Err(OpenmatchError::InvalidOrder { .. }))
                &&& (v matches Some(OpenmatchError::SuspiciousPrice { .. })) ==> (r matches Err(OpenmatchError::SuspiciousPrice { .. }))
                &&& (v matches Some(OpenmatchError::OrderFloodDetected { .. })) ==> r == Err::<(), OpenmatchError>(v->0)
            }),
            r is Ok && order.order_type != OrderType::Cancel ==> final(self).count_of(order.user_id.0) == old(self).count_of(order.user_id.0) + 1,
            forall|u: u128| u != order.user_id.0 || !(r is Ok && order.order_type != OrderType::Cancel) ==> final(self).count_of(u) == old(self).count_of(u),
    {
        if order.quantity.units <= 0 {
            return Err(OpenmatchError::InvalidOrder { reason: String::from_str("Quantity must be positive") });
        }
        if order.order_type == OrderType::Cancel {
            return Ok(());
        }
        if order.quantity.units > self.max_order_size.units {
            return Err(OpenmatchError::InvalidOrder { reason: String::from_str("Order size exceeds the maximum") });
        }
        if order.order_type == OrderType::Limit {
            if let Some(price) = order.price {
                if price.units <= 0 {
                    return Err(OpenmatchError::SuspiciousPrice { reason: String::from_str("Price must be positive") });
                }
                let symbol = order.market.symbol();
                match self.check_price_deviation(&symbol, price) {
                    Ok(()) => {},
                    Err(e) => {
                        return Err(e);
                    },
                }
            }
        }
        let ghost s0 = self.epoch_order_counts@;
        match self.find_user(&order.user_id) {
            Some(i) => {
                proof { lemma_count_at(s0, i as int, order.user_id.0); }
                let count = self.epoch_order_counts[i].1;
                if count >= self.max_orders_per_user_per_epoch {
                    return Err(OpenmatchError::OrderFloodDetected { count, window_ms: 0 });
                }
                self.epoch_order_counts.set(i, (order.user_id, count + 1));
                proof {
                    lemma_count_at(self.epoch_order_counts@, i as int, order.user_id.0);
                    assert forall|u: u128| u != order.user_id.0 implies count_in(self.epoch_order_counts@, u) == count_in(s0, u) by {
                        if exists|k: int| 0 <= k < s0.len() && s0[k].0.0 == u {
                            let k = choose|k: int| 0 <= k < s0.len() && s0[k].0.0 == u;
                            lemma_count_at(s0, k, u);
                            lemma_count_at(self.epoch_order_counts@, k, u);
                        } else {
                            lemma_count_absent(s0, u);
                            assert forall|k: int| 0 <= k < self.epoch_order_counts@.len() implies (#[trigger] self.epoch_order_counts@[k]).0.0 != u by {
                                if k != i { assert(self.epoch_order_counts@[k] == s0[k]); }
                            }
                            lemma_count_absent(self.epoch_order_counts@, u);
                        }
                    }
                }
            },
            None => {
                proof { lemma_count_absent(s0, order.user_id.0); }
                if self.max_orders_per_user_per_epoch == 0 {
                    return Err(OpenmatchError::OrderFloodDetected { count: 0, window_ms: 0 });
                }
                self.epoch_order_counts.push((order.user_id, 1));
                proof {
                    lemma_count_at(self.epoch_order_counts@, s0.len() as int, order.user_id.0);
                    assert forall|u: u128| u != order.user_id.0 implies count_in(self.epoch_order_counts@, u) == count_in(s0, u) by {
                        if exists|k: int| 0 <= k < s0.len() && s0[k].0.0 == u {
                            let k = choose|k: int| 0 <= k < s0.len() && s0[k].0.0 == u;
                            lemma_count_at(s0, k, u);
                            lemma_count_at(self.epoch_order_counts@, k, u);
                        } else {
                            lemma_count_absent(s0, u);
                            assert forall|k: int| 0 <= k < self.epoch_order_counts@.len() implies (#[trigger] self.epoch_order_counts@[k]).0.0 != u by {
                                if k < s0.len() { assert(self.epoch_order_counts@[k] == s0[k]); }
                            }
                            lemma_count_absent(self.epoch_order_counts@, u);
                        }
                    }
                }
            },
        }
        Ok(())
    }
}

} // verus!
