//! A per-market order book: price levels of resting orders, bids highest
//! first and asks lowest first, each level in time priority.
use vstd::prelude::*;
use vstd::multiset::Multiset;
use crate::clearing::{remaining_nonneg, remaining_total};
use crate::decimal::Decimal;
use crate::error::{OpenmatchError, Result};
use crate::ids::{MarketPair, OrderId};
use crate::order::{effective_price_of, Order, OrderSide};

verus! {

/// The orders resting at one price, oldest first.
#[derive(Clone, Debug)]
pub struct PriceLevel {
    pub price: Decimal,
    pub orders: Vec<Order>,
}

/// `i` is the first position of `s` holding order `id`.
pub open spec fn first_order_with(s: Seq<Order>, id: u128, i: int) -> bool {
    &&& 0 <= i < s.len()
    &&& s[i].id.0 == id
    &&& forall|j: int| 0 <= j < i ==> (#[trigger] s[j]).id.0 != id
}

impl PriceLevel {
    pub fn new(price: Decimal) -> (r: PriceLevel)
        ensures
            r.price == price,
            r.orders@ == Seq::<Order>::empty(),
    {
        PriceLevel { price, orders: Vec::new() }
    }

    pub fn push_back(&mut self, order: Order)
        ensures
            final(self).price == old(self).price,
            final(self).orders@ == old(self).orders@.push(order),
    {
        self.orders.push(order);
    }

    /// Removes and returns the oldest order.
    pub fn pop_front(&mut self) -> (r: Option<Order>)
        ensures
            final(self).price == old(self).price,
            old(self).orders@.len() == 0 ==> r is None && final(self).orders@ == old(self).orders@,
            old(self).orders@.len() > 0 ==> r == Some(old(self).orders@[0]) && final(self).orders@
                == old(self).orders@.drop_first(),
    {
        if self.orders.len() == 0 {
            return None;
        }
        let o = self.orders.remove(0);
        assert(self.orders@ =~= old(self).orders@.drop_first());
        Some(o)
    }

    /// The oldest order.
    pub fn front(&self) -> (r: Option<&Order>)
        ensures
            self.orders@.len() == 0 ==> r is None,
            self.orders@.len() > 0 ==> r == Some(&self.orders@[0]),
    {
        if self.orders.len() == 0 {
            None
        } else {
            Some(&self.orders[0])
        }
    }

    /// Sum of the remaining quantities.
    pub fn total_quantity(&self) -> (r: Decimal)
        requires
            remaining_nonneg(self.orders@),
            remaining_total(self.orders@) <= i128::MAX,
        ensures
            r@ == remaining_total(self.orders@),
    {
        let mut acc: i128 = 0;
        let mut i: usize = 0;
        while i < self.orders.len()
            invariant
                i <= self.orders@.len(),
                remaining_nonneg(self.orders@),
                remaining_total(self.orders@) <= i128::MAX,
                acc == remaining_total(self.orders@.take(i as int)),
            decreases self.orders@.len() - i,
        {
            proof {
                let t = self.orders@.take(i as int + 1);
                assert(t.drop_last() =~= self.orders@.take(i as int));
                assert(t.last() == self.orders@[i as int]);
                crate::clearing::lemma_prefix_bounds(self.orders@, i as int + 1);
                crate::clearing::lemma_prefix_bounds(self.orders@, i as int);
            }
            acc = acc + self.orders[i].remaining_qty.units;
            i = i + 1;
        }
        assert(self.orders@.take(i as int) =~= self.orders@);
        Decimal::from_units(acc)
    }

    /// Removes and returns the first order with `order_id`.
    pub fn remove_order(&mut self, order_id: &OrderId) -> (r: Option<Order>)
        ensures
            final(self).price == old(self).price,
            r is None ==> final(self).orders@ == old(self).orders@ && forall|j: int|
                0 <= j < old(self).orders@.len() ==> (#[trigger] old(self).orders@[j]).id.0 != order_id.0,
            r matches Some(o) ==> exists|i: int|
                first_order_with(old(self).orders@, order_id.0, i) && o == old(self).orders@[i]
                    && final(self).orders@ == old(self).orders@.remove(i),
    {
        let mut i: usize = 0;
        while i < self.orders.len()
            invariant
                i <= self.orders@.len(),
                self.orders@ == old(self).orders@,
                self.price == old(self).price,
                forall|j: int| 0 <= j < i ==> (#[trigger] self.orders@[j]).id.0 != order_id.0,
            decreases self.orders@.len() - i,
        {
            if self.orders[i].id.0 == order_id.0 {
                let o = self.orders.remove(i);
                assert(first_order_with(old(self).orders@, order_id.0, i as int));
                return Some(o);
            }
            i = i + 1;
        }
        None
    }

    /// Position of the first order with `order_id`.
    pub fn position_of(&self, order_id: &OrderId) -> (r: Option<usize>)
        ensures
            r matches Some(i) ==> first_order_with(self.orders@, order_id.0, i as int),
            r is None ==> forall|j: int| 0 <= j < self.orders@.len() ==> (#[trigger] self.orders@[j]).id.0 != order_id.0,
    {
        let mut i: usize = 0;
        while i < self.orders.len()
            invariant
                i <= self.orders@.len(),
                forall|j: int| 0 <= j < i ==> (#[trigger] self.orders@[j]).id.0 != order_id.0,
            decreases self.orders@.len() - i,
        {
            if self.orders[i].id.0 == order_id.0 {
                return Some(i);
            }
            i = i + 1;
        }
        None
    }

    pub fn is_empty(&self) -> (r: bool)
        ensures
            r == (self.orders@.len() == 0),
    {
        self.orders.len() == 0
    }

    pub fn len(&self) -> (r: usize)
        ensures
            r == self.orders@.len(),
    {
        self.orders.len()
    }
}

/// The orders of `levels`, level by level.
pub open spec fn flat(levels: Seq<PriceLevel>) -> Seq<Order>
    decreases levels.len(),
{
    if levels.len() == 0 {
        seq![]
    } else {
        flat(levels.drop_last()) + levels.last().orders@
    }
}

pub proof fn lemma_flat_concat(a: Seq<PriceLevel>, b: Seq<PriceLevel>)
    ensures
        flat(a + b) == flat(a) + flat(b),
    decreases b.len(),
{
    if b.len() == 0 {
        assert(a + b =~= a);
        assert(flat(a) + flat(b) =~= flat(a));
    } else {
        lemma_flat_concat(a, b.drop_last());
        assert((a + b).drop_last() =~= a + b.drop_last());
        assert((a + b).last() == b.last());
        assert(flat(a + b) =~= flat(a) + flat(b));
    }
}

/// `levels` around position `k`.
pub proof fn lemma_flat_split(levels: Seq<PriceLevel>, k: int)
    requires
        0 <= k < levels.len(),
    ensures
        flat(levels) == flat(levels.take(k)) + levels[k].orders@ + flat(levels.skip(k + 1)),
{
    assert(levels =~= levels.take(k) + seq![levels[k]] + levels.skip(k + 1));
    lemma_flat_concat(levels.take(k) + seq![levels[k]], levels.skip(k + 1));
    lemma_flat_concat(levels.take(k), seq![levels[k]]);
    assert(seq![levels[k]].drop_last() =~= Seq::<PriceLevel>::empty());
    reveal_with_fuel(flat, 2);
    assert(flat(seq![levels[k]]) =~= levels[k].orders@);
}

broadcast use vstd::seq_lib::group_to_multiset_ensures, vstd::multiset::group_multiset_axioms;

/// Whether a level at `level_price` comes before price `p`.
fn ahead_of(level_price: Decimal, p: Decimal, descending: bool) -> (r: bool)
    ensures
        r == if descending { level_price@ > p@ } else { level_price@ < p@ },
{
    if descending {
        level_price.units > p.units
    } else {
        level_price.units < p.units
    }
}

/// Where `order` goes in `levels`: every level before `k` comes ahead of
/// its price, and the level at `k`, if any, does not.
pub open spec fn slot_for(levels: Seq<PriceLevel>, k: int, p: int, descending: bool) -> bool {
    &&& 0 <= k <= levels.len()
    &&& forall|i: int| 0 <= i < k ==> if descending { (#[trigger] levels[i]).price@ > p } else { levels[i].price@ < p }
    &&& k < levels.len() ==> !(if descending { levels[k].price@ > p } else { levels[k].price@ < p })
}

/// Appends `order` to the existing level `k` of its price.
#[verifier::rlimit(60)]
fn push_onto_level(levels: &mut Vec<PriceLevel>, k: usize, order: Order, descending: bool)
    requires
        levels_ok(old(levels)@, descending, order.side),
        k < old(levels)@.len(),
        old(levels)@[k as int].price@ == effective_price_of(order),
    ensures
        levels_ok(final(levels)@, descending, order.side),
        flat(final(levels)@).to_multiset() == flat(old(levels)@).to_multiset().insert(order),
        flat(final(levels)@).len() == flat(old(levels)@).len() + 1,
{
    let ghost l0 = levels@;
    let mut lvl = PriceLevel { price: levels[k].price, orders: Vec::new() };
    core::mem::swap(&mut lvl.orders, &mut levels[k].orders);
    let ghost old_orders = lvl.orders@;
    assert(old_orders == l0[k as int].orders@);
    lvl.orders.push(order);
    let ghost newl = lvl;
    levels.set(k, lvl);
    proof {
        assert(levels@ =~= l0.update(k as int, newl));
        lemma_flat_split(l0, k as int);
        lemma_flat_split(levels@, k as int);
        assert(levels@.take(k as int) =~= l0.take(k as int));
        assert(levels@.skip(k as int + 1) =~= l0.skip(k as int + 1));
        let a = flat(l0.take(k as int));
        let b = flat(l0.skip(k as int + 1));
        vstd::seq_lib::lemma_multiset_commutative(a + old_orders, b);
        vstd::seq_lib::lemma_multiset_commutative(a, old_orders);
        vstd::seq_lib::lemma_multiset_commutative(a + old_orders.push(order), b);
        vstd::seq_lib::lemma_multiset_commutative(a, old_orders.push(order));
        assert(flat(levels@).to_multiset() =~= flat(l0).to_multiset().insert(order));
        assert forall|i: int, j: int| 0 <= i < levels@.len() && 0 <= j < levels@[i].orders@.len() implies (
            #[trigger] levels@[i].orders@[j]).side == order.side && effective_price_of(levels@[i].orders@[j])
            == levels@[i].price@ by {
            if i != k as int {
                assert(levels@[i] == l0[i]);
            } else if j < old_orders.len() {
                assert(levels@[i].orders@[j] == l0[i].orders@[j]);
            }
        }
        assert forall|i: int| 0 <= i < levels@.len() implies (#[trigger] levels@[i]).orders@.len() > 0 by {
            if i != k as int {
                assert(levels@[i] == l0[i]);
            }
        }
        assert forall|i: int, j: int| 0 <= i < j < levels@.len() implies (if descending {
            levels@[i].price@ > levels@[j].price@
        } else {
            levels@[i].price@ < levels@[j].price@
        }) by {
            assert(levels@[i].price == l0[i].price);
            assert(levels@[j].price == l0[j].price);
        }
    }
}

/// Opens a new level at `k` holding only `order`.
#[verifier::rlimit(60)]
fn open_level(levels: &mut Vec<PriceLevel>, k: usize, order: Order, descending: bool)
    requires
        levels_ok(old(levels)@, descending, order.side),
        slot_for(old(levels)@, k as int, effective_price_of(order), descending),
        k < old(levels)@.len() ==> old(levels)@[k as int].price@ != effective_price_of(order),
    ensures
        levels_ok(final(levels)@, descending, order.side),
        flat(final(levels)@).to_multiset() == flat(old(levels)@).to_multiset().insert(order),
        flat(final(levels)@).len() == flat(old(levels)@).len() + 1,
{
    let ghost l0 = levels@;
    let p = order.effective_price();
    let mut lvl = PriceLevel::new(p);
    lvl.orders.push(order);
    let ghost newl = lvl;
    levels.insert(k, lvl);
    proof {
        assert(levels@ =~= l0.insert(k as int, newl));
        lemma_flat_split(levels@, k as int);
        assert(levels@.take(k as int) =~= l0.take(k as int));
        assert(levels@.skip(k as int + 1) =~= l0.skip(k as int));
        assert(l0 =~= l0.take(k as int) + l0.skip(k as int));
        lemma_flat_concat(l0.take(k as int), l0.skip(k as int));
        let a = flat(l0.take(k as int));
        let b = flat(l0.skip(k as int));
        assert(newl.orders@ =~= seq![order]);
        vstd::seq_lib::lemma_multiset_commutative(a + seq![order], b);
        vstd::seq_lib::lemma_multiset_commutative(a, seq![order]);
        vstd::seq_lib::lemma_multiset_commutative(a, b);
        assert(flat(levels@).to_multiset() =~= flat(l0).to_multiset().insert(order));
        assert forall|i: int, j: int| 0 <= i < levels@.len() && 0 <= j < levels@[i].orders@.len() implies (
            #[trigger] levels@[i].orders@[j]).side == order.side && effective_price_of(levels@[i].orders@[j])
            == levels@[i].price@ by {
            if i < k as int {
                assert(levels@[i] == l0[i]);
            } else if i > k as int {
                assert(levels@[i] == l0[i - 1]);
            }
        }
        assert forall|i: int| 0 <= i < levels@.len() implies (#[trigger] levels@[i]).orders@.len() > 0 by {
            if i < k as int {
                assert(levels@[i] == l0[i]);
            } else if i > k as int {
                assert(levels@[i] == l0[i - 1]);
            }
        }
        assert forall|i: int, j: int| 0 <= i < j < levels@.len() implies (if descending {
            levels@[i].price@ > levels@[j].price@
        } else {
            levels@[i].price@ < levels@[j].price@
        }) by {
            if j < k as int {
                assert(levels@[i] == l0[i] && levels@[j] == l0[j]);
            } else if j == k as int {
                assert(levels@[i] == l0[i]);
            } else if i > k as int {
                assert(levels@[i] == l0[i - 1] && levels@[j] == l0[j - 1]);
            } else if i == k as int {
                assert(levels@[j] == l0[j - 1]);
                if j - 1 > k as int {
                    assert(if descending { l0[k as int].price@ > l0[j - 1].price@ } else { l0[k as int].price@ < l0[j - 1].price@ });
                }
            } else {
                assert(levels@[i] == l0[i] && levels@[j] == l0[j - 1]);
                if j - 1 > k as int {
                    assert(if descending { l0[k as int].price@ > l0[j - 1].price@ } else { l0[k as int].price@ < l0[j - 1].price@ });
                }
            }
        }
    }
}

/// Adds `order` to `levels` (sorted by `descending`), on the level of its
/// effective price, creating that level at its place if needed.
fn insert_into(levels: &mut Vec<PriceLevel>, order: Order, descending: bool)
    requires
        levels_ok(old(levels)@, descending, order.side),
    ensures
        levels_ok(final(levels)@, descending, order.side),
        flat(final(levels)@).to_multiset() == flat(old(levels)@).to_multiset().insert(order),
        flat(final(levels)@).len() == flat(old(levels)@).len() + 1,
{
    let p = order.effective_price();
    let ghost l0 = levels@;
    let mut k: usize = 0;
    while k < levels.len() && ahead_of(levels[k].price, p, descending)
        invariant
            levels@ == l0,
            k <= l0.len(),
            forall|i: int| 0 <= i < k ==> if descending { (#[trigger] l0[i]).price@ > p@ } else { l0[i].price@ < p@ },
        decreases l0.len() - k,
    {
        k = k + 1;
    }
    if k < levels.len() && levels[k].price.units == p.units {
        push_onto_level(levels, k, order, descending);
    } else {
        open_level(levels, k, order, descending);
    }
}

/// Takes the first order `id` out of `levels`, dropping its level if it
/// empties.
#[verifier::rlimit(80)]
fn remove_from(levels: &mut Vec<PriceLevel>, id: &OrderId, descending: bool, side: OrderSide) -> (r: Option<Order>)
    requires
        levels_ok(old(levels)@, descending, side),
    ensures
        levels_ok(final(levels)@, descending, side),
        r is None ==> final(levels)@ == old(levels)@ && !holds(old(levels)@, id.0),
        r matches Some(o) ==> o.id.0 == id.0 && flat(old(levels)@).contains(o)
            && flat(final(levels)@).to_multiset() == flat(old(levels)@).to_multiset().remove(o)
            && flat(final(levels)@).len() + 1 == flat(old(levels)@).len(),
{
    let ghost l0 = levels@;
    let mut k: usize = 0;
    while k < levels.len()
        invariant
            levels@ == l0,
            l0 == old(levels)@,
            levels_ok(l0, descending, side),
            k <= l0.len(),
            forall|i: int| 0 <= i < flat(l0.take(k as int)).len() ==> (#[trigger] flat(l0.take(k as int))[i]).id.0 != id.0,
        decreases l0.len() - k,
    {
        let ghost lk = levels@[k as int];
        match levels[k].position_of(id) {
            Some(pos) => {
                let ghost i = pos as int;
                let mut lvl = PriceLevel { price: levels[k].price, orders: Vec::new() };
                core::mem::swap(&mut lvl.orders, &mut levels[k].orders);
                let o = lvl.orders.remove(pos);
                let ghost lk1 = lvl;
                levels.set(k, lvl);
                proof {
                    assert(lk1.orders@ == lk.orders@.remove(i));
                    assert(levels@ == l0.update(k as int, lk1));
                    assert(lk1.price == lk.price);
                    lemma_flat_split(l0, k as int);
                    let pre = flat(l0.take(k as int));
                    assert(flat(l0)[pre.len() + i] == o);
                    assert(flat(l0).contains(o));
                    assert(flat(l0).to_multiset().count(o) > 0);
                    vstd::seq_lib::to_multiset_remove(lk.orders@, i);
                }
                if levels[k].orders.len() == 0 {
                    let ghost mid = levels@;
                    levels.remove(k);
                    proof {
                        assert(levels@ =~= l0.take(k as int) + l0.skip(k as int + 1));
                        lemma_flat_concat(l0.take(k as int), l0.skip(k as int + 1));
                        lemma_flat_split(l0, k as int);
                        assert(lk.orders@.len() == 1);
                        assert(lk.orders@ =~= seq![o]);
                        let a = flat(l0.take(k as int));
                        let b = flat(l0.skip(k as int + 1));
                        vstd::seq_lib::lemma_multiset_commutative(a + lk.orders@, b);
                        vstd::seq_lib::lemma_multiset_commutative(a, lk.orders@);
                        vstd::seq_lib::lemma_multiset_commutative(a, b);
                        assert(flat(levels@).to_multiset() =~= flat(l0).to_multiset().remove(o));
                        assert forall|x: int, y: int| 0 <= x < levels@.len() && 0 <= y < levels@[x].orders@.len() implies (
                            #[trigger] levels@[x].orders@[y]).side == side && effective_price_of(levels@[x].orders@[y])
                            == levels@[x].price@ by {
                            if x < k as int { assert(levels@[x] == l0[x]); } else { assert(levels@[x] == l0[x + 1]); }
                        }
                        assert forall|x: int| 0 <= x < levels@.len() implies (#[trigger] levels@[x]).orders@.len() > 0 by {
                            if x < k as int { assert(levels@[x] == l0[x]); } else { assert(levels@[x] == l0[x + 1]); }
                        }
                        assert forall|x: int, y: int| 0 <= x < y < levels@.len() implies (if descending {
                            levels@[x].price@ > levels@[y].price@
                        } else {
                            levels@[x].price@ < levels@[y].price@
                        }) by {
                            if y < k as int {
                                assert(levels@[x] == l0[x] && levels@[y] == l0[y]);
                            } else if x < k as int {
                                assert(levels@[x] == l0[x] && levels@[y] == l0[y + 1]);
                            } else {
                                assert(levels@[x] == l0[x + 1] && levels@[y] == l0[y + 1]);
                            }
                        }
                    }
                } else {
                    proof {
                        lemma_flat_split(levels@, k as int);
                        lemma_flat_split(l0, k as int);
                        assert(levels@.take(k as int) =~= l0.take(k as int));
                        assert(levels@.skip(k as int + 1) =~= l0.skip(k as int + 1));
                        let a = flat(l0.take(k as int));
                        let b = flat(l0.skip(k as int + 1));
                        vstd::seq_lib::lemma_multiset_commutative(a + lk.orders@, b);
                        vstd::seq_lib::lemma_multiset_commutative(a, lk.orders@);
                        vstd::seq_lib::lemma_multiset_commutative(a + lk1.orders@, b);
                        vstd::seq_lib::lemma_multiset_commutative(a, lk1.orders@);
                        assert(flat(levels@).to_multiset() =~= flat(l0).to_multiset().remove(o));
                        assert forall|x: int, y: int| 0 <= x < levels@.len() && 0 <= y < levels@[x].orders@.len() implies (
                            #[trigger] levels@[x].orders@[y]).side == side && effective_price_of(levels@[x].orders@[y])
                            == levels@[x].price@ by {
                            if x != k as int {
                                assert(levels@[x] == l0[x]);
                            } else if y < i {
                                assert(levels@[x].orders@[y] == lk.orders@[y]);
                            } else {
                                assert(levels@[x].orders@[y] == lk.orders@[y + 1]);
                            }
                        }
                        assert forall|x: int| 0 <= x < levels@.len() implies (#[trigger] levels@[x]).orders@.len() > 0 by {
                            if x != k as int { assert(levels@[x] == l0[x]); }
                        }
                        assert forall|x: int, y: int| 0 <= x < y < levels@.len() implies (if descending {
                            levels@[x].price@ > levels@[y].price@
                        } else {
                            levels@[x].price@ < levels@[y].price@
                        }) by {
                            assert(levels@[x].price == l0[x].price);
                            assert(levels@[y].price == l0[y].price);
                        }
                    }
                }
                proof {
                    assert(flat(levels@).to_multiset().len() == flat(levels@).len());
                    assert(flat(l0).to_multiset().len() == flat(l0).len());
                    assert(flat(levels@).to_multiset().len() + 1 == flat(l0).to_multiset().len());
                }
                return Some(o);
            },
            None => {
                proof {
                    let t = l0.take(k as int + 1);
                    assert(t.drop_last() =~= l0.take(k as int));
                    assert(t.last() == l0[k as int]);
                    assert forall|i: int| 0 <= i < flat(t).len() implies (#[trigger] flat(t)[i]).id.0 != id.0 by {
                        let pre = flat(l0.take(k as int));
                        if i >= pre.len() {
                            assert(flat(t)[i] == lk.orders@[i - pre.len()]);
                        } else {
                            assert(flat(t)[i] == pre[i]);
                        }
                    }
                }
            },
        }
        k = k + 1;
    }
    assert(l0.take(k as int) =~= l0);
    None
}

/// Order `id` rests in `levels`.
pub open spec fn holds(levels: Seq<PriceLevel>, id: u128) -> bool {
    exists|i: int| 0 <= i < flat(levels).len() && (#[trigger] flat(levels)[i]).id.0 == id
}

/// Prices strictly fall (`descending`) or rise, every level is non-empty,
/// and each order rests at its effective price on the side's level.
pub open spec fn levels_ok(levels: Seq<PriceLevel>, descending: bool, side: OrderSide) -> bool {
    &&& forall|i: int, j: int| 0 <= i < j < levels.len() ==> if descending {
        levels[i].price@ > levels[j].price@
    } else {
        levels[i].price@ < levels[j].price@
    }
    &&& forall|i: int| 0 <= i < levels.len() ==> (#[trigger] levels[i]).orders@.len() > 0
    &&& forall|i: int, j: int| 0 <= i < levels.len() && 0 <= j < levels[i].orders@.len() ==> (
        #[trigger] levels[i].orders@[j]).side == side && effective_price_of(levels[i].orders@[j])
        == levels[i].price@
}

/// The resting orders of one market.
pub struct OrderBook {
    pub market: MarketPair,
    bids: Vec<PriceLevel>,
    asks: Vec<PriceLevel>,
}

impl OrderBook {
    /// Bid levels, highest price first.
    pub closed spec fn bid_view(&self) -> Seq<PriceLevel> {
        self.bids@
    }

    /// Ask levels, lowest price first.
    pub closed spec fn ask_view(&self) -> Seq<PriceLevel> {
        self.asks@
    }

    pub closed spec fn market_view(&self) -> MarketPair {
        self.market
    }

    pub closed spec fn wf(&self) -> bool {
        &&& levels_ok(self.bids@, true, OrderSide::Buy)
        &&& levels_ok(self.asks@, false, OrderSide::Sell)
    }

    /// Order `id` rests in the book.
    pub open spec fn has(&self, id: u128) -> bool {
        holds(self.bid_view(), id) || holds(self.ask_view(), id)
    }

    /// Number of resting orders.
    pub open spec fn size(&self) -> nat {
        flat(self.bid_view()).len() + flat(self.ask_view()).len()
    }

    pub fn new(market: MarketPair) -> (r: OrderBook)
        ensures
            r.wf(),
            r.market_view() == market,
            r.bid_view() == Seq::<PriceLevel>::empty(),
            r.ask_view() == Seq::<PriceLevel>::empty(),
    {
        OrderBook { market, bids: Vec::new(), asks: Vec::new() }
    }

    fn holds_exec(levels: &Vec<PriceLevel>, id: &OrderId) -> (r: bool)
        ensures
            r == holds(levels@, id.0),
    {
        let mut k: usize = 0;
        while k < levels.len()
            invariant
                k <= levels@.len(),
                forall|i: int| 0 <= i < flat(levels@.take(k as int)).len() ==> (#[trigger] flat(levels@.take(k as int))[i]).id.0 != id.0,
            decreases levels@.len() - k,
        {
            let lvl = &levels[k];
            let mut j: usize = 0;
            while j < lvl.orders.len()
                invariant
                    k < levels@.len(),
                    *lvl == levels@[k as int],
                    j <= lvl.orders@.len(),
                    forall|m: int| 0 <= m < j ==> (#[trigger] lvl.orders@[m]).id.0 != id.0,
                decreases lvl.orders@.len() - j,
            {
                if lvl.orders[j].id.0 == id.0 {
                    proof {
                        lemma_flat_split(levels@, k as int);
                        let pre = flat(levels@.take(k as int));
                        assert(flat(levels@)[pre.len() + j] == lvl.orders@[j as int]);
                    }
                    return true;
                }
                j = j + 1;
            }
            proof {
                let t = levels@.take(k as int + 1);
                assert(t.drop_last() =~= levels@.take(k as int));
                assert(t.last() == levels@[k as int]);
                assert forall|i: int| 0 <= i < flat(t).len() implies (#[trigger] flat(t)[i]).id.0 != id.0 by {
                    let pre = flat(levels@.take(k as int));
                    if i >= pre.len() {
                        assert(flat(t)[i] == lvl.orders@[i - pre.len()]);
                    } else {
                        assert(flat(t)[i] == pre[i]);
                    }
                }
            }
            k = k + 1;
        }
        assert(levels@.take(k as int) =~= levels@);
        false
    }

    pub fn contains_order(&self, order_id: &OrderId) -> (r: bool)
        ensures
            r == self.has(order_id.0),
    {
        OrderBook::holds_exec(&self.bids, order_id) || OrderBook::holds_exec(&self.asks, order_id)
    }
}

impl OrderBook {
    /// Adds `order` to its side at its effective price, behind the orders
    /// already there; an identifier already resting is refused.
    pub fn insert_order(&mut self, order: Order) -> (r: Result<()>)
        requires
            old(self).wf(),
        ensures
            final(self).wf(),
            final(self).market_view() == old(self).market_view(),
            old(self).has(order.id.0) ==> (r == Err::<(), OpenmatchError>(OpenmatchError::DuplicateOrder(order.id))
                && final(self).bid_view() == old(self).bid_view() && final(self).ask_view() == old(self).ask_view()),
            r is Ok <==> !old(self).has(order.id.0),
            r is Ok ==> final(self).size() == old(self).size() + 1,
            r is Ok && order.side == OrderSide::Buy ==> flat(final(self).bid_view()).to_multiset()
                == flat(old(self).bid_view()).to_multiset().insert(order) && final(self).ask_view() == old(self).ask_view(),
            r is Ok && order.side == OrderSide::Sell ==> flat(final(self).ask_view()).to_multiset()
                == flat(old(self).ask_view()).to_multiset().insert(order) && final(self).bid_view() == old(self).bid_view(),
    {
        if self.contains_order(&order.id) {
            return Err(OpenmatchError::DuplicateOrder(order.id));
        }
        match order.side {
            OrderSide::Buy => insert_into(&mut self.bids, order, true),
            OrderSide::Sell => insert_into(&mut self.asks, order, false),
        }
        Ok(())
    }

    /// Inserts `orders` in turn, stopping at the first refusal.
    pub fn insert_batch(&mut self, orders: Vec<Order>) -> (r: Result<()>)
        requires
            old(self).wf(),
        ensures
            final(self).wf(),
            r is Ok ==> final(self).size() == old(self).size() + orders@.len(),
    {
        let mut i: usize = 0;
        while i < orders.len()
            invariant
                self.wf(),
                i <= orders@.len(),
                self.size() == old(self).size() + i,
            decreases orders@.len() - i,
        {
            let o = orders[i].duplicate();
            match self.insert_order(o) {
                Ok(()) => {},
                Err(e) => {
                    return Err(e);
                },
            }
            i = i + 1;
        }
        Ok(())
    }

    /// The highest bid price.
    pub fn best_bid(&self) -> (r: Option<Decimal>)
        ensures
            self.bid_view().len() == 0 ==> r is None,
            self.bid_view().len() > 0 ==> r == Some(self.bid_view()[0].price),
    {
        if self.bids.len() == 0 {
            None
        } else {
            Some(self.bids[0].price)
        }
    }

    /// The lowest ask price.
    pub fn best_ask(&self) -> (r: Option<Decimal>)
        ensures
            self.ask_view().len() == 0 ==> r is None,
            self.ask_view().len() > 0 ==> r == Some(self.ask_view()[0].price),
    {
        if self.asks.len() == 0 {
            None
        } else {
            Some(self.asks[0].price)
        }
    }

    /// Best ask minus best bid, when both exist and the difference is
    /// representable.
    pub fn spread(&self) -> (r: Option<Decimal>)
        ensures
            r matches Some(d) ==> self.bid_view().len() > 0 && self.ask_view().len() > 0
                && d@ == self.ask_view()[0].price@ - self.bid_view()[0].price@,
            r is None ==> self.bid_view().len() == 0 || self.ask_view().len() == 0 || !(i128::MIN
                <= self.ask_view()[0].price@ - self.bid_view()[0].price@ <= i128::MAX),
    {
        match (self.best_bid(), self.best_ask()) {
            (Some(bid), Some(ask)) => ask.checked_sub(bid),
            _ => None,
        }
    }

    /// The midpoint of best bid and best ask, truncated toward zero to
    /// eight fractional digits, when both exist and their sum is
    /// representable.
    pub fn mid_price(&self) -> (r: Option<Decimal>)
        ensures
            r matches Some(m) ==> self.bid_view().len() > 0 && self.ask_view().len() > 0 && ({
                let s = self.ask_view()[0].price@ + self.bid_view()[0].price@;
                m@ == if s >= 0 { s / 2 } else { -((-s) / 2) }
            }),
            r is None ==> self.bid_view().len() == 0 || self.ask_view().len() == 0 || !(i128::MIN
                <= self.ask_view()[0].price@ + self.bid_view()[0].price@ <= i128::MAX),
    {
        match (self.best_bid(), self.best_ask()) {
            (Some(bid), Some(ask)) => match bid.checked_add(ask) {
                Some(s) => Some(Decimal::from_units(s.units / 2)),
                None => None,
            },
            _ => None,
        }
    }

    fn count_levels(levels: &Vec<PriceLevel>) -> (r: usize)
        requires
            flat(levels@).len() <= usize::MAX,
        ensures
            r == flat(levels@).len(),
    {
        let mut n: usize = 0;
        let mut k: usize = 0;
        while k < levels.len()
            invariant
                k <= levels@.len(),
                flat(levels@).len() <= usize::MAX,
                n == flat(levels@.take(k as int)).len(),
            decreases levels@.len() - k,
        {
            proof {
                let t = levels@.take(k as int + 1);
                assert(t.drop_last() =~= levels@.take(k as int));
                assert(t.last() == levels@[k as int]);
                assert(levels@ =~= t + levels@.skip(k as int + 1));
                lemma_flat_concat(t, levels@.skip(k as int + 1));
            }
            n = n + levels[k].orders.len();
            k = k + 1;
        }
        assert(levels@.take(k as int) =~= levels@);
        n
    }

    /// Number of resting orders.
    pub fn order_count(&self) -> (r: usize)
        requires
            self.size() <= usize::MAX,
        ensures
            r == self.size(),
    {
        OrderBook::count_levels(&self.bids) + OrderBook::count_levels(&self.asks)
    }

    pub fn bid_depth(&self) -> (r: usize)
        ensures
            r == self.bid_view().len(),
    {
        self.bids.len()
    }

    pub fn ask_depth(&self) -> (r: usize)
        ensures
            r == self.ask_view().len(),
    {
        self.asks.len()
    }

    pub fn is_empty(&self) -> (r: bool)
        requires
            self.wf(),
        ensures
            r == (self.size() == 0),
    {
        proof {
            if self.bids@.len() > 0 {
                lemma_flat_split(self.bids@, 0);
            }
            if self.asks@.len() > 0 {
                lemma_flat_split(self.asks@, 0);
            }
            if self.bids@.len() == 0 {
                assert(flat(self.bids@) =~= Seq::<Order>::empty());
            }
            if self.asks@.len() == 0 {
                assert(flat(self.asks@) =~= Seq::<Order>::empty());
            }
        }
        self.bids.len() == 0 && self.asks.len() == 0
    }

    /// The bid levels, highest price first.
    pub fn bid_levels(&self) -> (r: &Vec<PriceLevel>)
        ensures
            r@ == self.bid_view(),
    {
        &self.bids
    }

    /// The ask levels, lowest price first.
    pub fn ask_levels(&self) -> (r: &Vec<PriceLevel>)
        ensures
            r@ == self.ask_view(),
    {
        &self.asks
    }

    /// Takes every resting order out: bids by level, then asks.
    pub fn drain_all(&mut self) -> (r: Vec<Order>)
        requires
            old(self).wf(),
        ensures
            final(self).wf(),
            r@ == flat(old(self).bid_view()) + flat(old(self).ask_view()),
            final(self).bid_view() == Seq::<PriceLevel>::empty(),
            final(self).ask_view() == Seq::<PriceLevel>::empty(),
            final(self).market_view() == old(self).market_view(),
    {
        let mut all: Vec<Order> = Vec::new();
        let mut bids: Vec<PriceLevel> = Vec::new();
        core::mem::swap(&mut bids, &mut self.bids);
        let mut asks: Vec<PriceLevel> = Vec::new();
        core::mem::swap(&mut asks, &mut self.asks);
        let mut k: usize = 0;
        while k < bids.len()
            invariant
                k <= bids@.len(),
                all@ == flat(bids@.take(k as int)),
            decreases bids@.len() - k,
        {
            proof {
                let t = bids@.take(k as int + 1);
                assert(t.drop_last() =~= bids@.take(k as int));
                assert(t.last() == bids@[k as int]);
            }
            let mut j: usize = 0;
            let ghost start = all@;
            while j < bids[k].orders.len()
                invariant
                    k < bids@.len(),
                    j <= bids@[k as int].orders@.len(),
                    all@ == start + bids@[k as int].orders@.take(j as int),
                decreases bids@[k as int].orders@.len() - j,
            {
                assert(bids@[k as int].orders@.take(j as int + 1) =~= bids@[k as int].orders@.take(j as int).push(bids@[k as int].orders@[j as int]));
                all.push(bids[k].orders[j].duplicate());
                j = j + 1;
            }
            assert(bids@[k as int].orders@.take(j as int) =~= bids@[k as int].orders@);
            k = k + 1;
        }
        assert(bids@.take(k as int) =~= bids@);
        let ghost mid = all@;
        let mut k: usize = 0;
        while k < asks.len()
            invariant
                k <= asks@.len(),
                all@ == mid + flat(asks@.take(k as int)),
            decreases asks@.len() - k,
        {
            proof {
                let t = asks@.take(k as int + 1);
                assert(t.drop_last() =~= asks@.take(k as int));
                assert(t.last() == asks@[k as int]);
            }
            let mut j: usize = 0;
            let ghost start = all@;
            while j < asks[k].orders.len()
                invariant
                    k < asks@.len(),
                    j <= asks@[k as int].orders@.len(),
                    all@ == start + asks@[k as int].orders@.take(j as int),
                decreases asks@[k as int].orders@.len() - j,
            {
                assert(asks@[k as int].orders@.take(j as int + 1) =~= asks@[k as int].orders@.take(j as int).push(asks@[k as int].orders@[j as int]));
                all.push(asks[k].orders[j].duplicate());
                j = j + 1;
            }
            assert(asks@[k as int].orders@.take(j as int) =~= asks@[k as int].orders@);
            proof {
                let t = asks@.take(k as int + 1);
                assert(all@ =~= mid + flat(t));
            }
            k = k + 1;
        }
        assert(asks@.take(k as int) =~= asks@);
        all
    }
}

impl OrderBook {
    /// Takes order `order_id` out of the book; an empty price level goes
    /// with it.
    pub fn cancel_order(&mut self, order_id: &OrderId) -> (r: Result<Order>)
        requires
            old(self).wf(),
        ensures
            final(self).wf(),
            final(self).market_view() == old(self).market_view(),
            !old(self).has(order_id.0) ==> (r == Err::<Order, OpenmatchError>(OpenmatchError::OrderNotFound(*order_id))
                && final(self).bid_view() == old(self).bid_view() && final(self).ask_view() == old(self).ask_view()),
            r is Ok <==> old(self).has(order_id.0),
            r matches Ok(o) ==> o.id == *order_id && final(self).size() + 1 == old(self).size() && (
                (flat(old(self).bid_view()).contains(o) && flat(final(self).bid_view()).to_multiset()
                    == flat(old(self).bid_view()).to_multiset().remove(o) && final(self).ask_view() == old(self).ask_view())
                || (flat(old(self).ask_view()).contains(o) && flat(final(self).ask_view()).to_multiset()
                    == flat(old(self).ask_view()).to_multiset().remove(o) && final(self).bid_view() == old(self).bid_view())),
    {
        match remove_from(&mut self.bids, order_id, true, OrderSide::Buy) {
            Some(o) => {
                return Ok(o);
            },
            None => {},
        }
        match remove_from(&mut self.asks, order_id, false, OrderSide::Sell) {
            Some(o) => Ok(o),
            None => Err(OpenmatchError::OrderNotFound(*order_id)),
        }
    }
}

} // verus!
