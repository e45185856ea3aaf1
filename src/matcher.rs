//! The deterministic batch matcher: a sealed batch in, trades out.
//!
//! Buys (highest effective price first) are walked against sells (lowest
//! first); every fill executes at the uniform clearing price, pairs of one
//! user are skipped, and trade identifiers derive from the epoch and the
//! fill's position alone.
use vstd::prelude::*;
use crate::buffer::{PendingBuffer, MAX_ORDERS_PER_BATCH};
use crate::clearing::{
    compute_clearing_price, demand_at, is_clearing_price, remaining_nonneg, remaining_total,
    solvable, supply_at, crosses,
};
use crate::clock::now_millis;
use crate::codec::sha256_of;
use crate::commitments::{compute_result_hash, compute_trade_root, result_preimage, root_preimage};
use crate::epoch::{SealedBatch, TradeBundle};
use crate::decimal::{saturated_product, Decimal};
use crate::error::{OpenmatchError, Result};
use crate::ids::{trade_id_value, EpochId, NodeId, TradeId};
use crate::order::{effective_price_of, Order, OrderSide, OrderType};
use crate::ordering::{sort_orders, sorted_by, SortRule};
use crate::sums::{lemma_perm_members, lemma_sums_perm, lemma_wsum_update, lemma_sums_as_wsum, demand_weight, supply_weight};
use crate::trade::Trade;

verus! {

/// The orders of `s` on `side` that are not cancels, in their order.
pub open spec fn side_orders(s: Seq<Order>, side: OrderSide) -> Seq<Order>
    decreases s.len(),
{
    if s.len() == 0 {
        seq![]
    } else if s.last().side == side && s.last().order_type != OrderType::Cancel {
        side_orders(s.drop_last(), side).push(s.last())
    } else {
        side_orders(s.drop_last(), side)
    }
}

/// The orders of `s` with a positive remaining quantity, in their order.
pub open spec fn unfilled(s: Seq<Order>) -> Seq<Order>
    decreases s.len(),
{
    if s.len() == 0 {
        seq![]
    } else if s.last().remaining_qty@ > 0 {
        unfilled(s.drop_last()).push(s.last())
    } else {
        unfilled(s.drop_last())
    }
}

/// Total quantity of `trades`.
pub open spec fn traded_total(trades: Seq<Trade>) -> int
    decreases trades.len(),
{
    if trades.len() == 0 {
        0
    } else {
        traded_total(trades.drop_last()) + trades.last().quantity@
    }
}

/// Inputs the matcher accepts: within the batch size, no negative
/// remaining quantity or effective price, and a representable total.
pub open spec fn matchable_batch(orders: Seq<Order>) -> bool {
    &&& orders.len() <= MAX_ORDERS_PER_BATCH
    &&& remaining_nonneg(orders)
    &&& forall|i: int| 0 <= i < orders.len() ==> effective_price_of(#[trigger] orders[i]) >= 0
    &&& remaining_total(orders) <= i128::MAX
}

/// `a` is `b` with possibly another remaining quantity.
pub open spec fn same_but_remaining(a: Order, b: Order) -> bool {
    a == Order { remaining_qty: a.remaining_qty, ..b }
}

/// Trade number `k` of an epoch's output is well formed.
pub open spec fn trade_fits(t: Trade, k: int, cp: Decimal, epoch: EpochId, node: NodeId, at: i64) -> bool {
    &&& t.price == cp
    &&& t.taker_user_id != t.maker_user_id
    &&& t.id.0 == trade_id_value(epoch.0, k as u64)
    &&& t.quantity@ > 0
    &&& t.quote_amount@ == saturated_product(cp@, t.quantity@)
    &&& t.taker_side == OrderSide::Buy
    &&& t.epoch_id == epoch
    &&& t.matcher_node == node
    &&& t.executed_at == at
}

/// `o` with `r` units remaining.
pub open spec fn with_remaining(o: Order, r: int) -> Order {
    Order { remaining_qty: Decimal { units: r as i128 }, ..o }
}

/// The `k`-th trade of an epoch: `f` units between buy `b` and sell `s`.
pub open spec fn fill_trade(b: Order, s: Order, cp: Decimal, epoch: EpochId, node: NodeId, at: i64, k: nat, f: int) -> Trade {
    Trade {
        id: TradeId(trade_id_value(epoch.0, k as u64)),
        epoch_id: epoch,
        market: b.market,
        taker_order_id: b.id,
        taker_user_id: b.user_id,
        maker_order_id: s.id,
        maker_user_id: s.user_id,
        price: cp,
        quantity: Decimal { units: f as i128 },
        quote_amount: Decimal { units: saturated_product(cp@, f) as i128 },
        taker_side: OrderSide::Buy,
        matcher_node: node,
        executed_at: at,
    }
}

/// The fill walk at clearing price `cp` from a given point: buy `bi`, sell
/// `si`, trades `t` so far, `inside` the current buy or not. Buys are
/// taken in order; one with nothing left is skipped; the first below `cp`
/// ends the walk. Inside a buy, sells are taken in order: one above `cp`
/// ends the buy; one with nothing left, or of the same user, is skipped;
/// otherwise the smaller of the two remaining quantities trades at `cp`,
/// and an exhausted sell is left behind.
pub open spec fn walk(
    b: Seq<Order>,
    s: Seq<Order>,
    bi: int,
    si: int,
    t: Seq<Trade>,
    inside: bool,
    cp: Decimal,
    epoch: EpochId,
    node: NodeId,
    at: i64,
) -> (Seq<Trade>, Seq<Order>, Seq<Order>)
    decreases b.len() - bi, if inside {
        s.len() - si + if 0 <= bi < b.len() && b[bi].remaining_qty@ > 0 { 1int } else { 0 }
    } else {
        s.len() + 2int
    },
    when 0 <= bi <= b.len() && 0 <= si <= s.len()
{
    if bi >= b.len() {
        (t, b, s)
    } else if !inside {
        if b[bi].remaining_qty@ == 0 {
            walk(b, s, bi + 1, si, t, false, cp, epoch, node, at)
        } else if effective_price_of(b[bi]) < cp@ {
            (t, b, s)
        } else {
            walk(b, s, bi, si, t, true, cp, epoch, node, at)
        }
    } else if !(si < s.len() && b[bi].remaining_qty@ > 0) {
        walk(b, s, bi + 1, si, t, false, cp, epoch, node, at)
    } else if effective_price_of(s[si]) > cp@ {
        walk(b, s, bi + 1, si, t, false, cp, epoch, node, at)
    } else if s[si].remaining_qty@ == 0 {
        walk(b, s, bi, si + 1, t, true, cp, epoch, node, at)
    } else if b[bi].user_id == s[si].user_id {
        walk(b, s, bi, si + 1, t, true, cp, epoch, node, at)
    } else {
        let br = b[bi].remaining_qty@;
        let sr = s[si].remaining_qty@;
        let f = if br <= sr { br } else { sr };
        let nb = b.update(bi, with_remaining(b[bi], br - f));
        let ns = s.update(si, with_remaining(s[si], sr - f));
        let nt = t.push(fill_trade(b[bi], s[si], cp, epoch, node, at, t.len(), f));
        if sr - f == 0 {
            walk(nb, ns, bi, si + 1, nt, true, cp, epoch, node, at)
        } else {
            walk(nb, ns, bi, si, nt, true, cp, epoch, node, at)
        }
    }
}

/// What one epoch's matching produced.
pub struct AuctionOutcome {
    pub trades: Vec<Trade>,
    pub remaining_orders: Vec<Order>,
    pub clearing_price: Option<Decimal>,
}

proof fn lemma_side_total(s: Seq<Order>, side: OrderSide)
    requires
        remaining_nonneg(s),
    ensures
        remaining_nonneg(side_orders(s, side)),
        remaining_total(side_orders(s, side)) <= remaining_total(s),
        forall|i: int| 0 <= i < side_orders(s, side).len() ==> exists|j: int| 0 <= j < s.len() && s[j] == #[trigger] side_orders(s, side)[i],
    decreases s.len(),
{
    if s.len() > 0 {
        lemma_side_total(s.drop_last(), side);
        let r = side_orders(s.drop_last(), side);
        assert(s.last() == s[s.len() - 1]);
        if s.last().side == side && s.last().order_type != OrderType::Cancel {
            assert(side_orders(s, side).drop_last() =~= r);
            assert forall|i: int| 0 <= i < side_orders(s, side).len() implies exists|j: int| 0 <= j < s.len() && s[j] == #[trigger] side_orders(s, side)[i] by {
                if i < r.len() {
                    let j = choose|j: int| 0 <= j < s.drop_last().len() && s.drop_last()[j] == r[i];
                    assert(s[j] == side_orders(s, side)[i]);
                } else {
                    assert(s[s.len() - 1] == side_orders(s, side)[i]);
                }
            }
        } else {
            assert forall|i: int| 0 <= i < side_orders(s, side).len() implies exists|j: int| 0 <= j < s.len() && s[j] == #[trigger] side_orders(s, side)[i] by {
                let j = choose|j: int| 0 <= j < s.drop_last().len() && s.drop_last()[j] == r[i];
                assert(s[j] == side_orders(s, side)[i]);
            }
        }
        crate::clearing::lemma_nonneg_total_pub(s);
    }
}

/// The non-cancel orders of one side, in input order.
fn partition(orders: &Vec<Order>, side: OrderSide) -> (r: Vec<Order>)
    ensures
        r@ == side_orders(orders@, side),
{
    let mut out: Vec<Order> = Vec::new();
    let mut i: usize = 0;
    while i < orders.len()
        invariant
            i <= orders@.len(),
            out@ == side_orders(orders@.take(i as int), side),
        decreases orders@.len() - i,
    {
        proof {
            let t = orders@.take(i as int + 1);
            assert(t.drop_last() =~= orders@.take(i as int));
            assert(t.last() == orders@[i as int]);
        }
        if orders[i].side == side && orders[i].order_type != OrderType::Cancel {
            out.push(orders[i].duplicate());
        }
        i = i + 1;
    }
    assert(orders@.take(i as int) =~= orders@);
    out
}

/// The orders of `a` then `b` with a positive remaining quantity.
fn collect_unfilled(a: &Vec<Order>, b: &Vec<Order>) -> (r: Vec<Order>)
    requires
        a@.len() + b@.len() <= usize::MAX,
    ensures
        r@ == unfilled(a@ + b@),
{
    let ghost all = a@ + b@;
    let mut out: Vec<Order> = Vec::new();
    let mut i: usize = 0;
    while i < a.len() + b.len()
        invariant
            a@.len() + b@.len() <= usize::MAX,
            all == a@ + b@,
            i <= all.len(),
            out@ == unfilled(all.take(i as int)),
        decreases all.len() - i,
    {
        let o = if i < a.len() {
            &a[i]
        } else {
            &b[i - a.len()]
        };
        proof {
            let t = all.take(i as int + 1);
            assert(t.drop_last() =~= all.take(i as int));
            assert(t.last() == all[i as int]);
            assert(*o == all[i as int]);
        }
        if o.remaining_qty.units > 0 {
            out.push(o.duplicate());
        }
        i = i + 1;
    }
    assert(all.take(i as int) =~= all);
    out
}

/// Walks the sorted sides against each other at price `cp`, emitting the
/// fills; returns the trades and both sides with updated remaining
/// quantities.
fn fill_walk(
    buys_in: Vec<Order>,
    sells_in: Vec<Order>,
    cp: Decimal,
    epoch: EpochId,
    node: NodeId,
    at: i64,
) -> (r: (Vec<Trade>, Vec<Order>, Vec<Order>))
    requires
        buys_in@.len() + sells_in@.len() <= MAX_ORDERS_PER_BATCH,
        remaining_nonneg(buys_in@),
        remaining_nonneg(sells_in@),
        cp@ >= 0,
    ensures
        r.1@.len() == buys_in@.len(),
        r.2@.len() == sells_in@.len(),
        forall|k: int| 0 <= k < r.1@.len() ==> same_but_remaining(#[trigger] r.1@[k], buys_in@[k])
            && 0 <= r.1@[k].remaining_qty@ <= buys_in@[k].remaining_qty@,
        forall|k: int| 0 <= k < r.2@.len() ==> same_but_remaining(#[trigger] r.2@[k], sells_in@[k])
            && 0 <= r.2@[k].remaining_qty@ <= sells_in@[k].remaining_qty@,
        forall|k: int| 0 <= k < r.0@.len() ==> trade_fits(#[trigger] r.0@[k], k, cp, epoch, node, at),
        traded_total(r.0@) == demand_at(buys_in@, cp@) - demand_at(r.1@, cp@),
        traded_total(r.0@) == supply_at(sells_in@, cp@) - supply_at(r.2@, cp@),
        remaining_nonneg(r.1@),
        remaining_nonneg(r.2@),
        (r.0@, r.1@, r.2@) == walk(buys_in@, sells_in@, 0, 0, Seq::<Trade>::empty(), false, cp, epoch, node, at),
{
    let mut buys = buys_in;
    let mut sells = sells_in;
    let mut trades: Vec<Trade> = Vec::new();
    let mut sell_idx: usize = 0;
    let mut fill_sequence: u64 = 0;
    let mut bi: usize = 0;
    let mut halted = false;
    while bi < buys.len() && !halted
        invariant
            halted ==> bi < buys@.len() && buys@[bi as int].remaining_qty@ != 0
                && effective_price_of(buys@[bi as int]) < cp@,
            buys@.len() == buys_in@.len(),
            sells@.len() == sells_in@.len(),
            buys_in@.len() + sells_in@.len() <= MAX_ORDERS_PER_BATCH,
            cp@ >= 0,
            bi <= buys@.len(),
            sell_idx <= sells@.len(),
            trades@.len() == fill_sequence,
            fill_sequence <= bi + sell_idx,
            forall|k: int| 0 <= k < buys@.len() ==> same_but_remaining(#[trigger] buys@[k], buys_in@[k])
                && 0 <= buys@[k].remaining_qty@ <= buys_in@[k].remaining_qty@,
            forall|k: int| 0 <= k < sells@.len() ==> same_but_remaining(#[trigger] sells@[k], sells_in@[k])
                && 0 <= sells@[k].remaining_qty@ <= sells_in@[k].remaining_qty@,
            forall|k: int| 0 <= k < trades@.len() ==> trade_fits(#[trigger] trades@[k], k, cp, epoch, node, at),
            traded_total(trades@) == demand_at(buys_in@, cp@) - demand_at(buys@, cp@),
            traded_total(trades@) == supply_at(sells_in@, cp@) - supply_at(sells@, cp@),
            walk(buys@, sells@, bi as int, sell_idx as int, trades@, false, cp, epoch, node, at) == walk(buys_in@, sells_in@, 0, 0, Seq::<Trade>::empty(), false, cp, epoch, node, at),
        decreases buys@.len() - bi, if halted { 0int } else { 1int },
    {
        if buys[bi].remaining_qty.units == 0 {
            bi = bi + 1;
            continue;
        }
        if buys[bi].effective_price().units < cp.units {
            halted = true;
            continue;
        }
        let mut priced_out = false;
        while sell_idx < sells.len() && buys[bi].remaining_qty.units > 0 && !priced_out
            invariant
                priced_out ==> sell_idx < sells@.len() && buys@[bi as int].remaining_qty@ > 0
                    && effective_price_of(sells@[sell_idx as int]) > cp@,
                buys@.len() == buys_in@.len(),
                sells@.len() == sells_in@.len(),
                buys_in@.len() + sells_in@.len() <= MAX_ORDERS_PER_BATCH,
                cp@ >= 0,
                bi < buys@.len(),
                sell_idx <= sells@.len(),
                effective_price_of(buys@[bi as int]) >= cp@,
                trades@.len() == fill_sequence,
                fill_sequence <= bi + sell_idx + (if buys@[bi as int].remaining_qty@ == 0 { 1int } else { 0 }),
                forall|k: int| 0 <= k < buys@.len() ==> same_but_remaining(#[trigger] buys@[k], buys_in@[k])
                    && 0 <= buys@[k].remaining_qty@ <= buys_in@[k].remaining_qty@,
                forall|k: int| 0 <= k < sells@.len() ==> same_but_remaining(#[trigger] sells@[k], sells_in@[k])
                    && 0 <= sells@[k].remaining_qty@ <= sells_in@[k].remaining_qty@,
                forall|k: int| 0 <= k < trades@.len() ==> trade_fits(#[trigger] trades@[k], k, cp, epoch, node, at),
                traded_total(trades@) == demand_at(buys_in@, cp@) - demand_at(buys@, cp@),
                traded_total(trades@) == supply_at(sells_in@, cp@) - supply_at(sells@, cp@),
                walk(buys@, sells@, bi as int, sell_idx as int, trades@, true, cp, epoch, node, at) == walk(buys_in@, sells_in@, 0, 0, Seq::<Trade>::empty(), false, cp, epoch, node, at),
            decreases sells@.len() - sell_idx, buys@[bi as int].remaining_qty@, if priced_out { 0int } else { 1int },
        {
            if sells[sell_idx].effective_price().units > cp.units {
                priced_out = true;
                continue;
            }
            if sells[sell_idx].remaining_qty.units == 0 {
                sell_idx = sell_idx + 1;
                continue;
            }
            if buys[bi].user_id == sells[sell_idx].user_id {
                sell_idx = sell_idx + 1;
                continue;
            }
            let fill = buys[bi].remaining_qty.min(sells[sell_idx].remaining_qty);
            let quote = cp.saturating_mul(fill);
            let id = TradeId::deterministic(epoch.0, fill_sequence);
            let trade = Trade {
                id,
                epoch_id: epoch,
                market: buys[bi].market.duplicate(),
                taker_order_id: buys[bi].id,
                taker_user_id: buys[bi].user_id,
                maker_order_id: sells[sell_idx].id,
                maker_user_id: sells[sell_idx].user_id,
                price: cp,
                quantity: fill,
                quote_amount: quote,
                taker_side: OrderSide::Buy,
                matcher_node: node,
                executed_at: at,
            };
            let ghost old_buys = buys@;
            let ghost old_sells = sells@;
            let ghost old_trades = trades@;
            let mut b = buys[bi].duplicate();
            b.remaining_qty = Decimal::from_units(b.remaining_qty.units - fill.units);
            buys.set(bi, b);
            let mut s = sells[sell_idx].duplicate();
            s.remaining_qty = Decimal::from_units(s.remaining_qty.units - fill.units);
            sells.set(sell_idx, s);
            trades.push(trade);
            fill_sequence = fill_sequence + 1;
            proof {
                lemma_sums_as_wsum(old_buys, cp@);
                lemma_sums_as_wsum(buys@, cp@);
                lemma_wsum_update(old_buys, bi as int, b, demand_weight(cp@));
                lemma_sums_as_wsum(old_sells, cp@);
                lemma_sums_as_wsum(sells@, cp@);
                lemma_wsum_update(old_sells, sell_idx as int, s, supply_weight(cp@));
                assert(trades@.drop_last() =~= old_trades);
                assert(buys@ == old_buys.update(bi as int, b));
                assert(sells@ == old_sells.update(sell_idx as int, s));
            }
            if sells[sell_idx].remaining_qty.units == 0 {
                sell_idx = sell_idx + 1;
            }
        }
        bi = bi + 1;
    }
    (trades, buys, sells)
}

/// Clearing is blind to the order in which each side is listed.
proof fn lemma_clearing_perm(b1: Seq<Order>, s1: Seq<Order>, b2: Seq<Order>, s2: Seq<Order>)
    requires
        b1.to_multiset() == b2.to_multiset(),
        s1.to_multiset() == s2.to_multiset(),
    ensures
        forall|p: int| #[trigger] is_clearing_price(b1, s1, p) <==> is_clearing_price(b2, s2, p),
        crosses(b1, s1) <==> crosses(b2, s2),
        forall|p: int| #[trigger] demand_at(b1, p) == demand_at(b2, p) && supply_at(s1, p) == supply_at(s2, p),
{
    assert forall|p: int| #[trigger] demand_at(b1, p) == demand_at(b2, p) && supply_at(s1, p) == supply_at(s2, p) by {
        lemma_sums_perm(b1, b2, p);
        lemma_sums_perm(s1, s2, p);
    }
    assert forall|p: int| #[trigger] crate::clearing::is_candidate(b1, s1, p) <==> crate::clearing::is_candidate(b2, s2, p) by {
        if exists|i: int| 0 <= i < b1.len() && effective_price_of(#[trigger] b1[i]) == p {
            let i = choose|i: int| 0 <= i < b1.len() && effective_price_of(#[trigger] b1[i]) == p;
            lemma_perm_members(b2, b1, i);
            let j = choose|j: int| 0 <= j < b2.len() && b2[j] == b1[i];
            assert(effective_price_of(b2[j]) == p);
        }
        if exists|i: int| 0 <= i < s1.len() && effective_price_of(#[trigger] s1[i]) == p {
            let i = choose|i: int| 0 <= i < s1.len() && effective_price_of(#[trigger] s1[i]) == p;
            lemma_perm_members(s2, s1, i);
            let j = choose|j: int| 0 <= j < s2.len() && s2[j] == s1[i];
            assert(effective_price_of(s2[j]) == p);
        }
        if exists|i: int| 0 <= i < b2.len() && effective_price_of(#[trigger] b2[i]) == p {
            let i = choose|i: int| 0 <= i < b2.len() && effective_price_of(#[trigger] b2[i]) == p;
            lemma_perm_members(b1, b2, i);
            let j = choose|j: int| 0 <= j < b1.len() && b1[j] == b2[i];
            assert(effective_price_of(b1[j]) == p);
        }
        if exists|i: int| 0 <= i < s2.len() && effective_price_of(#[trigger] s2[i]) == p {
            let i = choose|i: int| 0 <= i < s2.len() && effective_price_of(#[trigger] s2[i]) == p;
            lemma_perm_members(s1, s2, i);
            let j = choose|j: int| 0 <= j < s1.len() && s1[j] == s2[i];
            assert(effective_price_of(s1[j]) == p);
        }
    }
    assert forall|p: int| #[trigger] is_clearing_price(b1, s1, p) <==> is_clearing_price(b2, s2, p) by {
        if is_clearing_price(b1, s1, p) {
            assert forall|q: int| #![trigger crate::clearing::is_candidate(b2, s2, q)]
                crate::clearing::is_candidate(b2, s2, q) && crate::clearing::matchable_at(b2, s2, q) > 0 && q != p
                implies crate::clearing::beats(b2, s2, p, q) by {
                assert(crate::clearing::is_candidate(b1, s1, q));
            }
        }
        if is_clearing_price(b2, s2, p) {
            assert forall|q: int| #![trigger crate::clearing::is_candidate(b1, s1, q)]
                crate::clearing::is_candidate(b1, s1, q) && crate::clearing::matchable_at(b1, s1, q) > 0 && q != p
                implies crate::clearing::beats(b1, s1, p, q) by {
                assert(crate::clearing::is_candidate(b2, s2, q));
            }
        }
    }
    if crosses(b1, s1) {
        let p = choose|p: int| #[trigger] crate::clearing::is_candidate(b1, s1, p) && crate::clearing::matchable_at(b1, s1, p) > 0;
        assert(crate::clearing::is_candidate(b2, s2, p));
    }
    if crosses(b2, s2) {
        let p = choose|p: int| #[trigger] crate::clearing::is_candidate(b2, s2, p) && crate::clearing::matchable_at(b2, s2, p) > 0;
        assert(crate::clearing::is_candidate(b1, s1, p));
    }
}

/// Whether the matcher accepts `orders`.
fn validate_batch(orders: &Vec<Order>) -> (r: bool)
    ensures
        r == matchable_batch(orders@),
{
    if orders.len() > MAX_ORDERS_PER_BATCH {
        return false;
    }
    let mut acc: i128 = 0;
    let mut i: usize = 0;
    while i < orders.len()
        invariant
            i <= orders@.len(),
            0 <= acc,
            acc == remaining_total(orders@.take(i as int)),
            remaining_nonneg(orders@.take(i as int)),
            forall|k: int| 0 <= k < i ==> effective_price_of(#[trigger] orders@[k]) >= 0,
        decreases orders@.len() - i,
    {
        let o = &orders[i];
        proof {
            let t = orders@.take(i as int + 1);
            assert(t.drop_last() =~= orders@.take(i as int));
            assert(t.last() == orders@[i as int]);
        }
        if o.remaining_qty.units < 0 || o.effective_price().units < 0 {
            proof {
                assert(orders@[i as int].remaining_qty@ < 0 || effective_price_of(orders@[i as int]) < 0);
            }
            return false;
        }
        if acc > i128::MAX - o.remaining_qty.units {
            proof {
                let t = orders@.take(i as int + 1);
                assert(remaining_nonneg(t));
                assert(remaining_total(t) > i128::MAX);
                if remaining_nonneg(orders@) {
                    crate::clearing::lemma_prefix_bounds(orders@, i as int + 1);
                }
            }
            return false;
        }
        acc = acc + o.remaining_qty.units;
        i = i + 1;
    }
    assert(orders@.take(i as int) =~= orders@);
    true
}

/// Runs one epoch's auction over `orders`, stamping trades with `at`.
///
/// Cancels are dropped; buys and sells are sorted by price priority, then
/// sequence; the clearing price is computed over them; fills are emitted as
/// described for `fill_walk`. With no crossing, no trade is emitted and every
/// non-cancel order remains; otherwise the orders with quantity left remain.
pub fn match_orders(epoch: EpochId, node: NodeId, orders: &Vec<Order>, at: i64) -> (r: Result<
    AuctionOutcome,
>)
    ensures
        r is Ok <==> matchable_batch(orders@),
        !matchable_batch(orders@) ==> r matches Err(OpenmatchError::MatchingFailed { .. }),
        r matches Ok(out) ==> outcome_fits(out, orders@, epoch, node, at),
{
    if !validate_batch(orders) {
        return Err(OpenmatchError::MatchingFailed { reason: String::from_str("Batch quantities or prices out of range") });
    }
    let buys_in = partition(orders, OrderSide::Buy);
    let sells_in = partition(orders, OrderSide::Sell);
    let ghost b0 = buys_in@;
    let ghost s0 = sells_in@;
    let buys = sort_orders(buys_in, SortRule::BuyPriority);
    let sells = sort_orders(sells_in, SortRule::SellPriority);
    proof {
        lemma_side_total(orders@, OrderSide::Buy);
        lemma_side_total(orders@, OrderSide::Sell);
        lemma_sums_perm(buys@, b0, 0);
        lemma_sums_perm(sells@, s0, 0);
        assert forall|i: int| 0 <= i < buys@.len() implies (#[trigger] buys@[i]).remaining_qty@ >= 0 by {
            lemma_perm_members(b0, buys@, i);
        }
        assert forall|i: int| 0 <= i < sells@.len() implies (#[trigger] sells@[i]).remaining_qty@ >= 0 by {
            lemma_perm_members(s0, sells@, i);
        }
        lemma_clearing_perm(buys@, sells@, b0, s0);
        lemma_side_len(orders@);
    }
    let clearing = compute_clearing_price(buys.as_slice(), sells.as_slice());
    match clearing {
        None => {
            let ghost bs0 = buys@;
            let ghost ss0 = sells@;
            let remaining = concat_orders(buys, sells);
            proof {
                vstd::seq_lib::lemma_multiset_commutative(bs0, ss0);
                vstd::seq_lib::lemma_multiset_commutative(b0, s0);
                assert(sides_sorted(bs0, ss0, side_orders(orders@, OrderSide::Buy), side_orders(orders@, OrderSide::Sell)));
            }
            Ok(AuctionOutcome { trades: Vec::new(), remaining_orders: remaining, clearing_price: None })
        },
        Some(c) => {
            let cp = c.price;
            proof {
                let k = choose|k: int| 0 <= k < buys@.len() && effective_price_of(#[trigger] buys@[k]) == cp@
                    || (exists|i: int| 0 <= i < sells@.len() && effective_price_of(#[trigger] sells@[i]) == cp@);
                if exists|i: int| 0 <= i < buys@.len() && effective_price_of(#[trigger] buys@[i]) == cp@ {
                    let i = choose|i: int| 0 <= i < buys@.len() && effective_price_of(#[trigger] buys@[i]) == cp@;
                    lemma_perm_members(b0, buys@, i);
                    let j = choose|j: int| 0 <= j < b0.len() && b0[j] == buys@[i];
                    lemma_member_of_side(orders@, OrderSide::Buy, j);
                } else {
                    let i = choose|i: int| 0 <= i < sells@.len() && effective_price_of(#[trigger] sells@[i]) == cp@;
                    lemma_perm_members(s0, sells@, i);
                    let j = choose|j: int| 0 <= j < s0.len() && s0[j] == sells@[i];
                    lemma_member_of_side(orders@, OrderSide::Sell, j);
                }
            }
            let ghost bs = buys@;
            let ghost ss = sells@;
            let (trades, buys_after, sells_after) = fill_walk(buys, sells, cp, epoch, node, at);
            proof {
                lemma_sums_as_wsum(buys_after@, cp@);
                crate::sums::lemma_wsum_nonneg(buys_after@, demand_weight(cp@));
                lemma_sums_as_wsum(sells_after@, cp@);
                crate::sums::lemma_wsum_nonneg(sells_after@, supply_weight(cp@));
            }
            proof {
                assert(sides_sorted(bs, ss, b0, s0));
                assert(sides_sorted(bs, ss, side_orders(orders@, OrderSide::Buy), side_orders(orders@, OrderSide::Sell)));
            }
            let remaining = collect_unfilled(&buys_after, &sells_after);
            proof {
                lemma_unfilled_positive(buys_after@ + sells_after@);
                let out = AuctionOutcome { trades, remaining_orders: remaining, clearing_price: Some(cp) };
                assert(walked(out, bs, ss, cp, epoch, node, at));
            }
            Ok(AuctionOutcome { trades, remaining_orders: remaining, clearing_price: Some(cp) })
        },
    }
}

/// What `match_orders` promises of its outcome on `orders`.
pub open spec fn outcome_fits(out: AuctionOutcome, orders: Seq<Order>, epoch: EpochId, node: NodeId, at: i64) -> bool {
    let buys = side_orders(orders, OrderSide::Buy);
    let sells = side_orders(orders, OrderSide::Sell);
    &&& (out.clearing_price is None <==> buys.len() == 0 || sells.len() == 0 || !crosses(buys, sells))
    &&& out.clearing_price is None ==> out.trades@.len() == 0
        && out.remaining_orders@.to_multiset() == (buys + sells).to_multiset()
        && exists|bs: Seq<Order>, ss: Seq<Order>| #[trigger] sides_sorted(bs, ss, buys, sells)
            && out.remaining_orders@ == bs + ss
    &&& out.clearing_price matches Some(cp) ==> {
        &&& is_clearing_price(buys, sells, cp@)
        &&& forall|k: int| 0 <= k < out.trades@.len() ==> trade_fits(#[trigger] out.trades@[k], k, cp, epoch, node, at)
        &&& traded_total(out.trades@) <= demand_at(buys, cp@)
        &&& traded_total(out.trades@) <= supply_at(sells, cp@)
        &&& forall|k: int| 0 <= k < out.remaining_orders@.len() ==> (#[trigger] out.remaining_orders@[k]).remaining_qty@ > 0
        &&& exists|bs: Seq<Order>, ss: Seq<Order>| #[trigger] sides_sorted(bs, ss, buys, sells)
            && walked(out, bs, ss, cp, epoch, node, at)
    }
}

/// `out` is the fill walk over the sorted sides `bs`, `ss`: its trades, and
/// the orders of both sides with quantity left, buys first.
pub open spec fn walked(out: AuctionOutcome, bs: Seq<Order>, ss: Seq<Order>, cp: Decimal, epoch: EpochId, node: NodeId, at: i64) -> bool {
    let w = walk(bs, ss, 0, 0, Seq::<Trade>::empty(), false, cp, epoch, node, at);
    &&& out.trades@ == w.0
    &&& out.remaining_orders@ == unfilled(w.1 + w.2)
}

/// `bs` and `ss` are `buys` and `sells` in price-time priority.
pub open spec fn sides_sorted(bs: Seq<Order>, ss: Seq<Order>, buys: Seq<Order>, sells: Seq<Order>) -> bool {
    &&& sorted_by(SortRule::BuyPriority, bs)
    &&& sorted_by(SortRule::SellPriority, ss)
    &&& bs.to_multiset() == buys.to_multiset()
    &&& ss.to_multiset() == sells.to_multiset()
}

/// Matching is deterministic: on a batch whose orders carry distinct
/// (sequence, identifier) keys on each side, every outcome that `match_orders` may
/// return for the same epoch, node and time has the same trades.
pub proof fn lemma_trades_determined(
    orders: Seq<Order>,
    o1: AuctionOutcome,
    o2: AuctionOutcome,
    epoch: EpochId,
    node: NodeId,
    at: i64,
)
    requires
        outcome_fits(o1, orders, epoch, node, at),
        outcome_fits(o2, orders, epoch, node, at),
        crate::ordering::keys_distinct(side_orders(orders, OrderSide::Buy)),
        crate::ordering::keys_distinct(side_orders(orders, OrderSide::Sell)),
    ensures
        o1.trades@ == o2.trades@,
        o1.remaining_orders@ == o2.remaining_orders@,
        o1.clearing_price == o2.clearing_price,
{
    let buys = side_orders(orders, OrderSide::Buy);
    let sells = side_orders(orders, OrderSide::Sell);
    if let Some(c1) = o1.clearing_price {
        let c2 = o2.clearing_price->0;
        crate::clearing::lemma_clearing_price_unique(buys, sells, c1@, c2@);
        assert(c1 == c2);
        let (b1, s1) = choose|bs: Seq<Order>, ss: Seq<Order>| #[trigger] sides_sorted(bs, ss, buys, sells)
            && walked(o1, bs, ss, c1, epoch, node, at);
        let (b2, s2) = choose|bs: Seq<Order>, ss: Seq<Order>| #[trigger] sides_sorted(bs, ss, buys, sells)
            && walked(o2, bs, ss, c2, epoch, node, at);
        crate::ordering::lemma_keys_perm(buys, b1);
        crate::ordering::lemma_keys_perm(sells, s1);
        crate::ordering::lemma_sorted_unique(SortRule::BuyPriority, b1, b2);
        crate::ordering::lemma_sorted_unique(SortRule::SellPriority, s1, s2);
    } else {
        let (b1, s1) = choose|bs: Seq<Order>, ss: Seq<Order>| #[trigger] sides_sorted(bs, ss, buys, sells)
            && o1.remaining_orders@ == bs + ss;
        let (b2, s2) = choose|bs: Seq<Order>, ss: Seq<Order>| #[trigger] sides_sorted(bs, ss, buys, sells)
            && o2.remaining_orders@ == bs + ss;
        crate::ordering::lemma_keys_perm(buys, b1);
        crate::ordering::lemma_keys_perm(sells, s1);
        crate::ordering::lemma_sorted_unique(SortRule::BuyPriority, b1, b2);
        crate::ordering::lemma_sorted_unique(SortRule::SellPriority, s1, s2);
    }
}

proof fn lemma_member_of_side(s: Seq<Order>, side: OrderSide, j: int)
    requires
        0 <= j < side_orders(s, side).len(),
    ensures
        exists|i: int| 0 <= i < s.len() && s[i] == side_orders(s, side)[j],
    decreases s.len(),
{
    if s.len() > 0 {
        let r = side_orders(s.drop_last(), side);
        if s.last().side == side && s.last().order_type != OrderType::Cancel {
            if j < r.len() {
                lemma_member_of_side(s.drop_last(), side, j);
                let i = choose|i: int| 0 <= i < s.drop_last().len() && s.drop_last()[i] == r[j];
                assert(s[i] == side_orders(s, side)[j]);
            } else {
                assert(s[s.len() - 1] == side_orders(s, side)[j]);
            }
        } else {
            lemma_member_of_side(s.drop_last(), side, j);
            let i = choose|i: int| 0 <= i < s.drop_last().len() && s.drop_last()[i] == r[j];
            assert(s[i] == side_orders(s, side)[j]);
        }
    }
}

/// Taking one side keeps keys distinct.
proof fn lemma_side_distinct(s: Seq<Order>, side: OrderSide)
    requires
        crate::ordering::keys_distinct(s),
    ensures
        crate::ordering::keys_distinct(side_orders(s, side)),
    decreases s.len(),
{
    if s.len() > 0 {
        let d = s.drop_last();
        assert(crate::ordering::keys_distinct(d)) by {
            assert forall|i: int, j: int| 0 <= i < d.len() && 0 <= j < d.len() && i != j implies (d[i].sequence, d[i].id.0) != (d[j].sequence, d[j].id.0) by {
                assert(d[i] == s[i] && d[j] == s[j]);
            }
        }
        lemma_side_distinct(d, side);
        let r = side_orders(d, side);
        if s.last().side == side && s.last().order_type != OrderType::Cancel {
            let t = side_orders(s, side);
            assert forall|i: int, j: int| 0 <= i < t.len() && 0 <= j < t.len() && i != j implies (t[i].sequence, t[i].id.0) != (t[j].sequence, t[j].id.0) by {
                if i < r.len() && j < r.len() {
                    assert(t[i] == r[i] && t[j] == r[j]);
                } else if i < r.len() {
                    lemma_member_of_side(d, side, i);
                    let k = choose|k: int| 0 <= k < d.len() && d[k] == r[i];
                    assert(s[k] == t[i]);
                    assert(t[j] == s[s.len() - 1]);
                } else if j < r.len() {
                    lemma_member_of_side(d, side, j);
                    let k = choose|k: int| 0 <= k < d.len() && d[k] == r[j];
                    assert(s[k] == t[j]);
                    assert(t[i] == s[s.len() - 1]);
                }
            }
        }
    }
}

/// Matching a sealed buffer is deterministic: two results for the same
/// buffer, node and time have the same trades, clearing price and result
/// hash.
pub proof fn lemma_batch_result_determined(buffer: PendingBuffer, r1: BatchResult, r2: BatchResult, node: NodeId, at: i64)
    requires
        buffer.wf(),
        result_fits(r1, buffer, node, at),
        result_fits(r2, buffer, node, at),
    ensures
        r1.trades@ == r2.trades@,
        r1.remaining_orders@ == r2.remaining_orders@,
        r1.clearing_price == r2.clearing_price,
        r1.result_hash@ == r2.result_hash@,
        r1.input_hash == r2.input_hash,
{
    buffer.lemma_distinct_sequences();
    crate::ordering::lemma_keys_from_sequences(buffer.contents());
    lemma_side_distinct(buffer.contents(), OrderSide::Buy);
    lemma_side_distinct(buffer.contents(), OrderSide::Sell);
    lemma_trades_determined(
        buffer.contents(),
        AuctionOutcome { trades: r1.trades, remaining_orders: r1.remaining_orders, clearing_price: r1.clearing_price },
        AuctionOutcome { trades: r2.trades, remaining_orders: r2.remaining_orders, clearing_price: r2.clearing_price },
        buffer.epoch(),
        node,
        at,
    );
}

proof fn lemma_side_len(s: Seq<Order>)
    ensures
        side_orders(s, OrderSide::Buy).len() + side_orders(s, OrderSide::Sell).len() <= s.len(),
    decreases s.len(),
{
    if s.len() > 0 {
        lemma_side_len(s.drop_last());
    }
}

proof fn lemma_unfilled_positive(s: Seq<Order>)
    ensures
        forall|k: int| 0 <= k < unfilled(s).len() ==> (#[trigger] unfilled(s)[k]).remaining_qty@ > 0,
    decreases s.len(),
{
    if s.len() > 0 {
        lemma_unfilled_positive(s.drop_last());
        let r = unfilled(s.drop_last());
        if s.last().remaining_qty@ > 0 {
            assert forall|k: int| 0 <= k < unfilled(s).len() implies (#[trigger] unfilled(s)[k]).remaining_qty@ > 0 by {
                if k < r.len() {
                    assert(unfilled(s)[k] == r[k]);
                }
            }
        }
    }
}

/// `a` followed by `b`.
fn concat_orders(a: Vec<Order>, b: Vec<Order>) -> (r: Vec<Order>)
    ensures
        r@ == a@ + b@,
{
    let mut out = a;
    let mut rest = b;
    out.append(&mut rest);
    out
}

/// Result of one batch matching round.
pub struct BatchResult {
    /// The epoch that was matched.
    pub batch_id: EpochId,
    /// Trades produced.
    pub trades: Vec<Trade>,
    /// SHA-256 commitment over the trade output.
    pub result_hash: [u8; 32],
    /// The sealed buffer's batch hash.
    pub input_hash: [u8; 32],
    /// Orders left with quantity (or every order, when nothing crossed).
    pub remaining_orders: Vec<Order>,
    /// The uniform clearing price, if any.
    pub clearing_price: Option<Decimal>,
}

/// The deterministic batch matcher of one node.
#[derive(Clone, Copy, Debug)]
pub struct BatchMatcher {
    /// This node's identity, recorded in each trade.
    pub node_id: NodeId,
}

impl BatchMatcher {
    pub fn new(node_id: NodeId) -> (r: BatchMatcher)
        ensures
            r.node_id == node_id,
    {
        BatchMatcher { node_id }
    }

    /// Matches a sealed buffer, stamping trades with the current time.
    pub fn match_batch(&self, buffer: PendingBuffer) -> (r: Result<BatchResult>)
        requires
            buffer.wf(),
        ensures
            !buffer.sealed_flag() ==> r matches Err(OpenmatchError::MatchingFailed { .. }),
            buffer.sealed_flag() ==> (r is Ok <==> matchable_batch(buffer.contents())),
            r matches Ok(res) ==> exists|at: i64| result_fits(res, buffer, self.node_id, at),
    {
        let at = now_millis();
        self.match_batch_at(buffer, at)
    }

    /// Matches a sealed buffer, stamping trades with `executed_at`. The
    /// result depends on the buffer, this node and `executed_at` alone.
    pub fn match_batch_at(&self, buffer: PendingBuffer, executed_at: i64) -> (r: Result<BatchResult>)
        requires
            buffer.wf(),
        ensures
            !buffer.sealed_flag() ==> r matches Err(OpenmatchError::MatchingFailed { .. }),
            buffer.sealed_flag() ==> (r is Ok <==> matchable_batch(buffer.contents())),
            r matches Ok(res) ==> result_fits(res, buffer, self.node_id, executed_at),
    {
        let batch_id = buffer.batch_id();
        let (orders, input_hash) = match buffer.take_orders() {
            Ok(p) => p,
            Err(e) => {
                return Err(e);
            },
        };
        let outcome = match match_orders(batch_id, self.node_id, &orders, executed_at) {
            Ok(o) => o,
            Err(e) => {
                return Err(e);
            },
        };
        let result_hash = compute_result_hash(batch_id.0, &outcome.trades);
        Ok(BatchResult {
            batch_id,
            trades: outcome.trades,
            result_hash,
            input_hash,
            remaining_orders: outcome.remaining_orders,
            clearing_price: outcome.clearing_price,
        })
    }
}

/// What a batch result promises of the buffer it came from.
pub open spec fn result_fits(res: BatchResult, buffer: PendingBuffer, node: NodeId, at: i64) -> bool {
    &&& res.batch_id == buffer.epoch()
    &&& Some(res.input_hash) == buffer.committed_hash()
    &&& res.result_hash@ == sha256_of(result_preimage(buffer.epoch().0, res.trades@))
    &&& outcome_fits(
        AuctionOutcome {
            trades: res.trades,
            remaining_orders: res.remaining_orders,
            clearing_price: res.clearing_price,
        },
        buffer.contents(),
        buffer.epoch(),
        node,
        at,
    )
}

/// Matches a sealed batch into a trade bundle. Trades carry the all-zero
/// node key and the batch's seal time, so the bundle is a function of the
/// batch.
pub fn match_sealed_batch(batch: &SealedBatch) -> (r: Result<TradeBundle>)
    ensures
        r is Ok <==> matchable_batch(batch.orders@),
        r matches Ok(b) ==> bundle_fits(b, *batch),
{
    let node = NodeId(vstd::array::array_fill_for_copy_types::<u8, 32>(0u8));
    let outcome = match match_orders(batch.epoch_id, node, &batch.orders, batch.sealed_at) {
        Ok(o) => o,
        Err(e) => {
            return Err(e);
        },
    };
    let trade_root = compute_trade_root(&outcome.trades);
    Ok(TradeBundle {
        epoch_id: batch.epoch_id,
        trades: outcome.trades,
        trade_root,
        input_hash: batch.batch_hash,
        clearing_price: outcome.clearing_price,
        remaining_orders: outcome.remaining_orders,
    })
}

/// The all-zero node key.
pub open spec fn zero_node() -> NodeId {
    NodeId(vstd::array::spec_array_fill_for_copy_type::<u8, 32>(0u8))
}

/// Matching a sealed batch is deterministic: two bundles for the same batch
/// agree on everything.
pub proof fn lemma_bundle_determined(batch: SealedBatch, b1: TradeBundle, b2: TradeBundle)
    requires
        bundle_fits(b1, batch),
        bundle_fits(b2, batch),
        crate::ordering::keys_distinct(side_orders(batch.orders@, OrderSide::Buy)),
        crate::ordering::keys_distinct(side_orders(batch.orders@, OrderSide::Sell)),
    ensures
        b1.epoch_id == b2.epoch_id,
        b1.input_hash == b2.input_hash,
        b1.trades@ == b2.trades@,
        b1.remaining_orders@ == b2.remaining_orders@,
        b1.clearing_price == b2.clearing_price,
        b1.trade_root@ == b2.trade_root@,
{
    lemma_trades_determined(
        batch.orders@,
        AuctionOutcome { trades: b1.trades, remaining_orders: b1.remaining_orders, clearing_price: b1.clearing_price },
        AuctionOutcome { trades: b2.trades, remaining_orders: b2.remaining_orders, clearing_price: b2.clearing_price },
        batch.epoch_id,
        zero_node(),
        batch.sealed_at,
    );
}

/// What a trade bundle promises of the sealed batch it came from.
pub open spec fn bundle_fits(b: TradeBundle, batch: SealedBatch) -> bool {
    &&& b.epoch_id == batch.epoch_id
    &&& b.input_hash == batch.batch_hash
    &&& b.trade_root@ == sha256_of(root_preimage(b.trades@))
    &&& outcome_fits(
        AuctionOutcome {
            trades: b.trades,
            remaining_orders: b.remaining_orders,
            clearing_price: b.clearing_price,
        },
        batch.orders@,
        batch.epoch_id,
        zero_node(),
        batch.sealed_at,
    )
}

/// `t1` and `t2` differ at most in the matcher node and execution time.
pub open spec fn same_but_stamp(t1: Trade, t2: Trade) -> bool {
    t1 == Trade { matcher_node: t1.matcher_node, executed_at: t1.executed_at, ..t2 }
}

/// Two trade lists that agree except for matcher nodes and times.
pub open spec fn stamps_agree(s1: Seq<Trade>, s2: Seq<Trade>) -> bool {
    &&& s1.len() == s2.len()
    &&& forall|i: int| 0 <= i < s1.len() ==> same_but_stamp(#[trigger] s1[i], s2[i])
}

/// The fill walk does not depend on the node or the time, except in the
/// stamps of the trades.
proof fn lemma_walk_stamp_free(
    b: Seq<Order>,
    s: Seq<Order>,
    bi: int,
    si: int,
    t1: Seq<Trade>,
    t2: Seq<Trade>,
    inside: bool,
    cp: Decimal,
    epoch: EpochId,
    n1: NodeId,
    a1: i64,
    n2: NodeId,
    a2: i64,
)
    requires
        0 <= bi <= b.len(),
        0 <= si <= s.len(),
        stamps_agree(t1, t2),
    ensures
        walk(b, s, bi, si, t1, inside, cp, epoch, n1, a1).1 == walk(b, s, bi, si, t2, inside, cp, epoch, n2, a2).1,
        walk(b, s, bi, si, t1, inside, cp, epoch, n1, a1).2 == walk(b, s, bi, si, t2, inside, cp, epoch, n2, a2).2,
        stamps_agree(
            walk(b, s, bi, si, t1, inside, cp, epoch, n1, a1).0,
            walk(b, s, bi, si, t2, inside, cp, epoch, n2, a2).0,
        ),
    decreases b.len() - bi, if inside {
        s.len() - si + if 0 <= bi < b.len() && b[bi].remaining_qty@ > 0 { 1int } else { 0 }
    } else {
        s.len() + 2int
    },
{
    if bi >= b.len() {
    } else if !inside {
        if b[bi].remaining_qty@ == 0 {
            lemma_walk_stamp_free(b, s, bi + 1, si, t1, t2, false, cp, epoch, n1, a1, n2, a2);
        } else if effective_price_of(b[bi]) < cp@ {
        } else {
            lemma_walk_stamp_free(b, s, bi, si, t1, t2, true, cp, epoch, n1, a1, n2, a2);
        }
    } else if !(si < s.len() && b[bi].remaining_qty@ > 0) {
        lemma_walk_stamp_free(b, s, bi + 1, si, t1, t2, false, cp, epoch, n1, a1, n2, a2);
    } else if effective_price_of(s[si]) > cp@ {
        lemma_walk_stamp_free(b, s, bi + 1, si, t1, t2, false, cp, epoch, n1, a1, n2, a2);
    } else if s[si].remaining_qty@ == 0 {
        lemma_walk_stamp_free(b, s, bi, si + 1, t1, t2, true, cp, epoch, n1, a1, n2, a2);
    } else if b[bi].user_id == s[si].user_id {
        lemma_walk_stamp_free(b, s, bi, si + 1, t1, t2, true, cp, epoch, n1, a1, n2, a2);
    } else {
        let br = b[bi].remaining_qty@;
        let sr = s[si].remaining_qty@;
        let f = if br <= sr { br } else { sr };
        let nb = b.update(bi, with_remaining(b[bi], br - f));
        let ns = s.update(si, with_remaining(s[si], sr - f));
        let nt1 = t1.push(fill_trade(b[bi], s[si], cp, epoch, n1, a1, t1.len(), f));
        let nt2 = t2.push(fill_trade(b[bi], s[si], cp, epoch, n2, a2, t2.len(), f));
        assert(stamps_agree(nt1, nt2)) by {
            assert forall|i: int| 0 <= i < nt1.len() implies same_but_stamp(#[trigger] nt1[i], nt2[i]) by {
                if i < t1.len() {
                    assert(nt1[i] == t1[i] && nt2[i] == t2[i]);
                }
            }
        }
        if sr - f == 0 {
            lemma_walk_stamp_free(nb, ns, bi, si + 1, nt1, nt2, true, cp, epoch, n1, a1, n2, a2);
        } else {
            lemma_walk_stamp_free(nb, ns, bi, si, nt1, nt2, true, cp, epoch, n1, a1, n2, a2);
        }
    }
}

proof fn lemma_result_records_stamp_free(s1: Seq<Trade>, s2: Seq<Trade>)
    requires
        stamps_agree(s1, s2),
    ensures
        crate::commitments::result_records(s1) == crate::commitments::result_records(s2),
    decreases s1.len(),
{
    if s1.len() > 0 {
        assert(stamps_agree(s1.drop_last(), s2.drop_last())) by {
            assert forall|i: int| 0 <= i < s1.drop_last().len() implies same_but_stamp(#[trigger] s1.drop_last()[i], s2.drop_last()[i]) by {
                assert(s1.drop_last()[i] == s1[i] && s2.drop_last()[i] == s2[i]);
            }
        }
        lemma_result_records_stamp_free(s1.drop_last(), s2.drop_last());
        assert(same_but_stamp(s1[s1.len() - 1], s2[s2.len() - 1]));
    }
}

/// Matching is deterministic across nodes and times: on orders whose keys
/// are distinct on each side, two outcomes for the same epoch have the
/// same remaining orders and clearing price, and trades that differ at most
/// in the matcher node and execution time.
pub proof fn lemma_outcome_stamp_free(
    orders: Seq<Order>,
    o1: AuctionOutcome,
    o2: AuctionOutcome,
    epoch: EpochId,
    n1: NodeId,
    a1: i64,
    n2: NodeId,
    a2: i64,
)
    requires
        outcome_fits(o1, orders, epoch, n1, a1),
        outcome_fits(o2, orders, epoch, n2, a2),
        crate::ordering::keys_distinct(side_orders(orders, OrderSide::Buy)),
        crate::ordering::keys_distinct(side_orders(orders, OrderSide::Sell)),
    ensures
        stamps_agree(o1.trades@, o2.trades@),
        o1.remaining_orders@ == o2.remaining_orders@,
        o1.clearing_price == o2.clearing_price,
{
    let buys = side_orders(orders, OrderSide::Buy);
    let sells = side_orders(orders, OrderSide::Sell);
    if let Some(c1) = o1.clearing_price {
        let c2 = o2.clearing_price->0;
        crate::clearing::lemma_clearing_price_unique(buys, sells, c1@, c2@);
        let (b1, s1) = choose|bs: Seq<Order>, ss: Seq<Order>| #[trigger] sides_sorted(bs, ss, buys, sells)
            && walked(o1, bs, ss, c1, epoch, n1, a1);
        let (b2, s2) = choose|bs: Seq<Order>, ss: Seq<Order>| #[trigger] sides_sorted(bs, ss, buys, sells)
            && walked(o2, bs, ss, c2, epoch, n2, a2);
        crate::ordering::lemma_keys_perm(buys, b1);
        crate::ordering::lemma_keys_perm(sells, s1);
        crate::ordering::lemma_sorted_unique(SortRule::BuyPriority, b1, b2);
        crate::ordering::lemma_sorted_unique(SortRule::SellPriority, s1, s2);
        lemma_walk_stamp_free(b1, s1, 0, 0, Seq::<Trade>::empty(), Seq::<Trade>::empty(), false, c1, epoch, n1, a1, n2, a2);
    } else {
        let (b1, s1) = choose|bs: Seq<Order>, ss: Seq<Order>| #[trigger] sides_sorted(bs, ss, buys, sells)
            && o1.remaining_orders@ == bs + ss;
        let (b2, s2) = choose|bs: Seq<Order>, ss: Seq<Order>| #[trigger] sides_sorted(bs, ss, buys, sells)
            && o2.remaining_orders@ == bs + ss;
        crate::ordering::lemma_keys_perm(buys, b1);
        crate::ordering::lemma_keys_perm(sells, s1);
        crate::ordering::lemma_sorted_unique(SortRule::BuyPriority, b1, b2);
        crate::ordering::lemma_sorted_unique(SortRule::SellPriority, s1, s2);
    }
}

proof fn lemma_root_records_stamp_free(s1: Seq<Trade>, s2: Seq<Trade>)
    requires
        stamps_agree(s1, s2),
    ensures
        crate::commitments::root_records(s1) == crate::commitments::root_records(s2),
    decreases s1.len(),
{
    if s1.len() > 0 {
        assert(stamps_agree(s1.drop_last(), s2.drop_last())) by {
            assert forall|i: int| 0 <= i < s1.drop_last().len() implies same_but_stamp(#[trigger] s1.drop_last()[i], s2.drop_last()[i]) by {
                assert(s1.drop_last()[i] == s1[i] && s2.drop_last()[i] == s2[i]);
            }
        }
        lemma_root_records_stamp_free(s1.drop_last(), s2.drop_last());
        assert(same_but_stamp(s1[s1.len() - 1], s2[s2.len() - 1]));
    }
}

/// Matching a sealed buffer is deterministic across nodes and times: two
/// results for the same buffer have the same remaining orders, clearing
/// price and result hash, and trades that differ at most in the matcher
/// node and execution time.
pub proof fn lemma_batch_result_node_free(
    buffer: PendingBuffer,
    r1: BatchResult,
    r2: BatchResult,
    n1: NodeId,
    a1: i64,
    n2: NodeId,
    a2: i64,
)
    requires
        buffer.wf(),
        result_fits(r1, buffer, n1, a1),
        result_fits(r2, buffer, n2, a2),
    ensures
        stamps_agree(r1.trades@, r2.trades@),
        r1.remaining_orders@ == r2.remaining_orders@,
        r1.clearing_price == r2.clearing_price,
        r1.result_hash@ == r2.result_hash@,
        r1.input_hash == r2.input_hash,
{
    buffer.lemma_distinct_sequences();
    crate::ordering::lemma_keys_from_sequences(buffer.contents());
    lemma_side_distinct(buffer.contents(), OrderSide::Buy);
    lemma_side_distinct(buffer.contents(), OrderSide::Sell);
    lemma_outcome_stamp_free(
        buffer.contents(),
        AuctionOutcome { trades: r1.trades, remaining_orders: r1.remaining_orders, clearing_price: r1.clearing_price },
        AuctionOutcome { trades: r2.trades, remaining_orders: r2.remaining_orders, clearing_price: r2.clearing_price },
        buffer.epoch(),
        n1,
        a1,
        n2,
        a2,
    );
    lemma_result_records_stamp_free(r1.trades@, r2.trades@);
}

/// Matching sealed batches is deterministic: two batches of one epoch with
/// the same hash and the same orders, whose keys are distinct, give bundles
/// that agree on everything but the execution time of the trades.
pub proof fn lemma_bundles_agree(batch1: SealedBatch, batch2: SealedBatch, b1: TradeBundle, b2: TradeBundle)
    requires
        batch1.epoch_id == batch2.epoch_id,
        batch1.batch_hash == batch2.batch_hash,
        batch1.orders@ == batch2.orders@,
        crate::ordering::keys_distinct(batch1.orders@),
        bundle_fits(b1, batch1),
        bundle_fits(b2, batch2),
    ensures
        b1.epoch_id == b2.epoch_id,
        b1.input_hash == b2.input_hash,
        stamps_agree(b1.trades@, b2.trades@),
        forall|i: int| 0 <= i < b1.trades@.len() ==> (#[trigger] b1.trades@[i]).matcher_node == b2.trades@[i].matcher_node,
        b1.remaining_orders@ == b2.remaining_orders@,
        b1.clearing_price == b2.clearing_price,
        b1.trade_root@ == b2.trade_root@,
{
    lemma_side_distinct(batch1.orders@, OrderSide::Buy);
    lemma_side_distinct(batch1.orders@, OrderSide::Sell);
    let o1 = AuctionOutcome { trades: b1.trades, remaining_orders: b1.remaining_orders, clearing_price: b1.clearing_price };
    let o2 = AuctionOutcome { trades: b2.trades, remaining_orders: b2.remaining_orders, clearing_price: b2.clearing_price };
    lemma_outcome_stamp_free(batch1.orders@, o1, o2, batch1.epoch_id, zero_node(), batch1.sealed_at, zero_node(), batch2.sealed_at);
    lemma_root_records_stamp_free(b1.trades@, b2.trades@);
    if let Some(cp) = b1.clearing_price {
        assert forall|i: int| 0 <= i < b1.trades@.len() implies (#[trigger] b1.trades@[i]).matcher_node == b2.trades@[i].matcher_node by {
            assert(trade_fits(b1.trades@[i], i, cp, batch1.epoch_id, zero_node(), batch1.sealed_at));
            assert(trade_fits(b2.trades@[i], i, cp, batch1.epoch_id, zero_node(), batch2.sealed_at));
        }
    }
}

} // verus!
