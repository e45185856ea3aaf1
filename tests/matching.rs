use openmatch::buffer::PendingBuffer;
use openmatch::clearing::compute_clearing_price;
use openmatch::commitments::{compute_trade_root, verify_trade_root};
use openmatch::decimal::Decimal;
use openmatch::epoch::SealedBatch;
use openmatch::error::OpenmatchError;
use openmatch::ids::{EpochId, MarketPair, NodeId, OrderId, SpendRightId, UserId};
use openmatch::matcher::{match_sealed_batch, BatchMatcher};
use openmatch::order::{Order, OrderSide, OrderStatus, OrderType};

fn dec(n: i64) -> Decimal {
    Decimal::new(n, 0)
}

fn order_for(user_id: UserId, side: OrderSide, price: Decimal, qty: Decimal) -> Order {
    let (otype, oprice) = if price == Decimal::max_value() || price == Decimal::zero() {
        (OrderType::Market, None)
    } else {
        (OrderType::Limit, Some(price))
    };
    Order {
        id: OrderId::new(),
        user_id,
        market: MarketPair::new("BTC", "USDT"),
        side,
        order_type: otype,
        status: OrderStatus::Active,
        price: oprice,
        quantity: qty,
        remaining_qty: qty,
        sr_id: SpendRightId::new(),
        epoch_id: None,
        origin_node: NodeId([0u8; 32]),
        sequence: 0,
        created_at: 0,
        updated_at: 0,
    }
}

fn make_limit(side: OrderSide, price: i64, qty: i64) -> Order {
    order_for(UserId::new(), side, dec(price), dec(qty))
}

fn buy(price: i64, qty: i64) -> Order {
    make_limit(OrderSide::Buy, price, qty)
}

fn sell(price: i64, qty: i64) -> Order {
    make_limit(OrderSide::Sell, price, qty)
}

fn make_matcher() -> BatchMatcher {
    BatchMatcher::new(NodeId([1u8; 32]))
}

fn total_qty(trades: &[openmatch::trade::Trade]) -> i128 {
    trades.iter().map(|t| t.quantity.units).sum()
}

#[test]
fn no_overlap_returns_none() {
    let buys = vec![buy(10, 100)];
    let sells = vec![sell(20, 100)];
    assert!(compute_clearing_price(&buys, &sells).is_none());
}

#[test]
fn exact_match_single_price() {
    let buys = vec![buy(15, 100)];
    let sells = vec![sell(15, 100)];
    let result = compute_clearing_price(&buys, &sells).unwrap();
    assert_eq!(result.price, Decimal::new(15, 0));
    assert_eq!(result.volume, Decimal::new(100, 0));
}

#[test]
fn clearing_partial_fill() {
    let buys = vec![buy(15, 100)];
    let sells = vec![sell(10, 50)];
    let result = compute_clearing_price(&buys, &sells).unwrap();
    assert_eq!(result.volume, Decimal::new(50, 0));
}

#[test]
fn multi_level_clearing() {
    let buys = vec![buy(20, 50), buy(15, 50)];
    let sells = vec![sell(10, 30), sell(12, 30), sell(18, 40)];
    let result = compute_clearing_price(&buys, &sells).unwrap();
    assert_eq!(result.volume, Decimal::new(60, 0));
    assert_eq!(result.price, Decimal::new(15, 0));
}

#[test]
fn market_buy_order() {
    let market_buy = order_for(UserId::new(), OrderSide::Buy, Decimal::max_value(), dec(10));
    let buys = vec![market_buy];
    let sells = vec![sell(100, 10)];
    let result = compute_clearing_price(&buys, &sells).unwrap();
    assert_eq!(result.price, Decimal::new(100, 0));
    assert_eq!(result.volume, Decimal::new(10, 0));
}

#[test]
fn empty_buys_returns_none() {
    let sells = vec![sell(100, 10)];
    assert!(compute_clearing_price(&[], &sells).is_none());
}

#[test]
fn empty_sells_returns_none() {
    let buys = vec![buy(100, 10)];
    assert!(compute_clearing_price(&buys, &[]).is_none());
}

#[test]
fn single_buy_single_sell_crossing() {
    let buys = vec![buy(100, 5)];
    let sells = vec![sell(90, 3)];
    let result = compute_clearing_price(&buys, &sells).unwrap();
    assert_eq!(result.volume, Decimal::new(3, 0));
    assert_eq!(result.price, Decimal::new(100, 0));
}

#[test]
fn tie_break_smallest_imbalance() {
    let buys = vec![buy(20, 100), buy(10, 50)];
    let sells = vec![sell(15, 60), sell(25, 40)];
    let result = compute_clearing_price(&buys, &sells).unwrap();
    assert_eq!(result.volume, Decimal::new(60, 0));
    assert_eq!(result.price, Decimal::new(20, 0));
    assert_eq!(result.demand, Decimal::new(100, 0));
    assert_eq!(result.supply, Decimal::new(60, 0));
}

#[test]
fn batch_matcher_empty_batch_produces_no_trades() {
    let matcher = make_matcher();
    let mut buf = PendingBuffer::new(EpochId(1));
    buf.seal().unwrap();
    let result = matcher.match_batch(buf).unwrap();
    assert!(result.trades.is_empty());
    assert!(result.remaining_orders.is_empty());
    assert!(result.clearing_price.is_none());
    assert_ne!(result.input_hash, [0u8; 32]);
}

#[test]
fn batch_matcher_no_crossing_produces_no_trades() {
    let matcher = make_matcher();
    let mut buf = PendingBuffer::new(EpochId(1));
    buf.push(make_limit(OrderSide::Buy, 90, 10)).unwrap();
    buf.push(make_limit(OrderSide::Sell, 110, 10)).unwrap();
    buf.seal().unwrap();
    let result = matcher.match_batch(buf).unwrap();
    assert!(result.trades.is_empty());
    assert_eq!(result.remaining_orders.len(), 2);
    assert!(result.clearing_price.is_none());
}

#[test]
fn one_to_one_exact_match() {
    let matcher = make_matcher();
    let mut buf = PendingBuffer::new(EpochId(1));
    buf.push(make_limit(OrderSide::Buy, 100, 5)).unwrap();
    buf.push(make_limit(OrderSide::Sell, 100, 5)).unwrap();
    buf.seal().unwrap();
    let result = matcher.match_batch(buf).unwrap();
    assert_eq!(result.trades.len(), 1);
    assert_eq!(result.trades[0].price, dec(100));
    assert_eq!(result.trades[0].quantity, dec(5));
    assert_eq!(result.trades[0].quote_amount, dec(500));
    assert!(result.remaining_orders.is_empty());
}

#[test]
fn one_buy_multiple_sells() {
    let matcher = make_matcher();
    let mut buf = PendingBuffer::new(EpochId(1));
    buf.push(make_limit(OrderSide::Buy, 100, 10)).unwrap();
    buf.push(make_limit(OrderSide::Sell, 95, 3)).unwrap();
    buf.push(make_limit(OrderSide::Sell, 98, 4)).unwrap();
    buf.push(make_limit(OrderSide::Sell, 100, 5)).unwrap();
    buf.seal().unwrap();
    let result = matcher.match_batch(buf).unwrap();
    assert_eq!(total_qty(&result.trades), dec(10).units);
}

#[test]
fn multiple_buys_one_sell() {
    let matcher = make_matcher();
    let mut buf = PendingBuffer::new(EpochId(1));
    buf.push(make_limit(OrderSide::Buy, 105, 3)).unwrap();
    buf.push(make_limit(OrderSide::Buy, 102, 4)).unwrap();
    buf.push(make_limit(OrderSide::Buy, 100, 5)).unwrap();
    buf.push(make_limit(OrderSide::Sell, 100, 10)).unwrap();
    buf.seal().unwrap();
    let result = matcher.match_batch(buf).unwrap();
    assert_eq!(total_qty(&result.trades), dec(10).units);
}

#[test]
fn partial_fill_leaves_remainder() {
    let matcher = make_matcher();
    let mut buf = PendingBuffer::new(EpochId(1));
    buf.push(make_limit(OrderSide::Buy, 100, 10)).unwrap();
    buf.push(make_limit(OrderSide::Sell, 100, 3)).unwrap();
    buf.seal().unwrap();
    let result = matcher.match_batch(buf).unwrap();
    assert_eq!(result.trades.len(), 1);
    assert_eq!(result.trades[0].quantity, dec(3));
    assert_eq!(result.remaining_orders.len(), 1);
    assert_eq!(result.remaining_orders[0].remaining_qty, dec(7));
}

#[test]
fn price_time_priority() {
    let matcher = make_matcher();
    let mut buf = PendingBuffer::new(EpochId(1));
    let buy1 = make_limit(OrderSide::Buy, 100, 5);
    let buy1_id = buy1.id;
    buf.push(buy1).unwrap();
    let buy2 = make_limit(OrderSide::Buy, 100, 5);
    let buy2_id = buy2.id;
    buf.push(buy2).unwrap();
    buf.push(make_limit(OrderSide::Sell, 100, 3)).unwrap();
    buf.seal().unwrap();
    let result = matcher.match_batch(buf).unwrap();
    assert_eq!(result.trades.len(), 1);
    assert_eq!(result.trades[0].taker_order_id, buy1_id);
    let remaining_ids: Vec<OrderId> = result.remaining_orders.iter().map(|o| o.id).collect();
    assert!(remaining_ids.contains(&buy1_id));
    assert!(remaining_ids.contains(&buy2_id));
}

#[test]
fn cancel_orders_excluded() {
    let matcher = make_matcher();
    let mut buf = PendingBuffer::new(EpochId(1));
    buf.push(make_limit(OrderSide::Buy, 100, 5)).unwrap();
    let mut cancel = make_limit(OrderSide::Sell, 100, 5);
    cancel.order_type = OrderType::Cancel;
    buf.push(cancel).unwrap();
    buf.seal().unwrap();
    let result = matcher.match_batch(buf).unwrap();
    assert!(result.trades.is_empty());
}

#[test]
fn determinism_same_input_same_output() {
    let orders_template: Vec<(OrderSide, i64, i64)> = vec![
        (OrderSide::Buy, 100, 10),
        (OrderSide::Buy, 99, 5),
        (OrderSide::Sell, 98, 8),
        (OrderSide::Sell, 100, 12),
    ];
    let mut orders1 = Vec::new();
    let mut orders2 = Vec::new();
    for (side, price, qty) in &orders_template {
        let o = make_limit(*side, *price, *qty);
        orders1.push(o.clone());
        orders2.push(o);
    }
    let matcher = make_matcher();
    let mut buf1 = PendingBuffer::new(EpochId(42));
    for o in orders1 {
        buf1.push(o).unwrap();
    }
    buf1.seal().unwrap();
    let mut buf2 = PendingBuffer::new(EpochId(42));
    for o in orders2 {
        buf2.push(o).unwrap();
    }
    buf2.seal().unwrap();
    let result1 = matcher.match_batch(buf1).unwrap();
    let result2 = matcher.match_batch(buf2).unwrap();
    assert_eq!(result1.result_hash, result2.result_hash);
    assert_eq!(result1.trades.len(), result2.trades.len());
    for (t1, t2) in result1.trades.iter().zip(result2.trades.iter()) {
        assert_eq!(t1.id, t2.id);
        assert_eq!(t1.price, t2.price);
        assert_eq!(t1.quantity, t2.quantity);
    }
}

#[test]
fn uniform_clearing_price_applied() {
    let matcher = make_matcher();
    let mut buf = PendingBuffer::new(EpochId(1));
    buf.push(make_limit(OrderSide::Buy, 110, 5)).unwrap();
    buf.push(make_limit(OrderSide::Sell, 90, 5)).unwrap();
    buf.seal().unwrap();
    let result = matcher.match_batch(buf).unwrap();
    assert_eq!(result.trades.len(), 1);
    let cp = result.trades[0].price;
    assert!(cp >= dec(90) && cp <= dec(110));
    assert!(result.clearing_price.is_some());
}

#[test]
fn self_trade_blocked_same_user_both_sides() {
    let matcher = make_matcher();
    let attacker = UserId::new();
    let mut buf = PendingBuffer::new(EpochId(1));
    buf.push(order_for(attacker, OrderSide::Buy, dec(100), dec(5))).unwrap();
    buf.push(order_for(attacker, OrderSide::Sell, dec(100), dec(5))).unwrap();
    buf.seal().unwrap();
    let result = matcher.match_batch(buf).unwrap();
    assert!(result.trades.is_empty());
    assert_eq!(result.remaining_orders.len(), 2);
}

#[test]
fn self_trade_skipped_but_legitimate_trades_proceed() {
    let matcher = make_matcher();
    let attacker = UserId::new();
    let honest_seller = UserId::new();
    let mut buf = PendingBuffer::new(EpochId(1));
    buf.push(order_for(attacker, OrderSide::Buy, dec(100), dec(5))).unwrap();
    buf.push(order_for(attacker, OrderSide::Sell, dec(100), dec(5))).unwrap();
    buf.push(order_for(honest_seller, OrderSide::Sell, dec(100), dec(3))).unwrap();
    buf.seal().unwrap();
    let result = matcher.match_batch(buf).unwrap();
    assert_eq!(result.trades.len(), 1);
    assert_eq!(result.trades[0].quantity, dec(3));
    assert_eq!(result.trades[0].maker_user_id, honest_seller);
    assert_eq!(result.trades[0].taker_user_id, attacker);
}

#[test]
fn self_trade_deterministic_across_matchers() {
    let attacker = UserId::new();
    let honest = UserId::new();
    let orders = vec![
        order_for(attacker, OrderSide::Buy, dec(100), dec(10)),
        order_for(attacker, OrderSide::Sell, dec(100), dec(5)),
        order_for(honest, OrderSide::Sell, dec(100), dec(8)),
    ];
    let matcher_a = BatchMatcher::new(NodeId([1u8; 32]));
    let matcher_b = BatchMatcher::new(NodeId([2u8; 32]));
    let mut buf1 = PendingBuffer::new(EpochId(99));
    let mut buf2 = PendingBuffer::new(EpochId(99));
    for o in &orders {
        buf1.push(o.clone()).unwrap();
        buf2.push(o.clone()).unwrap();
    }
    buf1.seal().unwrap();
    buf2.seal().unwrap();
    let r1 = matcher_a.match_batch(buf1).unwrap();
    let r2 = matcher_b.match_batch(buf2).unwrap();
    assert_eq!(r1.trades.len(), r2.trades.len());
    for (t1, t2) in r1.trades.iter().zip(r2.trades.iter()) {
        assert_eq!(t1.id, t2.id);
        assert_eq!(t1.quantity, t2.quantity);
        assert_eq!(t1.taker_user_id, t2.taker_user_id);
        assert_eq!(t1.maker_user_id, t2.maker_user_id);
    }
    assert_eq!(r1.result_hash, r2.result_hash);
}

#[test]
fn result_hash_changes_with_different_input() {
    let matcher = make_matcher();
    let mut buf1 = PendingBuffer::new(EpochId(1));
    buf1.push(make_limit(OrderSide::Buy, 100, 5)).unwrap();
    buf1.push(make_limit(OrderSide::Sell, 100, 5)).unwrap();
    buf1.seal().unwrap();
    let mut buf2 = PendingBuffer::new(EpochId(1));
    buf2.push(make_limit(OrderSide::Buy, 100, 10)).unwrap();
    buf2.push(make_limit(OrderSide::Sell, 100, 10)).unwrap();
    buf2.seal().unwrap();
    let r1 = matcher.match_batch(buf1).unwrap();
    let r2 = matcher.match_batch(buf2).unwrap();
    assert_ne!(r1.result_hash, r2.result_hash);
}

#[test]
fn push_assigns_sequence() {
    let mut buf = PendingBuffer::new(EpochId(1));
    let s0 = buf.push(make_limit(OrderSide::Buy, 100, 1)).unwrap();
    let s1 = buf.push(make_limit(OrderSide::Sell, 101, 1)).unwrap();
    assert_eq!(s0, 0);
    assert_eq!(s1, 1);
    assert_eq!(buf.len(), 2);
    assert!(!buf.is_empty());
}

#[test]
fn seal_twice_rejected() {
    let mut buf = PendingBuffer::new(EpochId(1));
    buf.push(make_limit(OrderSide::Buy, 100, 1)).unwrap();
    let h = buf.seal().unwrap();
    assert!(buf.is_sealed());
    assert_eq!(buf.batch_hash(), Some(h));
    assert!(matches!(buf.seal(), Err(OpenmatchError::BufferAlreadySealed)));
    assert!(matches!(
        buf.push(make_limit(OrderSide::Buy, 100, 1)),
        Err(OpenmatchError::BufferAlreadySealed)
    ));
}

#[test]
fn take_orders_requires_seal() {
    let buf = PendingBuffer::new(EpochId(1));
    assert!(matches!(buf.take_orders(), Err(OpenmatchError::MatchingFailed { .. })));
    let matcher = make_matcher();
    let buf = PendingBuffer::new(EpochId(1));
    assert!(matches!(matcher.match_batch(buf), Err(OpenmatchError::MatchingFailed { .. })));
}

#[test]
fn seal_sorts_canonically() {
    let mut buf = PendingBuffer::new(EpochId(3));
    buf.push(make_limit(OrderSide::Sell, 105, 1)).unwrap();
    buf.push(make_limit(OrderSide::Buy, 99, 1)).unwrap();
    buf.push(make_limit(OrderSide::Sell, 101, 1)).unwrap();
    buf.push(make_limit(OrderSide::Buy, 100, 1)).unwrap();
    buf.push(make_limit(OrderSide::Buy, 100, 2)).unwrap();
    let h = buf.seal().unwrap();
    let (orders, hash) = buf.take_orders().unwrap();
    assert_eq!(h, hash);
    let summary: Vec<(OrderSide, i128, u64)> = orders
        .iter()
        .map(|o| (o.side, o.effective_price().units, o.sequence))
        .collect();
    assert_eq!(
        summary,
        vec![
            (OrderSide::Buy, dec(100).units, 3),
            (OrderSide::Buy, dec(100).units, 4),
            (OrderSide::Buy, dec(99).units, 1),
            (OrderSide::Sell, dec(101).units, 2),
            (OrderSide::Sell, dec(105).units, 0),
        ]
    );
    assert!(orders.iter().all(|o| o.epoch_id == Some(EpochId(3))));
}

#[test]
fn sealing_is_deterministic_across_push_order() {
    let a = make_limit(OrderSide::Buy, 100, 1);
    let b = make_limit(OrderSide::Sell, 101, 2);
    let mut buf1 = PendingBuffer::new(EpochId(8));
    buf1.push(a.clone()).unwrap();
    buf1.push(b.clone()).unwrap();
    let mut buf2 = PendingBuffer::new(EpochId(8));
    buf2.push(a).unwrap();
    buf2.push(b).unwrap();
    assert_eq!(buf1.seal().unwrap(), buf2.seal().unwrap());
    let mut buf3 = PendingBuffer::new(EpochId(9));
    buf3.push(make_limit(OrderSide::Buy, 100, 1)).unwrap();
    let mut buf4 = PendingBuffer::new(EpochId(10));
    buf4.push(make_limit(OrderSide::Buy, 100, 1)).unwrap();
    assert_ne!(buf3.seal().unwrap(), buf4.seal().unwrap());
}

#[test]
fn deterministic_ids_across_nodes() {
    let seller = UserId::from_bytes([7; 16]);
    let buyer = UserId::from_bytes([8; 16]);
    let mut o1 = order_for(buyer, OrderSide::Buy, dec(100), dec(4));
    o1.id = OrderId::from_bytes([1; 16]);
    let mut o2 = order_for(seller, OrderSide::Sell, dec(100), dec(4));
    o2.id = OrderId::from_bytes([2; 16]);
    let batch = |orders: Vec<Order>| {
        let mut buf = PendingBuffer::new(EpochId(99));
        for o in orders {
            buf.push(o).unwrap();
        }
        buf.seal().unwrap();
        buf
    };
    let r1 = BatchMatcher::new(NodeId([1; 32]))
        .match_batch_at(batch(vec![o1.clone(), o2.clone()]), 5)
        .unwrap();
    let r2 = BatchMatcher::new(NodeId([2; 32]))
        .match_batch_at(batch(vec![o1, o2]), 5)
        .unwrap();
    assert_eq!(r1.trades.len(), 1);
    assert_eq!(r1.trades[0].id, r2.trades[0].id);
    assert_eq!(r1.trades[0].id, openmatch::ids::TradeId::deterministic(99, 0));
    assert_eq!(r1.result_hash, r2.result_hash);
    assert_eq!(compute_trade_root(&r1.trades), compute_trade_root(&r2.trades));
    assert!(verify_trade_root(&r1.trades, &compute_trade_root(&r2.trades)));
}

#[test]
fn sealed_batch_bundle() {
    let orders = vec![
        order_for(UserId::new(), OrderSide::Buy, dec(100), dec(5)),
        order_for(UserId::new(), OrderSide::Sell, dec(100), dec(2)),
    ];
    let batch = SealedBatch {
        epoch_id: EpochId(4),
        orders,
        batch_hash: [42u8; 32],
        sealed_at: 1,
        sealer_node: NodeId([0; 32]),
    };
    let bundle = match_sealed_batch(&batch).unwrap();
    assert_eq!(bundle.input_hash, [42u8; 32]);
    assert_eq!(bundle.trades.len(), 1);
    assert_eq!(bundle.trades[0].quantity, dec(2));
    assert_eq!(bundle.clearing_price, Some(dec(100)));
    assert_ne!(bundle.trade_root, [0u8; 32]);
    assert!(verify_trade_root(&bundle.trades, &bundle.trade_root));
    assert!(!verify_trade_root(&bundle.trades, &[0u8; 32]));
    assert_eq!(bundle.remaining_orders.len(), 1);
    assert_eq!(bundle.remaining_orders[0].remaining_qty, dec(3));
}

#[test]
fn near_overflow_quote_saturates() {
    let huge = Decimal::from_units(i128::MAX / 2);
    let mut buf = PendingBuffer::new(EpochId(1));
    buf.push(order_for(UserId::new(), OrderSide::Buy, huge, dec(4))).unwrap();
    buf.push(order_for(UserId::new(), OrderSide::Sell, huge, dec(4))).unwrap();
    buf.seal().unwrap();
    let r = make_matcher().match_batch(buf).unwrap();
    assert_eq!(r.trades.len(), 1);
    assert_eq!(r.trades[0].quote_amount, Decimal::max_value());
}

#[test]
fn negative_quantity_rejected() {
    let mut o = make_limit(OrderSide::Buy, 100, 5);
    o.remaining_qty = dec(-1);
    let mut buf = PendingBuffer::new(EpochId(1));
    buf.push(o).unwrap();
    buf.seal().unwrap();
    assert!(matches!(make_matcher().match_batch(buf), Err(OpenmatchError::MatchingFailed { .. })));
}

#[test]
fn traded_volume_bounded_by_demand_and_supply() {
    let mut buf = PendingBuffer::new(EpochId(1));
    buf.push(make_limit(OrderSide::Buy, 20, 100)).unwrap();
    buf.push(make_limit(OrderSide::Buy, 10, 50)).unwrap();
    buf.push(make_limit(OrderSide::Sell, 15, 60)).unwrap();
    buf.push(make_limit(OrderSide::Sell, 25, 40)).unwrap();
    buf.seal().unwrap();
    let r = make_matcher().match_batch(buf).unwrap();
    assert_eq!(r.clearing_price, Some(dec(20)));
    assert_eq!(total_qty(&r.trades), dec(60).units);
    for t in &r.trades {
        assert_eq!(t.price, dec(20));
        assert_ne!(t.taker_user_id, t.maker_user_id);
    }
}

#[test]
fn seal_sorts_deterministically() {
    let orders = vec![
        make_limit(OrderSide::Sell, 105, 1),
        make_limit(OrderSide::Buy, 100, 1),
        make_limit(OrderSide::Buy, 102, 1),
        make_limit(OrderSide::Sell, 103, 1),
    ];
    let mut buf1 = PendingBuffer::new(EpochId(1));
    let mut buf2 = PendingBuffer::new(EpochId(1));
    for o in &orders {
        buf1.push(o.clone()).unwrap();
    }
    for o in orders.iter().rev() {
        buf2.push(o.clone()).unwrap();
    }
    buf1.seal().unwrap();
    buf2.seal().unwrap();
    let (orders1, _) = buf1.take_orders().unwrap();
    let (orders2, _) = buf2.take_orders().unwrap();
    assert_eq!(orders1[0].side, OrderSide::Buy);
    assert_eq!(orders1[0].effective_price(), dec(102));
    assert_eq!(orders1[1].side, OrderSide::Buy);
    assert_eq!(orders1[1].effective_price(), dec(100));
    assert_eq!(orders1[2].side, OrderSide::Sell);
    assert_eq!(orders1[2].effective_price(), dec(103));
    assert_eq!(orders1[3].side, OrderSide::Sell);
    assert_eq!(orders1[3].effective_price(), dec(105));
    for i in 0..4 {
        assert_eq!(orders1[i].side, orders2[i].side);
        assert_eq!(orders1[i].effective_price(), orders2[i].effective_price());
    }
}

#[test]
fn seal_produces_consistent_hash() {
    let mut buf = PendingBuffer::new(EpochId(42));
    let o1 = make_limit(OrderSide::Buy, 100, 1);
    let o2 = make_limit(OrderSide::Sell, 101, 1);
    buf.push(o1.clone()).unwrap();
    buf.push(o2.clone()).unwrap();
    let hash1 = buf.seal().unwrap();
    let mut buf2 = PendingBuffer::new(EpochId(42));
    buf2.push(o1).unwrap();
    buf2.push(o2).unwrap();
    let hash2 = buf2.seal().unwrap();
    assert_eq!(hash1, hash2);
}

#[test]
fn take_orders_before_seal_fails() {
    let buf = PendingBuffer::new(EpochId(1));
    assert!(buf.take_orders().is_err());
}

#[test]
fn empty_buffer() {
    let buf = PendingBuffer::new(EpochId(1));
    assert!(buf.is_empty());
    assert_eq!(buf.len(), 0);
    assert!(!buf.is_sealed());
    assert_eq!(buf.batch_hash(), None);
    assert_eq!(buf.batch_id(), EpochId(1));
}

#[test]
fn empty_buffer_can_seal() {
    let mut buf = PendingBuffer::new(EpochId(1));
    let hash = buf.seal().unwrap();
    assert!(buf.is_sealed());
    assert_eq!(buf.batch_hash(), Some(hash));
    let (orders, _) = buf.take_orders().unwrap();
    assert!(orders.is_empty());
}

#[test]
fn self_trade_skip_continues_matching() {
    let user_a = UserId::new();
    let user_b = UserId::new();
    let mut sell = Order::dummy_limit(OrderSide::Sell, dec(100), Decimal::one());
    sell.user_id = user_a;
    sell.sequence = 0;
    let mut buy_self = Order::dummy_limit(OrderSide::Buy, dec(100), Decimal::one());
    buy_self.user_id = user_a;
    buy_self.sequence = 1;
    let mut buy_other = Order::dummy_limit(OrderSide::Buy, dec(100), Decimal::one());
    buy_other.user_id = user_b;
    buy_other.sequence = 2;
    let batch = SealedBatch {
        epoch_id: EpochId(1),
        orders: vec![sell, buy_self, buy_other],
        batch_hash: [0u8; 32],
        sealed_at: 0,
        sealer_node: NodeId([0u8; 32]),
    };
    let bundle = match_sealed_batch(&batch).unwrap();
    for trade in &bundle.trades {
        assert_ne!(trade.taker_user_id, trade.maker_user_id);
    }
}
