use openmatch::agent::{AgentId, RiskDecision, RiskLimits};
use openmatch::balance::BalanceEntry;
use openmatch::decimal::Decimal;
use openmatch::epoch::SealedBatch;
use openmatch::error::OpenmatchError;
use openmatch::escrow::EscrowManager;
use openmatch::freeze::FreezeProof;
use openmatch::ids::{EpochId, MarketPair, NodeId, OrderId, SpendRightId, TradeId, UserId};
use openmatch::ledger::BalanceManager;
use openmatch::matcher::match_sealed_batch;
use openmatch::order::{Order, OrderSide, OrderType};
use openmatch::sealer::BatchSealer;
use openmatch::spend_right::{SpendRight, SpendRightState};
use openmatch::trade::Trade;

fn dec(n: i64) -> Decimal {
    Decimal::new(n, 0)
}

fn make_sealer() -> BatchSealer {
    BatchSealer::new(NodeId([0u8; 32]))
}

#[test]
fn seal_sorts_by_sequence() {
    // The seal order is the canonical one: buys by descending price, then
    // sells by ascending price, sequence breaking ties.
    let sealer = make_sealer();
    let mut o1 = Order::dummy_limit(OrderSide::Buy, Decimal::new(100, 0), Decimal::one());
    o1.sequence = 2;
    let mut o2 = Order::dummy_limit(OrderSide::Sell, Decimal::new(101, 0), Decimal::one());
    o2.sequence = 0;
    let mut o3 = Order::dummy_limit(OrderSide::Buy, Decimal::new(99, 0), Decimal::one());
    o3.sequence = 1;
    let batch = sealer.seal(EpochId(1), vec![o1, o2, o3]);
    assert_eq!(batch.orders[0].sequence, 2);
    assert_eq!(batch.orders[1].sequence, 1);
    assert_eq!(batch.orders[2].sequence, 0);
}

#[test]
fn batch_hash_is_deterministic() {
    let sealer = make_sealer();
    let orders = vec![
        Order::dummy_limit(OrderSide::Buy, Decimal::new(100, 0), Decimal::one()),
        Order::dummy_limit(OrderSide::Sell, Decimal::new(101, 0), Decimal::one()),
    ];
    let batch1 = sealer.seal(EpochId(1), orders.clone());
    let batch2 = sealer.seal(EpochId(1), orders);
    assert_eq!(batch1.batch_hash, batch2.batch_hash);
}

#[test]
fn different_epochs_different_hash() {
    let sealer = make_sealer();
    let orders = vec![Order::dummy_limit(OrderSide::Buy, Decimal::new(100, 0), Decimal::one())];
    let batch1 = sealer.seal(EpochId(1), orders.clone());
    let batch2 = sealer.seal(EpochId(2), orders);
    assert_ne!(batch1.batch_hash, batch2.batch_hash);
}

#[test]
fn verify_batch_hash_passes() {
    let sealer = make_sealer();
    let batch = sealer.seal(EpochId(1), vec![Order::dummy_limit(OrderSide::Buy, Decimal::new(100, 0), Decimal::one())]);
    assert!(BatchSealer::verify_batch_hash(&batch));
}

#[test]
fn tampered_batch_hash_fails() {
    let sealer = make_sealer();
    let mut batch = sealer.seal(EpochId(1), vec![Order::dummy_limit(OrderSide::Buy, Decimal::new(100, 0), Decimal::one())]);
    batch.batch_hash[0] ^= 0xFF;
    assert!(!BatchSealer::verify_batch_hash(&batch));
}

#[test]
fn digest_matches_batch() {
    let sealer = make_sealer();
    let orders = vec![
        Order::dummy_limit(OrderSide::Buy, Decimal::new(100, 0), Decimal::one()),
        Order::dummy_limit(OrderSide::Sell, Decimal::new(101, 0), Decimal::one()),
    ];
    let batch = sealer.seal(EpochId(5), orders);
    let digest = sealer.digest(&batch);
    assert_eq!(digest.epoch_id, batch.epoch_id);
    assert_eq!(digest.batch_hash, batch.batch_hash);
    assert_eq!(digest.order_count, 2);
}

fn funded(amount: i64) -> (BalanceManager, UserId) {
    let mut bm = BalanceManager::new();
    let user = UserId::new();
    bm.deposit(&user, "USDT", dec(amount)).unwrap();
    (bm, user)
}

#[test]
fn mint_freezes_and_creates_sr() {
    let (mut bm, user) = funded(10000);
    let mut escrow = EscrowManager::new(NodeId([0u8; 32]));
    let sr_id = escrow.mint(&mut bm, OrderId::new(), user, "USDT", dec(5000), EpochId(1)).unwrap();
    assert_eq!(bm.get(&user, "USDT").available, dec(5000));
    assert_eq!(bm.get(&user, "USDT").frozen, dec(5000));
    assert!(escrow.is_active(&sr_id));
    assert_eq!(escrow.count(), 1);
}

#[test]
fn mint_fails_insufficient_balance() {
    let (mut bm, user) = funded(100);
    let mut escrow = EscrowManager::new(NodeId([0u8; 32]));
    assert!(escrow.mint(&mut bm, OrderId::new(), user, "USDT", dec(200), EpochId(1)).is_err());
    assert_eq!(escrow.count(), 0);
}

#[test]
fn mark_spent_transitions_state() {
    let (mut bm, user) = funded(10000);
    let mut escrow = EscrowManager::new(NodeId([0u8; 32]));
    let sr_id = escrow.mint(&mut bm, OrderId::new(), user, "USDT", dec(1000), EpochId(1)).unwrap();
    escrow.mark_spent(sr_id).unwrap();
    assert_eq!(escrow.get(&sr_id).unwrap().state, SpendRightState::Spent);
    assert!(!escrow.is_active(&sr_id));
}

#[test]
fn spent_cannot_be_released() {
    let (mut bm, user) = funded(10000);
    let mut escrow = EscrowManager::new(NodeId([0u8; 32]));
    let sr_id = escrow.mint(&mut bm, OrderId::new(), user, "USDT", dec(1000), EpochId(1)).unwrap();
    escrow.mark_spent(sr_id).unwrap();
    assert!(escrow.release(&mut bm, sr_id).is_err());
}

#[test]
fn nonexistent_sr_errors() {
    let (mut bm, _) = funded(1);
    let mut escrow = EscrowManager::new(NodeId([0u8; 32]));
    let fake = SpendRightId::new();
    assert!(escrow.release(&mut bm, fake).is_err());
    assert!(escrow.mark_spent(fake).is_err());
}

#[test]
fn deposit_increases_available() {
    let mut bm = BalanceManager::new();
    let user = UserId::new();
    bm.deposit(&user, "USDT", dec(1000)).unwrap();
    assert_eq!(bm.get(&user, "USDT").available, dec(1000));
    assert_eq!(bm.get(&user, "USDT").frozen, Decimal::zero());
}

#[test]
fn freeze_moves_to_frozen() {
    let mut bm = BalanceManager::new();
    let user = UserId::new();
    bm.deposit(&user, "USDT", dec(1000)).unwrap();
    bm.freeze(&user, "USDT", dec(400)).unwrap();
    assert_eq!(bm.get(&user, "USDT").available, dec(600));
    assert_eq!(bm.get(&user, "USDT").frozen, dec(400));
}

#[test]
fn freeze_insufficient_fails() {
    let mut bm = BalanceManager::new();
    let user = UserId::new();
    bm.deposit(&user, "USDT", dec(100)).unwrap();
    assert!(matches!(bm.freeze(&user, "USDT", dec(200)), Err(OpenmatchError::InsufficientBalance { .. })));
}

#[test]
fn unfreeze_restores_available() {
    let mut bm = BalanceManager::new();
    let user = UserId::new();
    bm.deposit(&user, "USDT", dec(1000)).unwrap();
    bm.freeze(&user, "USDT", dec(400)).unwrap();
    bm.unfreeze(&user, "USDT", dec(400)).unwrap();
    assert_eq!(bm.get(&user, "USDT").available, dec(1000));
    assert_eq!(bm.get(&user, "USDT").frozen, Decimal::zero());
}

#[test]
fn consume_frozen_reduces_frozen() {
    let mut bm = BalanceManager::new();
    let user = UserId::new();
    bm.deposit(&user, "BTC", dec(10)).unwrap();
    bm.freeze(&user, "BTC", dec(5)).unwrap();
    bm.consume_frozen(&user, "BTC", dec(3)).unwrap();
    assert_eq!(bm.get(&user, "BTC").frozen, dec(2));
    assert_eq!(bm.get(&user, "BTC").available, dec(5));
}

#[test]
fn credit_adds_to_available() {
    let mut bm = BalanceManager::new();
    let user = UserId::new();
    bm.credit(&user, "ETH", dec(7)).unwrap();
    assert_eq!(bm.get(&user, "ETH").available, dec(7));
}

#[test]
fn total_supply_sums_all_users() {
    let mut bm = BalanceManager::new();
    let a = UserId::new();
    let b = UserId::new();
    bm.deposit(&a, "BTC", dec(3)).unwrap();
    bm.deposit(&b, "BTC", dec(4)).unwrap();
    bm.freeze(&b, "BTC", dec(1)).unwrap();
    assert_eq!(bm.total_supply("BTC"), Some(dec(7)));
}

#[test]
fn nonexistent_balance_is_zero() {
    let bm = BalanceManager::new();
    let bal = bm.get(&UserId::new(), "BTC");
    assert!(bal.is_zero());
}

#[test]
fn nonexistent_user_returns_zero() {
    let mut bm = BalanceManager::new();
    bm.deposit(&UserId::new(), "BTC", dec(1)).unwrap();
    let bal = bm.get(&UserId::new(), "BTC");
    assert_eq!(bal.available, Decimal::zero());
    assert_eq!(bal.frozen, Decimal::zero());
}

#[test]
fn user_balances_query() {
    let mut bm = BalanceManager::new();
    let user = UserId::new();
    bm.deposit(&user, "BTC", dec(1)).unwrap();
    bm.deposit(&user, "USDT", dec(5000)).unwrap();
    let balances = bm.user_balances(&user);
    assert_eq!(balances.len(), 2);
}

#[test]
fn balance_entry_default_is_zero() {
    let entry = BalanceEntry::default();
    assert_eq!(entry.available, Decimal::zero());
    assert_eq!(entry.frozen, Decimal::zero());
    assert!(entry.is_zero());
}

#[test]
fn balance_entry_total() {
    let entry = BalanceEntry { available: Decimal::new(100, 0), frozen: Decimal::new(50, 0) };
    assert_eq!(entry.total(), Decimal::new(150, 0));
    assert!(!entry.is_zero());
}

fn make_proof() -> FreezeProof {
    FreezeProof::dummy(OrderId::new(), UserId::new(), "USDT", Decimal::new(10000, 2))
}

#[test]
fn is_expired_future() {
    let proof = make_proof();
    assert!(!proof.is_expired());
}

#[test]
fn is_expired_past() {
    let mut proof = make_proof();
    proof.expires_at = proof.created_at - 1000;
    assert!(proof.is_expired());
}

#[test]
fn order_id_timestamp_extraction() {
    let before = std::time::SystemTime::now().duration_since(std::time::UNIX_EPOCH).unwrap().as_millis() as u64;
    let id = OrderId::new();
    let after = std::time::SystemTime::now().duration_since(std::time::UNIX_EPOCH).unwrap().as_millis() as u64;
    let ts = id.timestamp_ms();
    assert!(ts >= before && ts <= after, "ts={ts}, before={before}, after={after}");
}

#[test]
fn spend_right_id_uniqueness() {
    assert_ne!(SpendRightId::new(), SpendRightId::new());
}

#[test]
fn fill_tracking() {
    let mut order = Order::dummy_limit(OrderSide::Buy, Decimal::new(100, 0), Decimal::new(10, 0));
    assert_eq!(order.filled_qty(), Decimal::zero());
    assert!(!order.is_filled());
    order.remaining_qty = Decimal::new(4, 0);
    assert_eq!(order.filled_qty(), Decimal::new(6, 0));
    assert_eq!(order.fill_ratio(), Decimal::new(6, 1));
    order.remaining_qty = Decimal::zero();
    assert!(order.is_filled());
    assert_eq!(order.fill_ratio(), Decimal::one());
    assert!(order.is_matchable_at(&Decimal::new(100, 0)));
    assert!(!order.is_matchable_at(&Decimal::new(101, 0)));
}

#[test]
fn default_risk_limits_are_conservative() {
    let limits = RiskLimits::default();
    assert!(!limits.allow_market_orders);
    assert_eq!(limits.max_open_orders, 50);
    assert_eq!(limits.max_total_exposure, Decimal::new(10_000, 0));
    assert!(limits.min_available_reserve > Decimal::zero());
}

#[test]
fn risk_decision_approved() {
    let d = RiskDecision::Approved;
    assert_eq!(d, RiskDecision::Approved);
}

#[test]
fn agent_id_uniqueness() {
    assert_ne!(AgentId::new(), AgentId::new());
}

fn make_sr() -> SpendRight {
    SpendRight::dummy(OrderId::new(), UserId::new(), "USDT", Decimal::new(10000, 2), EpochId(1), 3)
}

#[test]
fn mark_released_from_active() {
    let mut sr = make_sr();
    assert!(sr.mark_released().is_ok());
    assert_eq!(sr.state, SpendRightState::Released);
}

#[test]
fn spend_right_signing_payload_deterministic() {
    let sr = make_sr();
    assert_eq!(sr.signing_payload(), sr.signing_payload());
}

#[test]
fn spend_right_signing_payload_differs_by_nonce() {
    let mut a = make_sr();
    a.nonce = 1;
    let mut b = a.clone();
    b.nonce = 2;
    assert_ne!(a.signing_payload(), b.signing_payload());
}

#[test]
fn is_active_when_not_expired() {
    let sr = make_sr();
    assert!(sr.is_active());
    assert!(!sr.is_expired());
}

fn make_trade() -> Trade {
    Trade {
        id: TradeId::deterministic(1, 0),
        epoch_id: EpochId(1),
        market: MarketPair::new("BTC", "USDT"),
        taker_order_id: OrderId::new(),
        taker_user_id: UserId::new(),
        maker_order_id: OrderId::new(),
        maker_user_id: UserId::new(),
        price: Decimal::new(50000, 0),
        quantity: Decimal::new(1, 0),
        quote_amount: Decimal::new(50000, 0),
        taker_side: OrderSide::Buy,
        matcher_node: NodeId([0u8; 32]),
        executed_at: 0,
    }
}

#[test]
fn trade_notional() {
    assert_eq!(make_trade().notional(), Decimal::new(50000, 0));
}

#[test]
fn trade_taker_side() {
    assert!(make_trade().taker_is_buyer());
}

fn make_sealed_batch(orders: Vec<Order>) -> SealedBatch {
    SealedBatch { epoch_id: EpochId(1), orders, batch_hash: [0u8; 32], sealed_at: 0, sealer_node: NodeId([0u8; 32]) }
}

#[test]
fn matcher_empty_batch_produces_no_trades() {
    let bundle = match_sealed_batch(&make_sealed_batch(vec![])).unwrap();
    assert!(bundle.trades.is_empty());
    assert!(bundle.clearing_price.is_none());
    assert_eq!(bundle.epoch_id, EpochId(1));
}

#[test]
fn matcher_no_crossing_produces_no_trades() {
    let bundle = match_sealed_batch(&make_sealed_batch(vec![
        Order::dummy_limit(OrderSide::Buy, Decimal::new(99, 0), Decimal::one()),
        Order::dummy_limit(OrderSide::Sell, Decimal::new(101, 0), Decimal::one()),
    ]))
    .unwrap();
    assert!(bundle.trades.is_empty());
    assert!(bundle.clearing_price.is_none());
    assert_eq!(bundle.remaining_orders.len(), 2);
}

#[test]
fn simple_crossing_produces_trade() {
    let bundle = match_sealed_batch(&make_sealed_batch(vec![
        Order::dummy_limit(OrderSide::Buy, Decimal::new(100, 0), Decimal::one()),
        Order::dummy_limit(OrderSide::Sell, Decimal::new(100, 0), Decimal::one()),
    ]))
    .unwrap();
    assert_eq!(bundle.trades.len(), 1);
    assert!(bundle.clearing_price.is_some());
    assert_eq!(bundle.trades[0].quantity, Decimal::one());
    assert_eq!(bundle.trades[0].price, Decimal::new(100, 0));
}

#[test]
fn self_trade_prevention() {
    let user = UserId::new();
    let mut buy = Order::dummy_limit(OrderSide::Buy, Decimal::new(100, 0), Decimal::one());
    buy.user_id = user;
    let mut sell = Order::dummy_limit(OrderSide::Sell, Decimal::new(100, 0), Decimal::one());
    sell.user_id = user;
    let bundle = match_sealed_batch(&make_sealed_batch(vec![buy, sell])).unwrap();
    assert!(bundle.trades.is_empty());
}

#[test]
fn matcher_partial_fill() {
    let bundle = match_sealed_batch(&make_sealed_batch(vec![
        Order::dummy_limit(OrderSide::Buy, Decimal::new(100, 0), Decimal::new(5, 0)),
        Order::dummy_limit(OrderSide::Sell, Decimal::new(100, 0), Decimal::new(3, 0)),
    ]))
    .unwrap();
    assert_eq!(bundle.trades.len(), 1);
    assert_eq!(bundle.trades[0].quantity, Decimal::new(3, 0));
    assert!(bundle.remaining_orders.iter().any(|o| o.side == OrderSide::Buy));
}

#[test]
fn multiple_fills() {
    let bundle = match_sealed_batch(&make_sealed_batch(vec![
        Order::dummy_limit(OrderSide::Buy, Decimal::new(100, 0), Decimal::new(3, 0)),
        Order::dummy_limit(OrderSide::Sell, Decimal::new(100, 0), Decimal::one()),
        Order::dummy_limit(OrderSide::Sell, Decimal::new(100, 0), Decimal::one()),
        Order::dummy_limit(OrderSide::Sell, Decimal::new(100, 0), Decimal::one()),
    ]))
    .unwrap();
    assert_eq!(bundle.trades.len(), 3);
    let total: i128 = bundle.trades.iter().map(|t| t.quantity.units).sum();
    assert_eq!(total, Decimal::new(3, 0).units);
}

#[test]
fn trade_ids_are_deterministic() {
    let orders = vec![
        Order::dummy_limit(OrderSide::Buy, Decimal::new(100, 0), Decimal::one()),
        Order::dummy_limit(OrderSide::Sell, Decimal::new(100, 0), Decimal::one()),
    ];
    let bundle1 = match_sealed_batch(&make_sealed_batch(orders.clone())).unwrap();
    let bundle2 = match_sealed_batch(&make_sealed_batch(orders)).unwrap();
    assert_eq!(bundle1.trades.len(), bundle2.trades.len());
    for (t1, t2) in bundle1.trades.iter().zip(bundle2.trades.iter()) {
        assert_eq!(t1.id, t2.id);
    }
}

#[test]
fn trade_root_is_set() {
    let bundle = match_sealed_batch(&make_sealed_batch(vec![
        Order::dummy_limit(OrderSide::Buy, Decimal::new(100, 0), Decimal::one()),
        Order::dummy_limit(OrderSide::Sell, Decimal::new(100, 0), Decimal::one()),
    ]))
    .unwrap();
    assert_ne!(bundle.trade_root, [0u8; 32]);
}

#[test]
fn input_hash_is_propagated() {
    let mut batch = make_sealed_batch(vec![]);
    batch.batch_hash = [42u8; 32];
    assert_eq!(match_sealed_batch(&batch).unwrap().input_hash, [42u8; 32]);
}

#[test]
fn cancel_orders_are_skipped() {
    let mut cancel = Order::dummy_limit(OrderSide::Buy, Decimal::new(100, 0), Decimal::one());
    cancel.order_type = OrderType::Cancel;
    let bundle = match_sealed_batch(&make_sealed_batch(vec![
        cancel,
        Order::dummy_limit(OrderSide::Sell, Decimal::new(100, 0), Decimal::one()),
    ]))
    .unwrap();
    assert!(bundle.trades.is_empty());
}
