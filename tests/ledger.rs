use openmatch::buffer::PendingBuffer;
use openmatch::decimal::Decimal;
use openmatch::epoch::EpochPhase;
use openmatch::error::OpenmatchError;
use openmatch::guards::SettlementIdempotencyGuard;
use openmatch::ids::{EpochId, MarketPair, NodeId, OrderId, TradeId, UserId};
use openmatch::ledger::BalanceManager;
use openmatch::matcher::BatchMatcher;
use openmatch::order::{Order, OrderSide};
use openmatch::secured::SecuredBalanceManager;
use openmatch::supply::SupplyConservation;
use openmatch::trade::Trade;

fn dec(n: i64) -> Decimal {
    Decimal::new(n, 0)
}

fn trade(buyer: UserId, seller: UserId, taker_side: OrderSide, qty: i64, quote: i64) -> Trade {
    let (taker, maker) = match taker_side {
        OrderSide::Buy => (buyer, seller),
        OrderSide::Sell => (seller, buyer),
    };
    Trade {
        id: TradeId::deterministic(1, 0),
        epoch_id: EpochId(1),
        market: MarketPair::new("BTC", "USDT"),
        taker_order_id: OrderId::new(),
        taker_user_id: taker,
        maker_order_id: OrderId::new(),
        maker_user_id: maker,
        price: dec(quote / qty.max(1)),
        quantity: dec(qty),
        quote_amount: dec(quote),
        taker_side,
        matcher_node: NodeId([0u8; 32]),
        executed_at: 0,
    }
}

#[test]
fn deposit_and_query() {
    let mut mgr = BalanceManager::new();
    let user = UserId::new();
    mgr.deposit(&user, "USDT", dec(1000)).unwrap();
    let bal = mgr.get(&user, "USDT");
    assert_eq!(bal.available, dec(1000));
    assert_eq!(bal.frozen, Decimal::zero());
    assert_eq!(bal.total(), dec(1000));
}

#[test]
fn deposit_zero_fails() {
    let mut mgr = BalanceManager::new();
    assert!(mgr.deposit(&UserId::new(), "BTC", Decimal::zero()).is_err());
    assert!(mgr.deposit(&UserId::new(), "BTC", dec(-1)).is_err());
}

#[test]
fn withdraw_sufficient() {
    let mut mgr = BalanceManager::new();
    let user = UserId::new();
    mgr.deposit(&user, "USDT", dec(1000)).unwrap();
    mgr.withdraw(&user, "USDT", dec(300)).unwrap();
    assert_eq!(mgr.get(&user, "USDT").available, dec(700));
}

#[test]
fn withdraw_insufficient() {
    let mut mgr = BalanceManager::new();
    let user = UserId::new();
    mgr.deposit(&user, "USDT", dec(100)).unwrap();
    let result = mgr.withdraw(&user, "USDT", dec(200));
    assert!(matches!(result, Err(OpenmatchError::InsufficientBalance { .. })));
}

#[test]
fn freeze_and_unfreeze() {
    let mut mgr = BalanceManager::new();
    let user = UserId::new();
    mgr.deposit(&user, "USDT", dec(1000)).unwrap();
    mgr.freeze(&user, "USDT", dec(400)).unwrap();
    let bal = mgr.get(&user, "USDT");
    assert_eq!(bal.available, dec(600));
    assert_eq!(bal.frozen, dec(400));
    assert_eq!(bal.total(), dec(1000));
    mgr.unfreeze(&user, "USDT", dec(400)).unwrap();
    let bal = mgr.get(&user, "USDT");
    assert_eq!(bal.available, dec(1000));
    assert_eq!(bal.frozen, Decimal::zero());
}

#[test]
fn freeze_insufficient() {
    let mut mgr = BalanceManager::new();
    let user = UserId::new();
    mgr.deposit(&user, "USDT", dec(100)).unwrap();
    let result = mgr.freeze(&user, "USDT", dec(200));
    assert!(matches!(result, Err(OpenmatchError::InsufficientBalance { .. })));
}

#[test]
fn unfreeze_insufficient() {
    let mut mgr = BalanceManager::new();
    let user = UserId::new();
    mgr.deposit(&user, "USDT", dec(100)).unwrap();
    mgr.freeze(&user, "USDT", dec(50)).unwrap();
    let result = mgr.unfreeze(&user, "USDT", dec(100));
    assert!(matches!(result, Err(OpenmatchError::InsufficientFrozen)));
}

#[test]
fn settle_trade_moves_funds() {
    let mut mgr = BalanceManager::new();
    let buyer = UserId::new();
    let seller = UserId::new();
    let market = MarketPair::new("BTC", "USDT");
    mgr.deposit(&buyer, "USDT", dec(50000)).unwrap();
    mgr.freeze(&buyer, "USDT", dec(50000)).unwrap();
    mgr.deposit(&seller, "BTC", dec(1)).unwrap();
    mgr.freeze(&seller, "BTC", dec(1)).unwrap();
    let t = trade(buyer, seller, OrderSide::Buy, 1, 50000);
    mgr.settle_trade(&t, &market).unwrap();
    assert_eq!(mgr.get(&buyer, "BTC").available, dec(1));
    assert_eq!(mgr.get(&buyer, "USDT").frozen, Decimal::zero());
    assert_eq!(mgr.get(&seller, "USDT").available, dec(50000));
    assert_eq!(mgr.get(&seller, "BTC").frozen, Decimal::zero());
}

#[test]
fn settle_trade_taker_sell() {
    let mut mgr = BalanceManager::new();
    let taker = UserId::new();
    let maker = UserId::new();
    let market = MarketPair::new("BTC", "USDT");
    mgr.deposit(&maker, "USDT", dec(50000)).unwrap();
    mgr.freeze(&maker, "USDT", dec(50000)).unwrap();
    mgr.deposit(&taker, "BTC", dec(1)).unwrap();
    mgr.freeze(&taker, "BTC", dec(1)).unwrap();
    let t = trade(maker, taker, OrderSide::Sell, 1, 50000);
    mgr.settle_trade(&t, &market).unwrap();
    assert_eq!(mgr.get(&maker, "BTC").available, dec(1));
    assert_eq!(mgr.get(&maker, "USDT").frozen, Decimal::zero());
    assert_eq!(mgr.get(&taker, "USDT").available, dec(50000));
    assert_eq!(mgr.get(&taker, "BTC").frozen, Decimal::zero());
}

#[test]
fn settle_is_atomic_on_insufficient_seller() {
    let mut mgr = BalanceManager::new();
    let buyer = UserId::new();
    let seller = UserId::new();
    let market = MarketPair::new("BTC", "USDT");
    mgr.deposit(&buyer, "USDT", dec(50000)).unwrap();
    mgr.freeze(&buyer, "USDT", dec(50000)).unwrap();
    let t = trade(buyer, seller, OrderSide::Buy, 1, 50000);
    assert!(matches!(mgr.settle_trade(&t, &market), Err(OpenmatchError::InsufficientFrozen)));
    assert_eq!(mgr.get(&buyer, "USDT").frozen, dec(50000));
    assert_eq!(mgr.get(&buyer, "BTC").available, Decimal::zero());
}

#[test]
fn user_balances_lists_assets() {
    let mut mgr = BalanceManager::new();
    let user = UserId::new();
    mgr.deposit(&user, "USDT", dec(10)).unwrap();
    mgr.deposit(&user, "BTC", dec(2)).unwrap();
    mgr.deposit(&UserId::new(), "ETH", dec(2)).unwrap();
    let mut list = mgr.user_balances(&user);
    list.sort_by(|a, b| a.0.cmp(&b.0));
    assert_eq!(list.len(), 2);
    assert_eq!(list[0].0, "BTC");
    assert_eq!(list[0].1.available, dec(2));
    assert_eq!(list[1].0, "USDT");
    assert_eq!(mgr.entry_count(), 3);
}

#[test]
fn freeze_then_unfreeze_restores_available() {
    let mut mgr = BalanceManager::new();
    let user = UserId::new();
    mgr.deposit(&user, "BTC", Decimal::new(123456789, 8)).unwrap();
    let before = mgr.get(&user, "BTC");
    mgr.freeze(&user, "BTC", Decimal::new(5, 1)).unwrap();
    mgr.unfreeze(&user, "BTC", Decimal::new(5, 1)).unwrap();
    assert_eq!(mgr.get(&user, "BTC"), before);
}

#[test]
fn idempotency_guard_rejects_duplicate() {
    let mut guard = SettlementIdempotencyGuard::new(100);
    let id = TradeId::deterministic(1, 0);
    assert!(guard.mark_settled(id).is_ok());
    assert!(guard.is_settled(&id));
    assert!(matches!(guard.mark_settled(id), Err(OpenmatchError::TradeAlreadySettled(t)) if t == id));
    assert_eq!(guard.len(), 1);
}

#[test]
fn idempotency_guard_evicts_oldest() {
    let mut guard = SettlementIdempotencyGuard::new(2);
    let a = TradeId::deterministic(1, 0);
    let b = TradeId::deterministic(1, 1);
    let c = TradeId::deterministic(1, 2);
    guard.mark_settled(a).unwrap();
    guard.mark_settled(b).unwrap();
    guard.mark_settled(c).unwrap();
    assert_eq!(guard.len(), 2);
    assert!(!guard.is_settled(&a));
    assert!(guard.is_settled(&b));
    assert!(guard.is_settled(&c));
    assert!(!guard.is_empty());
}

#[test]
fn supply_tracker_verifies() {
    let mut s = SupplyConservation::new();
    s.record_deposit("BTC", dec(5));
    s.record_withdrawal("BTC", dec(2));
    assert_eq!(s.expected_total("BTC"), dec(3));
    assert_eq!(s.expected_total("ETH"), Decimal::zero());
    assert!(s.verify(&vec![("BTC".to_string(), dec(3))]).is_ok());
    assert!(matches!(
        s.verify(&vec![("BTC".to_string(), dec(4))]),
        Err(OpenmatchError::SupplyInvariantViolation { .. })
    ));
    assert!(s.verify(&vec![("BTC".to_string(), dec(3)), ("ETH".to_string(), dec(1))]).is_err());
    assert!(s.verify(&vec![]).is_err());
}

#[test]
fn secured_manager_deposit_and_withdraw() {
    let mut mgr = SecuredBalanceManager::new(1000);
    let user = UserId::new();
    mgr.deposit(&user, "USDT", dec(1000)).unwrap();
    mgr.withdraw(&user, "USDT", dec(400)).unwrap();
    assert_eq!(mgr.get(&user, "USDT").available, dec(600));
    assert_eq!(mgr.ops_count(), 2);
    assert!(mgr.verify_supply_conservation().is_ok());
}

#[test]
fn secured_manager_blocks_withdraw_during_match() {
    let mut mgr = SecuredBalanceManager::new(1000);
    let user = UserId::new();
    mgr.deposit(&user, "USDT", dec(1000)).unwrap();
    mgr.set_phase(EpochPhase::Match);
    assert!(matches!(
        mgr.withdraw(&user, "USDT", dec(100)),
        Err(OpenmatchError::WithdrawLockedDuringSettle)
    ));
    mgr.set_phase(EpochPhase::Collect);
    mgr.set_emergency_lock(true);
    assert!(mgr.withdraw(&user, "USDT", dec(100)).is_err());
    mgr.set_emergency_lock(false);
    assert!(mgr.withdraw(&user, "USDT", dec(100)).is_ok());
}

#[test]
fn deposit_then_withdraw_is_noop() {
    let mut mgr = SecuredBalanceManager::new(10);
    let user = UserId::new();
    mgr.deposit(&user, "BTC", dec(5)).unwrap();
    let before = mgr.get(&user, "BTC");
    mgr.deposit(&user, "BTC", dec(3)).unwrap();
    mgr.withdraw(&user, "BTC", dec(3)).unwrap();
    assert_eq!(mgr.get(&user, "BTC"), before);
    assert!(mgr.verify_supply_conservation().is_ok());
}

#[test]
fn double_settle_rejected() {
    let mut mgr = SecuredBalanceManager::new(1000);
    let buyer = UserId::new();
    let seller = UserId::new();
    let market = MarketPair::new("BTC", "USDT");
    mgr.deposit(&buyer, "USDT", dec(100000)).unwrap();
    mgr.freeze(&buyer, "USDT", dec(100000)).unwrap();
    mgr.deposit(&seller, "BTC", dec(2)).unwrap();
    mgr.freeze(&seller, "BTC", dec(2)).unwrap();
    let t = trade(buyer, seller, OrderSide::Buy, 1, 50000);
    mgr.settle_trade(&t, &market).unwrap();
    let buyer_btc = mgr.get(&buyer, "BTC");
    let seller_usdt = mgr.get(&seller, "USDT");
    let err = mgr.settle_trade(&t, &market).unwrap_err();
    assert!(matches!(err, OpenmatchError::TradeAlreadySettled(id) if id == t.id));
    assert_eq!(mgr.get(&buyer, "BTC"), buyer_btc);
    assert_eq!(mgr.get(&seller, "USDT"), seller_usdt);
    assert!(mgr.settlement_guard().is_settled(&t.id));
    assert!(mgr.verify_supply_conservation().is_ok());
}

#[test]
fn exact_one_to_one_end_to_end() {
    let alice = UserId::new();
    let bob = UserId::new();
    let market = MarketPair::new("BTC", "USDT");
    let mut mgr = SecuredBalanceManager::new(1000);
    mgr.deposit(&alice, "USDT", dec(100000)).unwrap();
    mgr.freeze(&alice, "USDT", dec(50000)).unwrap();
    mgr.deposit(&bob, "BTC", dec(2)).unwrap();
    mgr.freeze(&bob, "BTC", dec(1)).unwrap();

    let mut buf = PendingBuffer::new(EpochId(1));
    buf.push(Order::dummy_limit_for_user(alice, OrderSide::Buy, dec(50000), dec(1))).unwrap();
    buf.push(Order::dummy_limit_for_user(bob, OrderSide::Sell, dec(50000), dec(1))).unwrap();
    buf.seal().unwrap();
    let result = BatchMatcher::new(NodeId([1; 32])).match_batch(buf).unwrap();
    assert_eq!(result.trades.len(), 1);
    for t in &result.trades {
        mgr.settle_trade(t, &market).unwrap();
    }
    assert_eq!(mgr.get(&alice, "BTC").available, dec(1));
    assert_eq!(mgr.get(&alice, "USDT").frozen, Decimal::zero());
    assert_eq!(mgr.get(&alice, "USDT").available, dec(50000));
    assert_eq!(mgr.get(&bob, "USDT").available, dec(50000));
    assert_eq!(mgr.get(&bob, "BTC").available, dec(1));
    assert_eq!(mgr.get(&bob, "BTC").frozen, Decimal::zero());
    assert!(mgr.verify_supply_conservation().is_ok());
}

#[test]
fn settle_errors_are_specific() {
    let mut mgr = BalanceManager::new();
    let buyer = UserId::new();
    let seller = UserId::new();
    let t = trade(buyer, seller, OrderSide::Buy, 1, 100);
    assert!(matches!(mgr.settle_trade(&t, &MarketPair::new("BTC", "BTC")), Err(OpenmatchError::InsufficientFrozen)));
    let neg = trade(buyer, seller, OrderSide::Buy, -1, 100);
    assert!(matches!(mgr.settle_trade(&neg, &MarketPair::new("BTC", "USDT")), Err(OpenmatchError::InvalidOrder { .. })));
    assert!(matches!(mgr.settle_trade(&t, &MarketPair::new("BTC", "USDT")), Err(OpenmatchError::InsufficientFrozen)));
}

#[test]
fn tier_one_settlement_moves_all_four_balances() {
    let mut settler = openmatch::settlement::Tier1Settler::new(10);
    let buyer = UserId::new();
    let seller = UserId::new();
    settler.deposit(buyer, "USDT", dec(500)).unwrap();
    settler.freeze(buyer, "USDT", dec(500)).unwrap();
    settler.deposit(seller, "BTC", dec(5)).unwrap();
    settler.freeze(seller, "BTC", dec(5)).unwrap();
    settler.settle_trade(&trade(buyer, seller, OrderSide::Buy, 5, 500)).unwrap();
    assert_eq!(settler.balance(buyer, "USDT").frozen, Decimal::zero());
    assert_eq!(settler.balance(buyer, "BTC").available, dec(5));
    assert_eq!(settler.balance(seller, "BTC").frozen, Decimal::zero());
    assert_eq!(settler.balance(seller, "USDT").available, dec(500));
    assert!(settler.idempotency().is_settled(&TradeId::deterministic(1, 0)));
}

#[test]
fn settle_on_single_asset_market() {
    let mut mgr = BalanceManager::new();
    let buyer = UserId::new();
    let seller = UserId::new();
    let market = MarketPair::new("PTS", "PTS");
    mgr.deposit(&buyer, "PTS", dec(100)).unwrap();
    mgr.freeze(&buyer, "PTS", dec(100)).unwrap();
    mgr.deposit(&seller, "PTS", dec(1)).unwrap();
    mgr.freeze(&seller, "PTS", dec(1)).unwrap();
    mgr.settle_trade(&trade(buyer, seller, OrderSide::Buy, 1, 100), &market).unwrap();
    assert_eq!(mgr.get(&buyer, "PTS").frozen, Decimal::zero());
    assert_eq!(mgr.get(&buyer, "PTS").available, dec(1));
    assert_eq!(mgr.get(&seller, "PTS").frozen, Decimal::zero());
    assert_eq!(mgr.get(&seller, "PTS").available, dec(100));
    // One user on both sides needs the sum frozen.
    let solo = UserId::new();
    mgr.deposit(&solo, "PTS", dec(100)).unwrap();
    mgr.freeze(&solo, "PTS", dec(100)).unwrap();
    let t = trade(solo, solo, OrderSide::Buy, 1, 100);
    assert!(matches!(mgr.settle_trade(&t, &market), Err(OpenmatchError::InsufficientFrozen)));
    assert_eq!(mgr.get(&solo, "PTS").frozen, dec(100));
}
