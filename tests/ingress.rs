use openmatch::decimal::Decimal;
use openmatch::error::OpenmatchError;
use openmatch::ids::{EpochId, MarketPair, NodeId, OrderId, TradeId, UserId};
use openmatch::order::{Order, OrderSide, OrderType};
use openmatch::risk::RiskKernel;
use openmatch::settlement::Tier1Settler;
use openmatch::trade::Trade;

fn make_buy(price: Decimal, qty: Decimal) -> Order {
    Order::dummy_limit(OrderSide::Buy, price, qty)
}

#[test]
fn valid_order_passes() {
    let mut rk = RiskKernel::new();
    let order = make_buy(Decimal::new(100, 0), Decimal::one());
    assert!(rk.validate(&order).is_ok());
    assert_eq!(rk.user_order_count(&order.user_id), 1);
}

#[test]
fn zero_quantity_rejected() {
    let mut rk = RiskKernel::new();
    let mut order = make_buy(Decimal::new(100, 0), Decimal::zero());
    order.quantity = Decimal::zero();
    order.remaining_qty = Decimal::zero();
    let err = rk.validate(&order).unwrap_err();
    assert!(matches!(err, OpenmatchError::InvalidOrder { .. }));
}

#[test]
fn oversized_order_rejected() {
    let mut rk = RiskKernel::with_limits(50, Decimal::new(10, 0), Decimal::new(10, 0));
    let order = make_buy(Decimal::new(100, 0), Decimal::new(20, 0));
    let err = rk.validate(&order).unwrap_err();
    assert!(matches!(err, OpenmatchError::InvalidOrder { .. }));
}

#[test]
fn suspicious_price_rejected() {
    let mut rk = RiskKernel::new();
    rk.set_last_price("BTC/USDT", Decimal::new(100, 0));
    let order = make_buy(Decimal::new(2000, 0), Decimal::one());
    let err = rk.validate(&order).unwrap_err();
    assert!(matches!(err, OpenmatchError::SuspiciousPrice { .. }));
}

#[test]
fn reasonable_price_passes() {
    let mut rk = RiskKernel::new();
    rk.set_last_price("BTC/USDT", Decimal::new(100, 0));
    let order = make_buy(Decimal::new(200, 0), Decimal::one());
    assert!(rk.validate(&order).is_ok());
}

#[test]
fn deviation_boundaries() {
    let mut rk = RiskKernel::new();
    rk.set_last_price("BTC/USDT", Decimal::new(100, 0));
    assert!(rk.validate(&make_buy(Decimal::new(1000, 0), Decimal::one())).is_ok());
    assert!(rk.validate(&make_buy(Decimal::new(10, 0), Decimal::one())).is_ok());
    assert!(rk.validate(&make_buy(Decimal::new(100000001, 5), Decimal::one())).is_err());
    assert!(rk.validate(&make_buy(Decimal::new(999999999, 8), Decimal::one())).is_err());
    assert!(rk.validate(&make_buy(Decimal::new(-5, 0), Decimal::one())).is_err());
    rk.set_last_price("ETH/USDT", Decimal::new(1, 0));
    assert!(rk.validate(&make_buy(Decimal::new(2000, 0), Decimal::one())).is_err());
}

#[test]
fn epoch_rate_limit() {
    let mut rk = RiskKernel::with_limits(3, Decimal::new(100, 0), Decimal::new(10, 0));
    let user = UserId::new();
    for _ in 0..3 {
        let mut order = make_buy(Decimal::new(100, 0), Decimal::one());
        order.user_id = user;
        rk.validate(&order).unwrap();
    }
    let mut order = make_buy(Decimal::new(100, 0), Decimal::one());
    order.user_id = user;
    let err = rk.validate(&order).unwrap_err();
    assert!(matches!(err, OpenmatchError::OrderFloodDetected { count: 3, .. }));
}

#[test]
fn epoch_advance_resets_counts() {
    let mut rk = RiskKernel::with_limits(2, Decimal::new(100, 0), Decimal::new(10, 0));
    let user = UserId::new();
    for _ in 0..2 {
        let mut order = make_buy(Decimal::new(100, 0), Decimal::one());
        order.user_id = user;
        rk.validate(&order).unwrap();
    }
    rk.advance_epoch(EpochId(1));
    let mut order = make_buy(Decimal::new(100, 0), Decimal::one());
    order.user_id = user;
    assert!(rk.validate(&order).is_ok());
}

#[test]
fn cancel_orders_bypass_size_check() {
    let mut rk = RiskKernel::with_limits(50, Decimal::new(1, 0), Decimal::new(10, 0));
    let mut order = make_buy(Decimal::new(100, 0), Decimal::new(999, 0));
    order.order_type = OrderType::Cancel;
    assert!(rk.validate(&order).is_ok());
    assert_eq!(rk.user_order_count(&order.user_id), 0);
}

fn make_trade(buyer: UserId, seller: UserId) -> Trade {
    Trade {
        id: TradeId::deterministic(1, 0),
        epoch_id: EpochId(1),
        market: MarketPair::new("BTC", "USDT"),
        taker_order_id: OrderId::new(),
        taker_user_id: buyer,
        maker_order_id: OrderId::new(),
        maker_user_id: seller,
        price: Decimal::new(50000, 0),
        quantity: Decimal::one(),
        quote_amount: Decimal::new(50000, 0),
        taker_side: OrderSide::Buy,
        matcher_node: NodeId([0u8; 32]),
        executed_at: 0,
    }
}

#[test]
fn deposit_and_freeze() {
    let mut settler = Tier1Settler::new(100);
    let user = UserId::new();
    settler.deposit(user, "USDT", Decimal::new(100000, 0)).unwrap();
    let bal = settler.balance(user, "USDT");
    assert_eq!(bal.available, Decimal::new(100000, 0));
    assert_eq!(bal.frozen, Decimal::zero());
    settler.freeze(user, "USDT", Decimal::new(50000, 0)).unwrap();
    let bal = settler.balance(user, "USDT");
    assert_eq!(bal.available, Decimal::new(50000, 0));
    assert_eq!(bal.frozen, Decimal::new(50000, 0));
}

#[test]
fn freeze_insufficient_balance() {
    let mut settler = Tier1Settler::new(100);
    let user = UserId::new();
    settler.deposit(user, "USDT", Decimal::new(100, 0)).unwrap();
    let err = settler.freeze(user, "USDT", Decimal::new(200, 0)).unwrap_err();
    assert!(matches!(err, OpenmatchError::InsufficientBalance { .. }));
}

#[test]
fn settle_trade_transfers_balances() {
    let mut settler = Tier1Settler::new(100);
    let buyer = UserId::new();
    let seller = UserId::new();
    settler.deposit(buyer, "USDT", Decimal::new(50000, 0)).unwrap();
    settler.freeze(buyer, "USDT", Decimal::new(50000, 0)).unwrap();
    settler.deposit(seller, "BTC", Decimal::one()).unwrap();
    settler.freeze(seller, "BTC", Decimal::one()).unwrap();
    let trade = make_trade(buyer, seller);
    settler.settle_trade(&trade).unwrap();
    assert_eq!(settler.balance(buyer, "BTC").available, Decimal::one());
    assert_eq!(settler.balance(seller, "USDT").available, Decimal::new(50000, 0));
    assert_eq!(settler.balance(buyer, "USDT").frozen, Decimal::zero());
    assert_eq!(settler.balance(seller, "BTC").frozen, Decimal::zero());
}

#[test]
fn double_settlement_blocked() {
    let mut settler = Tier1Settler::new(100);
    let buyer = UserId::new();
    let seller = UserId::new();
    settler.deposit(buyer, "USDT", Decimal::new(100000, 0)).unwrap();
    settler.freeze(buyer, "USDT", Decimal::new(50000, 0)).unwrap();
    settler.deposit(seller, "BTC", Decimal::new(2, 0)).unwrap();
    settler.freeze(seller, "BTC", Decimal::one()).unwrap();
    let trade = make_trade(buyer, seller);
    settler.settle_trade(&trade).unwrap();
    let err = settler.settle_trade(&trade).unwrap_err();
    assert!(matches!(err, OpenmatchError::TradeAlreadySettled(_)));
    assert!(settler.idempotency().is_settled(&trade.id));
}

#[test]
fn supply_conservation_after_settlement() {
    let mut settler = Tier1Settler::new(100);
    let buyer = UserId::new();
    let seller = UserId::new();
    settler.deposit(buyer, "USDT", Decimal::new(50000, 0)).unwrap();
    settler.freeze(buyer, "USDT", Decimal::new(50000, 0)).unwrap();
    settler.deposit(seller, "BTC", Decimal::one()).unwrap();
    settler.freeze(seller, "BTC", Decimal::one()).unwrap();
    let trade = make_trade(buyer, seller);
    settler.settle_trade(&trade).unwrap();
    settler.verify_supply("USDT").unwrap();
    settler.verify_supply("BTC").unwrap();
    settler.verify_supply("ETH").unwrap();
}

use openmatch::ledger::BalanceManager;
use openmatch::sealer::BatchSealer;

#[test]
fn seal_empty_batch() {
    let sealer = BatchSealer::new(NodeId([0u8; 32]));
    let batch = sealer.seal(EpochId(1), vec![]);
    assert!(batch.orders.is_empty());
    assert_eq!(batch.epoch_id, EpochId(1));
    assert_ne!(batch.batch_hash, [0u8; 32]);
    assert!(BatchSealer::verify_batch_hash(&batch));
}

#[test]
fn seal_sorts_and_digest_counts() {
    let sealer = BatchSealer::new(NodeId([3u8; 32]));
    let mut a = Order::dummy_limit(OrderSide::Sell, Decimal::new(101, 0), Decimal::one());
    a.sequence = 0;
    let mut b = Order::dummy_limit(OrderSide::Buy, Decimal::new(100, 0), Decimal::one());
    b.sequence = 1;
    let batch = sealer.seal_at(EpochId(2), vec![a.clone(), b.clone()], 77);
    assert_eq!(batch.orders[0].id, b.id);
    assert_eq!(batch.orders[1].id, a.id);
    assert_eq!(batch.sealed_at, 77);
    assert_eq!(batch.sealer_node, NodeId([3u8; 32]));
    let again = sealer.seal_at(EpochId(2), vec![b, a], 99);
    assert_eq!(batch.batch_hash, again.batch_hash);
    let digest = sealer.digest(&batch);
    assert_eq!(digest.order_count, 2);
    assert_eq!(digest.batch_hash, batch.batch_hash);
    assert_eq!(digest.signature.len(), 64);
}

#[test]
fn tampered_batch_fails_verification() {
    let sealer = BatchSealer::new(NodeId([0u8; 32]));
    let mut batch = sealer.seal(EpochId(1), vec![Order::dummy_limit(OrderSide::Buy, Decimal::new(5, 0), Decimal::one())]);
    assert!(BatchSealer::verify_batch_hash(&batch));
    batch.orders[0].remaining_qty = Decimal::new(2, 0);
    assert!(!BatchSealer::verify_batch_hash(&batch));
}

#[test]
fn consume_frozen_and_credit() {
    let mut bm = BalanceManager::new();
    let user = UserId::new();
    bm.deposit(&user, "BTC", Decimal::new(5, 0)).unwrap();
    bm.freeze(&user, "BTC", Decimal::new(3, 0)).unwrap();
    bm.consume_frozen(&user, "BTC", Decimal::new(2, 0)).unwrap();
    assert_eq!(bm.get(&user, "BTC").frozen, Decimal::one());
    assert!(matches!(bm.consume_frozen(&user, "BTC", Decimal::new(2, 0)), Err(OpenmatchError::InsufficientFrozen)));
    bm.credit(&user, "USDT", Decimal::new(7, 0)).unwrap();
    assert_eq!(bm.get(&user, "USDT").available, Decimal::new(7, 0));
    bm.deposit(&UserId::new(), "BTC", Decimal::new(4, 0)).unwrap();
    assert_eq!(bm.total_supply("BTC"), Some(Decimal::new(7, 0)));
    assert_eq!(bm.total_supply("ETH"), Some(Decimal::zero()));
}
