use openmatch::collect::PendingBuffer;
use openmatch::decimal::Decimal;
use openmatch::epoch::{EpochPhase, TradeBundle};
use openmatch::error::OpenmatchError;
use openmatch::escrow::EscrowManager;
use openmatch::guards::WithdrawLock;
use openmatch::ids::{EpochId, NodeId, OrderId, UserId};
use openmatch::ledger::BalanceManager;
use openmatch::matcher::match_sealed_batch;
use openmatch::order::{Order, OrderSide};
use openmatch::risk::RiskKernel;
use openmatch::sealer::BatchSealer;
use openmatch::settlement::Tier1Settler;

struct EpochPipeline {
    node_id: NodeId,
    epoch: EpochId,
    balance_mgr: BalanceManager,
    escrow_mgr: EscrowManager,
    risk_kernel: RiskKernel,
    pending_buf: PendingBuffer,
}

impl EpochPipeline {
    fn new(epoch: EpochId) -> Self {
        let node_id = NodeId([0u8; 32]);
        Self {
            node_id,
            epoch,
            balance_mgr: BalanceManager::new(),
            escrow_mgr: EscrowManager::new(node_id),
            risk_kernel: RiskKernel::new(),
            pending_buf: PendingBuffer::new(),
        }
    }

    fn deposit(&mut self, user: UserId, asset: &str, amount: Decimal) {
        self.balance_mgr.deposit(&user, asset, amount).unwrap();
    }

    #[allow(clippy::too_many_arguments)]
    fn submit_order(
        &mut self,
        user: UserId,
        side: OrderSide,
        price: Decimal,
        qty: Decimal,
        escrow_asset: &str,
        escrow_amount: Decimal,
        seq: u64,
    ) -> OrderId {
        let order_id = OrderId::new();
        self.escrow_mgr
            .mint(&mut self.balance_mgr, order_id, user, escrow_asset, escrow_amount, self.epoch)
            .expect("Escrow mint should succeed");
        let mut order = Order::dummy_limit(side, price, qty);
        order.id = order_id;
        order.user_id = user;
        order.sequence = seq;
        self.risk_kernel.validate(&order).expect("Risk validation should pass");
        self.pending_buf.push(order).expect("Buffer push should succeed");
        order_id
    }

    fn seal_and_match(&mut self) -> TradeBundle {
        self.pending_buf.seal().expect("Seal should succeed");
        let orders = self.pending_buf.drain().expect("Drain should succeed");
        let sealer = BatchSealer::new(self.node_id);
        let sealed_batch = sealer.seal(self.epoch, orders);
        assert!(BatchSealer::verify_batch_hash(&sealed_batch));
        match_sealed_batch(&sealed_batch).unwrap()
    }
}

fn d(n: i64) -> Decimal {
    Decimal::new(n, 0)
}

#[test]
fn e2e_simple_trade() {
    let mut pipeline = EpochPipeline::new(EpochId(1));
    let alice = UserId::new();
    let bob = UserId::new();
    pipeline.deposit(alice, "USDT", d(100_000));
    pipeline.deposit(bob, "BTC", d(10));
    pipeline.submit_order(alice, OrderSide::Buy, d(50_000), Decimal::one(), "USDT", d(50_000), 0);
    pipeline.submit_order(bob, OrderSide::Sell, d(50_000), Decimal::one(), "BTC", Decimal::one(), 1);
    let bundle = pipeline.seal_and_match();
    assert_eq!(bundle.trades.len(), 1);
    assert_eq!(bundle.clearing_price, Some(d(50_000)));
    assert_eq!(bundle.trades[0].quantity, Decimal::one());
    let mut settler = Tier1Settler::new(100);
    settler.deposit(alice, "USDT", d(50_000)).unwrap();
    settler.freeze(alice, "USDT", d(50_000)).unwrap();
    settler.deposit(bob, "BTC", Decimal::one()).unwrap();
    settler.freeze(bob, "BTC", Decimal::one()).unwrap();
    for trade in &bundle.trades {
        settler.settle_trade(trade).expect("Settlement should succeed");
    }
    assert_eq!(settler.balance(alice, "BTC").available, Decimal::one());
    assert_eq!(settler.balance(alice, "USDT").available, Decimal::zero());
    assert_eq!(settler.balance(alice, "USDT").frozen, Decimal::zero());
    assert_eq!(settler.balance(bob, "USDT").available, d(50_000));
    assert_eq!(settler.balance(bob, "BTC").available, Decimal::zero());
    assert_eq!(settler.balance(bob, "BTC").frozen, Decimal::zero());
    settler.verify_supply("USDT").unwrap();
    settler.verify_supply("BTC").unwrap();
}

#[test]
fn e2e_partial_fills() {
    let mut pipeline = EpochPipeline::new(EpochId(2));
    let buyer = UserId::new();
    let seller1 = UserId::new();
    let seller2 = UserId::new();
    pipeline.deposit(buyer, "USDT", d(500_000));
    pipeline.deposit(seller1, "BTC", d(3));
    pipeline.deposit(seller2, "BTC", d(3));
    pipeline.submit_order(buyer, OrderSide::Buy, d(50_000), d(5), "USDT", d(250_000), 0);
    pipeline.submit_order(seller1, OrderSide::Sell, d(50_000), d(3), "BTC", d(3), 1);
    pipeline.submit_order(seller2, OrderSide::Sell, d(50_000), d(2), "BTC", d(2), 2);
    let bundle = pipeline.seal_and_match();
    assert_eq!(bundle.trades.len(), 2);
    let total: i128 = bundle.trades.iter().map(|t| t.quantity.units).sum();
    assert_eq!(total, d(5).units);
    let mut settler = Tier1Settler::new(100);
    settler.deposit(buyer, "USDT", d(250_000)).unwrap();
    settler.freeze(buyer, "USDT", d(250_000)).unwrap();
    settler.deposit(seller1, "BTC", d(3)).unwrap();
    settler.freeze(seller1, "BTC", d(3)).unwrap();
    settler.deposit(seller2, "BTC", d(2)).unwrap();
    settler.freeze(seller2, "BTC", d(2)).unwrap();
    for trade in &bundle.trades {
        settler.settle_trade(trade).unwrap();
    }
    assert_eq!(settler.balance(buyer, "BTC").available, d(5));
    assert_eq!(settler.balance(buyer, "USDT").frozen, Decimal::zero());
    let s1 = settler.balance(seller1, "USDT").available;
    let s2 = settler.balance(seller2, "USDT").available;
    assert_eq!(s1.units + s2.units, d(250_000).units);
    settler.verify_supply("USDT").unwrap();
    settler.verify_supply("BTC").unwrap();
}

#[test]
fn e2e_self_trade_prevention() {
    let mut pipeline = EpochPipeline::new(EpochId(3));
    let alice = UserId::new();
    pipeline.deposit(alice, "USDT", d(100_000));
    pipeline.deposit(alice, "BTC", d(5));
    pipeline.submit_order(alice, OrderSide::Buy, d(50_000), Decimal::one(), "USDT", d(50_000), 0);
    pipeline.submit_order(alice, OrderSide::Sell, d(50_000), Decimal::one(), "BTC", Decimal::one(), 1);
    let bundle = pipeline.seal_and_match();
    assert!(bundle.trades.is_empty());
}

#[test]
fn e2e_no_crossing() {
    let mut pipeline = EpochPipeline::new(EpochId(4));
    let buyer = UserId::new();
    let seller = UserId::new();
    pipeline.deposit(buyer, "USDT", d(100_000));
    pipeline.deposit(seller, "BTC", d(5));
    pipeline.submit_order(buyer, OrderSide::Buy, d(48_000), Decimal::one(), "USDT", d(48_000), 0);
    pipeline.submit_order(seller, OrderSide::Sell, d(52_000), Decimal::one(), "BTC", Decimal::one(), 1);
    let bundle = pipeline.seal_and_match();
    assert!(bundle.trades.is_empty());
    assert!(bundle.clearing_price.is_none());
    assert_eq!(bundle.remaining_orders.len(), 2);
}

#[test]
fn e2e_settlement_idempotency() {
    let mut pipeline = EpochPipeline::new(EpochId(5));
    let alice = UserId::new();
    let bob = UserId::new();
    pipeline.deposit(alice, "USDT", d(100_000));
    pipeline.deposit(bob, "BTC", d(10));
    pipeline.submit_order(alice, OrderSide::Buy, d(50_000), Decimal::one(), "USDT", d(50_000), 0);
    pipeline.submit_order(bob, OrderSide::Sell, d(50_000), Decimal::one(), "BTC", Decimal::one(), 1);
    let bundle = pipeline.seal_and_match();
    assert_eq!(bundle.trades.len(), 1);
    let mut settler = Tier1Settler::new(100);
    settler.deposit(alice, "USDT", d(50_000)).unwrap();
    settler.freeze(alice, "USDT", d(50_000)).unwrap();
    settler.deposit(bob, "BTC", Decimal::one()).unwrap();
    settler.freeze(bob, "BTC", Decimal::one()).unwrap();
    settler.settle_trade(&bundle.trades[0]).unwrap();
    let err = settler.settle_trade(&bundle.trades[0]).unwrap_err();
    assert!(matches!(err, OpenmatchError::TradeAlreadySettled(_)));
}

#[test]
fn e2e_deterministic_matching() {
    let node_id = NodeId([0u8; 32]);
    let alice = UserId::new();
    let bob = UserId::new();
    let mut orders = Vec::new();
    let mut buy = Order::dummy_limit(OrderSide::Buy, d(50_000), Decimal::one());
    buy.user_id = alice;
    buy.sequence = 0;
    orders.push(buy);
    let mut sell = Order::dummy_limit(OrderSide::Sell, d(50_000), Decimal::one());
    sell.user_id = bob;
    sell.sequence = 1;
    orders.push(sell);
    let sealer = BatchSealer::new(node_id);
    let batch1 = sealer.seal(EpochId(10), orders.clone());
    let batch2 = sealer.seal(EpochId(10), orders);
    assert_eq!(batch1.batch_hash, batch2.batch_hash);
    let bundle1 = match_sealed_batch(&batch1).unwrap();
    let bundle2 = match_sealed_batch(&batch2).unwrap();
    assert_eq!(bundle1.trades.len(), bundle2.trades.len());
    for (t1, t2) in bundle1.trades.iter().zip(bundle2.trades.iter()) {
        assert_eq!(t1.id, t2.id);
        assert_eq!(t1.price, t2.price);
        assert_eq!(t1.quantity, t2.quantity);
    }
    assert_eq!(bundle1.trade_root, bundle2.trade_root);
}

#[test]
fn e2e_risk_kernel_blocks_invalid() {
    let mut pipeline = EpochPipeline::new(EpochId(6));
    let user = UserId::new();
    pipeline.deposit(user, "USDT", d(1_000_000));
    let order_id = OrderId::new();
    pipeline
        .escrow_mgr
        .mint(&mut pipeline.balance_mgr, order_id, user, "USDT", d(100_000), pipeline.epoch)
        .unwrap();
    let mut order = Order::dummy_limit(OrderSide::Buy, d(50_000), d(200));
    order.user_id = user;
    order.sequence = 0;
    let err = pipeline.risk_kernel.validate(&order).unwrap_err();
    assert!(matches!(err, OpenmatchError::InvalidOrder { .. }));
}

#[test]
fn e2e_insufficient_balance_blocks_escrow() {
    let mut pipeline = EpochPipeline::new(EpochId(7));
    let user = UserId::new();
    pipeline.deposit(user, "USDT", d(1_000));
    let result = pipeline.escrow_mgr.mint(&mut pipeline.balance_mgr, OrderId::new(), user, "USDT", d(50_000), pipeline.epoch);
    assert!(result.is_err());
    assert!(matches!(result.unwrap_err(), OpenmatchError::InsufficientBalance { .. }));
    let bal = pipeline.balance_mgr.get(&user, "USDT");
    assert_eq!(bal.available, d(1_000));
    assert_eq!(bal.frozen, Decimal::zero());
}

#[test]
fn e2e_spend_right_lifecycle() {
    let mut pipeline = EpochPipeline::new(EpochId(8));
    let user = UserId::new();
    pipeline.deposit(user, "USDT", d(100_000));
    let sr_id = pipeline
        .escrow_mgr
        .mint(&mut pipeline.balance_mgr, OrderId::new(), user, "USDT", d(50_000), pipeline.epoch)
        .unwrap();
    assert!(pipeline.escrow_mgr.is_active(&sr_id));
    assert_eq!(pipeline.escrow_mgr.active_count(), 1);
    let bal = pipeline.balance_mgr.get(&user, "USDT");
    assert_eq!(bal.available, d(50_000));
    assert_eq!(bal.frozen, d(50_000));
    pipeline.escrow_mgr.release(&mut pipeline.balance_mgr, sr_id).unwrap();
    assert!(!pipeline.escrow_mgr.is_active(&sr_id));
    assert_eq!(pipeline.escrow_mgr.active_count(), 0);
    let bal = pipeline.balance_mgr.get(&user, "USDT");
    assert_eq!(bal.available, d(100_000));
    assert_eq!(bal.frozen, Decimal::zero());
    let err = pipeline.escrow_mgr.release(&mut pipeline.balance_mgr, sr_id).unwrap_err();
    assert!(matches!(err, OpenmatchError::InvalidSpendRight { .. }));
}

#[test]
fn e2e_multi_user_auction() {
    let mut pipeline = EpochPipeline::new(EpochId(9));
    let buyer1 = UserId::new();
    let buyer2 = UserId::new();
    let seller1 = UserId::new();
    let seller2 = UserId::new();
    pipeline.deposit(buyer1, "USDT", d(200_000));
    pipeline.deposit(buyer2, "USDT", d(200_000));
    pipeline.deposit(seller1, "BTC", d(5));
    pipeline.deposit(seller2, "BTC", d(5));
    pipeline.submit_order(buyer1, OrderSide::Buy, d(52_000), Decimal::one(), "USDT", d(52_000), 0);
    pipeline.submit_order(buyer2, OrderSide::Buy, d(49_000), Decimal::one(), "USDT", d(49_000), 1);
    pipeline.submit_order(seller1, OrderSide::Sell, d(50_000), Decimal::one(), "BTC", Decimal::one(), 2);
    pipeline.submit_order(seller2, OrderSide::Sell, d(53_000), Decimal::one(), "BTC", Decimal::one(), 3);
    let bundle = pipeline.seal_and_match();
    assert!(!bundle.trades.is_empty());
    if let Some(cp) = bundle.clearing_price {
        assert!(cp >= d(50_000) && cp <= d(52_000));
    }
    for trade in &bundle.trades {
        assert_ne!(trade.taker_user_id, trade.maker_user_id);
    }
}

#[test]
fn e2e_batch_integrity() {
    let sealer = BatchSealer::new(NodeId([0u8; 32]));
    let mut orders = Vec::new();
    for i in 0..5 {
        let mut order = Order::dummy_limit(OrderSide::Buy, d(100), Decimal::one());
        order.sequence = i;
        orders.push(order);
    }
    let batch = sealer.seal(EpochId(1), orders);
    assert!(BatchSealer::verify_batch_hash(&batch));
    let mut tampered = batch.clone();
    tampered.batch_hash[0] ^= 0xFF;
    assert!(!BatchSealer::verify_batch_hash(&tampered));
    let digest = sealer.digest(&batch);
    assert_eq!(digest.batch_hash, batch.batch_hash);
    assert_eq!(digest.epoch_id, batch.epoch_id);
    assert_eq!(digest.order_count, 5);
}

#[test]
fn e2e_withdraw_lock_phases() {
    let mut lock = WithdrawLock::new();
    lock.set_phase(EpochPhase::Collect);
    assert!(lock.check_withdraw().is_ok());
    lock.set_phase(EpochPhase::Seal);
    assert!(lock.check_withdraw().is_ok());
    lock.set_phase(EpochPhase::Match);
    assert!(lock.check_withdraw().is_err());
    lock.set_phase(EpochPhase::Finalize);
    assert!(lock.check_withdraw().is_err());
    lock.set_phase(EpochPhase::Collect);
    assert!(lock.check_withdraw().is_ok());
}

#[test]
fn e2e_empty_epoch() {
    let mut pipeline = EpochPipeline::new(EpochId(99));
    let bundle = pipeline.seal_and_match();
    assert!(bundle.trades.is_empty());
    assert!(bundle.clearing_price.is_none());
    assert!(bundle.remaining_orders.is_empty());
    assert_eq!(bundle.epoch_id, EpochId(99));
}

#[test]
fn e2e_sealed_buffer_rejects_late_orders() {
    let mut pipeline = EpochPipeline::new(EpochId(10));
    let user = UserId::new();
    pipeline.deposit(user, "USDT", d(100_000));
    pipeline.submit_order(user, OrderSide::Buy, d(50_000), Decimal::one(), "USDT", d(50_000), 0);
    pipeline.pending_buf.seal().unwrap();
    let late_order = Order::dummy_limit(OrderSide::Buy, d(49_000), Decimal::one());
    let err = pipeline.pending_buf.push(late_order).unwrap_err();
    assert!(matches!(err, OpenmatchError::BufferAlreadySealed));
}
