use openmatch::collect::PendingBuffer;
use openmatch::config::{MarketConfig, NetworkConfig};
use openmatch::decimal::Decimal;
use openmatch::error::OpenmatchError;
use openmatch::freeze::FreezeProof;
use openmatch::guards::IdempotencyGuard;
use openmatch::ids::{OrderId, TradeId, UserId};
use openmatch::order::{Order, OrderSide};

fn order() -> Order {
    Order::dummy_limit(OrderSide::Buy, Decimal::new(100, 0), Decimal::one())
}

#[test]
fn push_and_count() {
    let mut buf = PendingBuffer::new();
    buf.push(order()).unwrap();
    buf.push(order()).unwrap();
    assert_eq!(buf.len(), 2);
    assert!(!buf.is_empty());
}

#[test]
fn pending_buffer_push_after_seal_fails() {
    let mut buf = PendingBuffer::new();
    buf.seal().unwrap();
    assert!(matches!(buf.push(order()), Err(OpenmatchError::BufferAlreadySealed)));
}

#[test]
fn pending_buffer_double_seal_fails() {
    let mut buf = PendingBuffer::new();
    buf.seal().unwrap();
    assert!(matches!(buf.seal(), Err(OpenmatchError::BufferAlreadySealed)));
}

#[test]
fn buffer_full() {
    let mut buf = PendingBuffer::with_capacity(2);
    buf.push(order()).unwrap();
    buf.push(order()).unwrap();
    assert!(matches!(buf.push(order()), Err(OpenmatchError::BufferFull)));
}

#[test]
fn drain_returns_all_orders() {
    let mut buf = PendingBuffer::new();
    buf.push(order()).unwrap();
    buf.push(order()).unwrap();
    buf.seal().unwrap();
    let orders = buf.drain().unwrap();
    assert_eq!(orders.len(), 2);
    assert!(buf.is_empty());
}

#[test]
fn drain_unsealed_fails() {
    let mut buf = PendingBuffer::new();
    buf.push(order()).unwrap();
    assert!(buf.drain().is_err());
    assert_eq!(buf.len(), 1);
}

#[test]
fn reset_clears_everything() {
    let mut buf = PendingBuffer::new();
    buf.push(order()).unwrap();
    buf.seal().unwrap();
    buf.reset();
    assert!(buf.is_empty());
    assert!(!buf.is_sealed());
    assert!(buf.push(order()).is_ok());
}

#[test]
fn market_config_btc_usdt() {
    let cfg = MarketConfig::btc_usdt();
    assert_eq!(cfg.symbol(), "BTC/USDT");
    assert!(cfg.min_order_size > Decimal::zero());
    assert!(cfg.tick_size > Decimal::zero());
    assert_eq!(cfg.min_order_size, Decimal::new(1, 5));
    assert_eq!(cfg.tick_size, Decimal::new(1, 2));
    assert_eq!(MarketConfig::eth_usdt().symbol(), "ETH/USDT");
    assert_eq!(MarketConfig::eth_usdt().lot_size, Decimal::new(1, 4));
}

#[test]
fn network_config_defaults() {
    let cfg = NetworkConfig::default();
    assert_eq!(cfg.gossip_port, 9944);
    assert_eq!(cfg.max_peers, 50);
    assert!(cfg.bootstrap_peers.is_empty());
}

fn make_proof() -> FreezeProof {
    FreezeProof::dummy(OrderId::new(), UserId::new(), "USDT", Decimal::new(10000, 2))
}

#[test]
fn freeze_signing_payload_deterministic() {
    let proof = make_proof();
    assert_eq!(proof.signing_payload(), proof.signing_payload());
}

#[test]
fn freeze_signing_payload_differs_by_nonce() {
    let mut p1 = make_proof();
    p1.nonce = 1;
    let mut p2 = p1.clone();
    p2.nonce = 2;
    assert_ne!(p1.signing_payload(), p2.signing_payload());
}

#[test]
fn freeze_payload_layout() {
    let p = make_proof();
    let bytes = p.signing_payload();
    assert_eq!(&bytes[32..36], b"USDT");
    assert_eq!(&bytes[36..39], b"100");
    assert_eq!(bytes.len(), 32 + 4 + 3 + 8);
}

#[test]
fn fresh_proof_not_expired() {
    let p = make_proof();
    assert!(!p.is_expired());
    assert!(p.expires_within(2 * 3_600_000));
    assert!(!p.expires_within(0));
    assert!(p.time_until_expiry() > 0);
    assert_eq!(p.time_until_expiry_at(p.expires_at + 5), 0);
    assert_eq!(p.time_until_expiry_at(p.expires_at - 5), 5);
    assert!(p.is_expired_at(p.expires_at + 1));
}

#[test]
fn idempotency_guard_alias() {
    let mut g = IdempotencyGuard::new(10);
    assert!(g.is_empty());
    g.mark_settled(TradeId(5)).unwrap();
    assert!(g.mark_settled(TradeId(5)).is_err());
    assert_eq!(g.len(), 1);
}
