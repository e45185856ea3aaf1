//! Configuration of markets and of the peer network.
use vstd::prelude::*;
use crate::decimal::Decimal;
use crate::ids::MarketPair;

verus! {

/// Default gossip port.
pub const DEFAULT_GOSSIP_PORT: u16 = 9944;

/// Default largest number of peers.
pub const DEFAULT_MAX_PEERS: usize = 50;

/// Default largest number of open orders per user per market.
pub const DEFAULT_MAX_ORDERS_PER_USER: usize = 200;

#[derive(Clone, Debug)]
pub struct NetworkConfig {
    pub bootstrap_peers: Vec<String>,
    pub gossip_port: u16,
    pub max_peers: usize,
}

impl Default for NetworkConfig {
    fn default() -> (r: NetworkConfig)
        ensures
            r.bootstrap_peers@.len() == 0,
            r.gossip_port == DEFAULT_GOSSIP_PORT,
            r.max_peers == DEFAULT_MAX_PEERS,
    {
        NetworkConfig { bootstrap_peers: Vec::new(), gossip_port: DEFAULT_GOSSIP_PORT, max_peers: DEFAULT_MAX_PEERS }
    }
}

/// Trading parameters of one market.
#[derive(Clone, Debug)]
pub struct MarketConfig {
    pub base: String,
    pub quote: String,
    pub min_order_size: Decimal,
    pub tick_size: Decimal,
    pub lot_size: Decimal,
    pub max_orders_per_user: usize,
}

impl MarketConfig {
    /// BTC/USDT: sizes in steps of 0.00001 BTC, prices in steps of 0.01.
    pub fn btc_usdt() -> (r: MarketConfig)
        ensures
            r.base@ == "BTC"@,
            r.quote@ == "USDT"@,
            r.min_order_size@ == 1000,
            r.tick_size@ == 1_000_000,
            r.lot_size@ == 1000,
            r.max_orders_per_user == DEFAULT_MAX_ORDERS_PER_USER,
    {
        MarketConfig {
            base: String::from_str("BTC"),
            quote: String::from_str("USDT"),
            min_order_size: Decimal::from_units(1000),
            tick_size: Decimal::from_units(1_000_000),
            lot_size: Decimal::from_units(1000),
            max_orders_per_user: DEFAULT_MAX_ORDERS_PER_USER,
        }
    }

    /// ETH/USDT: sizes in steps of 0.0001 ETH, prices in steps of 0.01.
    pub fn eth_usdt() -> (r: MarketConfig)
        ensures
            r.base@ == "ETH"@,
            r.quote@ == "USDT"@,
            r.min_order_size@ == 10_000,
            r.tick_size@ == 1_000_000,
            r.lot_size@ == 10_000,
            r.max_orders_per_user == DEFAULT_MAX_ORDERS_PER_USER,
    {
        MarketConfig {
            base: String::from_str("ETH"),
            quote: String::from_str("USDT"),
            min_order_size: Decimal::from_units(10_000),
            tick_size: Decimal::from_units(1_000_000),
            lot_size: Decimal::from_units(10_000),
            max_orders_per_user: DEFAULT_MAX_ORDERS_PER_USER,
        }
    }

    /// `base/quote`.
    pub fn symbol(&self) -> (r: String)
        ensures
            r@ == self.base@ + seq!['/'] + self.quote@,
    {
        let pair = MarketPair { base: self.base.clone(), quote: self.quote.clone() };
        pair.symbol()
    }
}

} // verus!
