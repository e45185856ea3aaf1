//! Agents and the risk limits they trade within.
use vstd::prelude::*;
use crate::decimal::{Decimal, UNITS_PER_ONE};
use crate::ids::{fresh_v7, UserId};

verus! {

/// Identifier of a trading agent.
#[derive(Clone, Copy, Debug, PartialEq, Eq, Structural, Hash, PartialOrd, Ord)]
pub struct AgentId(pub u128);

impl AgentId {
    /// A fresh identifier.
    pub fn new() -> (r: AgentId) {
        AgentId(fresh_v7())
    }
}

/// The sandbox an agent trades in.
#[derive(Clone, Copy, Debug, PartialEq, Eq, Structural)]
pub struct RiskLimits {
    pub max_total_exposure: Decimal,
    pub max_asset_exposure: Decimal,
    pub max_open_orders: usize,
    pub max_order_size: Decimal,
    pub max_epoch_loss: Decimal,
    pub max_daily_loss: Decimal,
    pub min_available_reserve: Decimal,
    pub max_orders_per_second: u32,
    pub allow_market_orders: bool,
    pub max_markets: usize,
}

impl Default for RiskLimits {
    /// Conservative limits: 10 000 total and 5 000 per asset of exposure,
    /// 50 open orders, orders of at most 1, losses of at most 500 per epoch
    /// and 2 000 per day, a reserve of 1 000, 10 orders a second, no market
    /// orders, 3 markets.
    fn default() -> (r: RiskLimits)
        ensures
            r.max_total_exposure@ == 10_000 * UNITS_PER_ONE,
            r.max_asset_exposure@ == 5_000 * UNITS_PER_ONE,
            r.max_open_orders == 50,
            r.max_order_size@ == UNITS_PER_ONE,
            r.max_epoch_loss@ == 500 * UNITS_PER_ONE,
            r.max_daily_loss@ == 2_000 * UNITS_PER_ONE,
            r.min_available_reserve@ == 1_000 * UNITS_PER_ONE,
            r.max_orders_per_second == 10,
            !r.allow_market_orders,
            r.max_markets == 3,
    {
        RiskLimits {
            max_total_exposure: Decimal::from_int(10_000),
            max_asset_exposure: Decimal::from_int(5_000),
            max_open_orders: 50,
            max_order_size: Decimal::from_int(1),
            max_epoch_loss: Decimal::from_int(500),
            max_daily_loss: Decimal::from_int(2_000),
            min_available_reserve: Decimal::from_int(1_000),
            max_orders_per_second: 10,
            allow_market_orders: false,
            max_markets: 3,
        }
    }
}

/// Why the risk gate refused an agent's action.
#[derive(Clone, Debug, PartialEq, Eq)]
pub enum RiskRejectionReason {
    ExposureCeilingBreached { current: Decimal, requested: Decimal, limit: Decimal },
    AssetExposureBreached { asset: String, current: Decimal, requested: Decimal, limit: Decimal },
    OrderCountExceeded { current: usize, limit: usize },
    OrderTooLarge { size: Decimal, limit: Decimal },
    EpochLossBreached { current_loss: Decimal, limit: Decimal },
    DailyLossBreached { current_loss: Decimal, limit: Decimal },
    ReserveViolation { available_after: Decimal, min_reserve: Decimal },
    RateLimitExceeded { orders_this_second: u32, limit: u32 },
    MarketOrdersDisabled,
    AgentNotActive,
    TooManyMarkets { current: usize, limit: usize },
}

/// The risk gate's verdict on an agent's action.
#[derive(Clone, Debug, PartialEq, Eq)]
pub enum RiskDecision {
    Approved,
    Rejected { reason: RiskRejectionReason },
    AgentPaused { reason: String },
    AgentDisabled { reason: String },
}

/// An agent bound to the user whose funds it trades, with its limits.
#[derive(Clone, Debug)]
pub struct AgentBinding {
    pub agent_id: AgentId,
    pub user_id: UserId,
    pub limits: RiskLimits,
    pub active: bool,
    pub name: String,
}

} // verus!
