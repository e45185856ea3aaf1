//! Executed trades.
use vstd::prelude::*;
use crate::decimal::Decimal;
use crate::ids::{EpochId, MarketPair, NodeId, OrderId, TradeId, UserId};
use crate::order::OrderSide;

verus! {

/// A fill between a taker and a maker at the uniform clearing price.
#[derive(Clone, Debug)]
pub struct Trade {
    pub id: TradeId,
    pub epoch_id: EpochId,
    pub market: MarketPair,
    pub taker_order_id: OrderId,
    pub taker_user_id: UserId,
    pub maker_order_id: OrderId,
    pub maker_user_id: UserId,
    pub price: Decimal,
    pub quantity: Decimal,
    pub quote_amount: Decimal,
    pub taker_side: OrderSide,
    pub matcher_node: NodeId,
    pub executed_at: i64,
}

impl Trade {
    /// The quote amount exchanged.
    pub fn notional(&self) -> (r: Decimal)
        ensures
            r == self.quote_amount,
    {
        self.quote_amount
    }

    pub fn taker_is_buyer(&self) -> (r: bool)
        ensures
            r == (self.taker_side == OrderSide::Buy),
    {
        self.taker_side == OrderSide::Buy
    }
}

} // verus!
