//! Orders and their derived effective price.
use vstd::prelude::*;
use crate::clock::now_millis;
use crate::decimal::{Decimal, MAX_UNITS};
use crate::ids::{EpochId, MarketPair, NodeId, OrderId, SpendRightId, UserId};

verus! {

#[derive(Clone, Copy, Debug, PartialEq, Eq, Structural, Hash, PartialOrd, Ord)]
pub enum OrderSide {
    Buy,
    Sell,
}

#[derive(Clone, Copy, Debug, PartialEq, Eq, Structural, Hash, PartialOrd, Ord)]
pub enum OrderType {
    Limit,
    Market,
    Cancel,
}

#[derive(Clone, Copy, Debug, PartialEq, Eq, Structural, Hash, PartialOrd, Ord)]
pub enum OrderStatus {
    PendingEscrow,
    Active,
    PartiallyFilled,
    Filled,
    Cancelled,
    Rejected,
    Expired,
}

impl OrderSide {
    /// Upper-case name of the side.
    pub fn as_str(&self) -> (r: &'static str)
        ensures
            r@ == (match self {
                OrderSide::Buy => "BUY"@,
                OrderSide::Sell => "SELL"@,
            }),
    {
        match self {
            OrderSide::Buy => "BUY",
            OrderSide::Sell => "SELL",
        }
    }
}

impl OrderType {
    /// Upper-case name of the type.
    pub fn as_str(&self) -> (r: &'static str)
        ensures
            r@ == (match self {
                OrderType::Limit => "LIMIT"@,
                OrderType::Market => "MARKET"@,
                OrderType::Cancel => "CANCEL"@,
            }),
    {
        match self {
            OrderType::Limit => "LIMIT",
            OrderType::Market => "MARKET",
            OrderType::Cancel => "CANCEL",
        }
    }
}

impl OrderStatus {
    /// Upper-case name of the status.
    pub fn as_str(&self) -> (r: &'static str)
        ensures
            r@ == (match self {
                OrderStatus::PendingEscrow => "PENDING_ESCROW"@,
                OrderStatus::Active => "ACTIVE"@,
                OrderStatus::PartiallyFilled => "PARTIALLY_FILLED"@,
                OrderStatus::Filled => "FILLED"@,
                OrderStatus::Cancelled => "CANCELLED"@,
                OrderStatus::Rejected => "REJECTED"@,
                OrderStatus::Expired => "EXPIRED"@,
            }),
    {
        match self {
            OrderStatus::PendingEscrow => "PENDING_ESCROW",
            OrderStatus::Active => "ACTIVE",
            OrderStatus::PartiallyFilled => "PARTIALLY_FILLED",
            OrderStatus::Filled => "FILLED",
            OrderStatus::Cancelled => "CANCELLED",
            OrderStatus::Rejected => "REJECTED",
            OrderStatus::Expired => "EXPIRED",
        }
    }
}

/// An order. Timestamps are milliseconds since the UNIX epoch.
#[derive(Clone, Debug)]
pub struct Order {
    pub id: OrderId,
    pub user_id: UserId,
    pub market: MarketPair,
    pub side: OrderSide,
    pub order_type: OrderType,
    pub status: OrderStatus,
    pub price: Option<Decimal>,
    pub quantity: Decimal,
    pub remaining_qty: Decimal,
    pub sr_id: SpendRightId,
    pub epoch_id: Option<EpochId>,
    pub origin_node: NodeId,
    pub sequence: u64,
    pub created_at: i64,
    pub updated_at: i64,
}

/// The price an order competes at, in units: a limit order's price
/// (zero if it has none), the largest amount for a market buy, zero for a
/// market sell or a cancel.
pub open spec fn effective_price_of(o: Order) -> int {
    match o.order_type {
        OrderType::Limit => match o.price {
            Some(p) => p@,
            None => 0,
        },
        OrderType::Market => match o.side {
            OrderSide::Buy => MAX_UNITS as int,
            OrderSide::Sell => 0,
        },
        OrderType::Cancel => 0,
    }
}

impl Order {
    pub fn effective_price(&self) -> (r: Decimal)
        ensures
            r@ == effective_price_of(*self),
    {
        match self.order_type {
            OrderType::Limit => match self.price {
                Some(p) => p,
                None => Decimal::zero(),
            },
            OrderType::Market => match self.side {
                OrderSide::Buy => Decimal::max_value(),
                OrderSide::Sell => Decimal::zero(),
            },
            OrderType::Cancel => Decimal::zero(),
        }
    }

    /// Whether the order would trade at `price`: a buy that pays at least
    /// `price`, or a sell that asks at most `price` (a market sell always).
    pub fn is_matchable_at(&self, price: &Decimal) -> (r: bool)
        ensures
            r == (match self.side {
                OrderSide::Buy => effective_price_of(*self) >= price@,
                OrderSide::Sell => effective_price_of(*self) <= price@ || self.order_type
                    == OrderType::Market,
            }),
    {
        match self.side {
            OrderSide::Buy => self.effective_price().units >= price.units,
            OrderSide::Sell => self.effective_price().units <= price.units || self.order_type
                == OrderType::Market,
        }
    }

    pub fn is_filled(&self) -> (r: bool)
        ensures
            r == (self.remaining_qty@ == 0),
    {
        self.remaining_qty.is_zero()
    }

    /// `quantity - remaining_qty`.
    pub fn filled_qty(&self) -> (r: Decimal)
        requires
            0 <= self.remaining_qty@ <= self.quantity@,
        ensures
            r@ == self.quantity@ - self.remaining_qty@,
    {
        Decimal::from_units(self.quantity.units - self.remaining_qty.units)
    }

    /// The filled share of the quantity, truncated to eight fractional
    /// digits; zero for a zero quantity.
    pub fn fill_ratio(&self) -> (r: Decimal)
        requires
            0 <= self.remaining_qty@ <= self.quantity@,
            self.quantity@ <= MAX_UNITS / 100_000_000,
        ensures
            self.quantity@ == 0 ==> r@ == 0,
            self.quantity@ != 0 ==> r@ == (self.quantity@ - self.remaining_qty@) * 100_000_000
                / self.quantity@,
    {
        if self.quantity.units == 0 {
            Decimal::zero()
        } else {
            let filled = self.quantity.units - self.remaining_qty.units;
            assert(filled * 100_000_000 <= self.quantity@ * 100_000_000) by (nonlinear_arith)
                requires 0 <= filled <= self.quantity@;
            Decimal::from_units(filled * 100_000_000 / self.quantity.units)
        }
    }

    /// A copy of the order.
    pub fn duplicate(&self) -> (r: Order)
        ensures
            r == *self,
    {
        Order {
            id: self.id,
            user_id: self.user_id,
            market: self.market.duplicate(),
            side: self.side,
            order_type: self.order_type,
            status: self.status,
            price: self.price,
            quantity: self.quantity,
            remaining_qty: self.remaining_qty,
            sr_id: self.sr_id,
            epoch_id: self.epoch_id,
            origin_node: self.origin_node,
            sequence: self.sequence,
            created_at: self.created_at,
            updated_at: self.updated_at,
        }
    }

    /// An active BTC/USDT limit order of a fresh user.
    pub fn dummy_limit(side: OrderSide, price: Decimal, qty: Decimal) -> (r: Order)
        ensures
            r.side == side,
            r.order_type == OrderType::Limit,
            r.status == OrderStatus::Active,
            r.price == Some(price),
            r.quantity == qty,
            r.remaining_qty == qty,
            r.sequence == 0,
            r.epoch_id is None,
    {
        Order::dummy_limit_for_user(UserId::new(), side, price, qty)
    }

    /// An active BTC/USDT limit order of `user_id`.
    pub fn dummy_limit_for_user(user_id: UserId, side: OrderSide, price: Decimal, qty: Decimal) -> (r: Order)
        ensures
            r.user_id == user_id,
            r.side == side,
            r.order_type == OrderType::Limit,
            r.status == OrderStatus::Active,
            r.price == Some(price),
            r.quantity == qty,
            r.remaining_qty == qty,
            r.sequence == 0,
            r.epoch_id is None,
    {
        let now = now_millis();
        Order {
            id: OrderId::new(),
            user_id,
            market: MarketPair::new("BTC", "USDT"),
            side,
            order_type: OrderType::Limit,
            status: OrderStatus::Active,
            price: Some(price),
            quantity: qty,
            remaining_qty: qty,
            sr_id: SpendRightId::new(),
            epoch_id: None,
            origin_node: NodeId([0u8; 32]),
            sequence: 0,
            created_at: now,
            updated_at: now,
        }
    }
}

} // verus!
