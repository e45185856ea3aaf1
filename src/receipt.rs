//! Receipts of the audit trail.
use vstd::prelude::*;
use crate::ids::{EpochId, NodeId, TradeId};

verus! {

#[derive(Clone, Copy, Debug, PartialEq, Eq, Structural, Hash)]
pub enum ReceiptType {
    OrderAccepted,
    OrderRejected,
    TradeExecuted,
    SettlementCompleted,
    SpendRightMinted,
    SpendRightReleased,
    SpendRightSpent,
}

impl ReceiptType {
    /// Upper-case name of the receipt type.
    pub fn as_str(&self) -> (r: &'static str)
        ensures
            r@ == (match self {
                ReceiptType::OrderAccepted => "ORDER_ACCEPTED"@,
                ReceiptType::OrderRejected => "ORDER_REJECTED"@,
                ReceiptType::TradeExecuted => "TRADE_EXECUTED"@,
                ReceiptType::SettlementCompleted => "SETTLEMENT_COMPLETED"@,
                ReceiptType::SpendRightMinted => "SPEND_RIGHT_MINTED"@,
                ReceiptType::SpendRightReleased => "SPEND_RIGHT_RELEASED"@,
                ReceiptType::SpendRightSpent => "SPEND_RIGHT_SPENT"@,
            }),
    {
        match self {
            ReceiptType::OrderAccepted => "ORDER_ACCEPTED",
            ReceiptType::OrderRejected => "ORDER_REJECTED",
            ReceiptType::TradeExecuted => "TRADE_EXECUTED",
            ReceiptType::SettlementCompleted => "SETTLEMENT_COMPLETED",
            ReceiptType::SpendRightMinted => "SPEND_RIGHT_MINTED",
            ReceiptType::SpendRightReleased => "SPEND_RIGHT_RELEASED",
            ReceiptType::SpendRightSpent => "SPEND_RIGHT_SPENT",
        }
    }
}

/// A signed record of a significant action. `issued_at` is milliseconds
/// since the UNIX epoch.
#[derive(Clone, Debug)]
pub struct Receipt {
    pub receipt_type: ReceiptType,
    pub epoch_id: EpochId,
    pub trade_id: Option<TradeId>,
    pub payload: Vec<u8>,
    pub payload_hash: [u8; 32],
    pub signature: Vec<u8>,
    pub issuer_node: NodeId,
    pub issued_at: i64,
}

impl Receipt {
    /// The bytes a signature covers: the payload hash.
    pub fn signing_bytes(&self) -> (r: &[u8; 32])
        ensures
            *r == self.payload_hash,
    {
        &self.payload_hash
    }
}

} // verus!
