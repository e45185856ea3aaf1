//! Errors of the engine, each with a stable `OM_ERR_` code.
use vstd::prelude::*;
use crate::decimal::Decimal;
use crate::epoch::EpochPhase;
use crate::ids::{NodeId, OrderId, TradeId};

verus! {

/// Every failure the engine reports. Codes group by subsystem: orders 1xx,
/// balances 2xx, spend rights 3xx, epochs 4xx, matching 5xx, settlement
/// 6xx, network 7xx, security 8xx, internal 9xx.
#[derive(Clone, Debug)]
pub enum OpenmatchError {
    OrderNotFound(OrderId),
    InvalidOrder { reason: String },
    DuplicateOrder(OrderId),
    OrderNotCancellable,
    OrderLimitExceeded,
    InsufficientBalance { needed: Decimal, available: Decimal },
    InsufficientFrozen,
    BalanceUnderflow,
    InvalidSpendRight { reason: String },
    SpendRightExpired,
    SpendRightSignatureInvalid,
    SpendRightNonceReused,
    WrongEpochPhase { expected: EpochPhase, actual: EpochPhase },
    EpochTimeout { phase: EpochPhase },
    BufferAlreadySealed,
    BufferFull,
    MatchingFailed { reason: String },
    DeterminismViolation { expected: String, actual: String },
    SelfTradeBlocked,
    SettlementFailed { reason: String },
    OnChainRejected { reason: String },
    TradeAlreadySettled(TradeId),
    WithdrawLockedDuringSettle,
    NodeNotFound(NodeId),
    GossipError { reason: String },
    PeerConnectionFailed { reason: String },
    RateLimitExceeded { reason: String },
    SupplyInvariantViolation { reason: String },
    NonceReplay { node_hex: String, nonce: u64 },
    OrderFloodDetected { count: usize, window_ms: u64 },
    SuspiciousPrice { reason: String },
    Internal(String),
    Serialization(String),
    Configuration(String),
    Io(String),
}

/// Result with the engine's error.
pub type Result<T> = core::result::Result<T, OpenmatchError>;

/// The stable code of each error.
pub open spec fn code_of(e: OpenmatchError) -> Seq<char> {
    match e {
        OpenmatchError::OrderNotFound(_) => "OM_ERR_100"@,
        OpenmatchError::InvalidOrder { .. } => "OM_ERR_101"@,
        OpenmatchError::DuplicateOrder(_) => "OM_ERR_102"@,
        OpenmatchError::OrderNotCancellable => "OM_ERR_103"@,
        OpenmatchError::OrderLimitExceeded => "OM_ERR_104"@,
        OpenmatchError::InsufficientBalance { .. } => "OM_ERR_200"@,
        OpenmatchError::InsufficientFrozen => "OM_ERR_201"@,
        OpenmatchError::BalanceUnderflow => "OM_ERR_202"@,
        OpenmatchError::InvalidSpendRight { .. } => "OM_ERR_300"@,
        OpenmatchError::SpendRightExpired => "OM_ERR_301"@,
        OpenmatchError::SpendRightSignatureInvalid => "OM_ERR_302"@,
        OpenmatchError::SpendRightNonceReused => "OM_ERR_303"@,
        OpenmatchError::WrongEpochPhase { .. } => "OM_ERR_400"@,
        OpenmatchError::EpochTimeout { .. } => "OM_ERR_401"@,
        OpenmatchError::BufferAlreadySealed => "OM_ERR_402"@,
        OpenmatchError::BufferFull => "OM_ERR_403"@,
        OpenmatchError::MatchingFailed { .. } => "OM_ERR_500"@,
        OpenmatchError::DeterminismViolation { .. } => "OM_ERR_501"@,
        OpenmatchError::SelfTradeBlocked => "OM_ERR_502"@,
        OpenmatchError::SettlementFailed { .. } => "OM_ERR_600"@,
        OpenmatchError::OnChainRejected { .. } => "OM_ERR_601"@,
        OpenmatchError::TradeAlreadySettled(_) => "OM_ERR_602"@,
        OpenmatchError::WithdrawLockedDuringSettle => "OM_ERR_603"@,
        OpenmatchError::NodeNotFound(_) => "OM_ERR_700"@,
        OpenmatchError::GossipError { .. } => "OM_ERR_701"@,
        OpenmatchError::PeerConnectionFailed { .. } => "OM_ERR_702"@,
        OpenmatchError::RateLimitExceeded { .. } => "OM_ERR_800"@,
        OpenmatchError::SupplyInvariantViolation { .. } => "OM_ERR_801"@,
        OpenmatchError::NonceReplay { .. } => "OM_ERR_802"@,
        OpenmatchError::OrderFloodDetected { .. } => "OM_ERR_803"@,
        OpenmatchError::SuspiciousPrice { .. } => "OM_ERR_804"@,
        OpenmatchError::Internal(_) => "OM_ERR_900"@,
        OpenmatchError::Serialization(_) => "OM_ERR_901"@,
        OpenmatchError::Configuration(_) => "OM_ERR_902"@,
        OpenmatchError::Io(_) => "OM_ERR_903"@,
    }
}

impl OpenmatchError {
    /// The stable code of the error.
    pub fn code(&self) -> (r: &'static str)
        ensures
            r@ == code_of(*self),
    {
        proof {
            reveal_strlit("OM_ERR_100");
            reveal_strlit("OM_ERR_101");
            reveal_strlit("OM_ERR_102");
            reveal_strlit("OM_ERR_103");
            reveal_strlit("OM_ERR_104");
            reveal_strlit("OM_ERR_200");
            reveal_strlit("OM_ERR_201");
            reveal_strlit("OM_ERR_202");
            reveal_strlit("OM_ERR_300");
            reveal_strlit("OM_ERR_301");
            reveal_strlit("OM_ERR_302");
            reveal_strlit("OM_ERR_303");
            reveal_strlit("OM_ERR_400");
            reveal_strlit("OM_ERR_401");
            reveal_strlit("OM_ERR_402");
            reveal_strlit("OM_ERR_403");
            reveal_strlit("OM_ERR_500");
            reveal_strlit("OM_ERR_501");
            reveal_strlit("OM_ERR_502");
            reveal_strlit("OM_ERR_600");
            reveal_strlit("OM_ERR_601");
            reveal_strlit("OM_ERR_602");
            reveal_strlit("OM_ERR_603");
            reveal_strlit("OM_ERR_700");
            reveal_strlit("OM_ERR_701");
            reveal_strlit("OM_ERR_702");
            reveal_strlit("OM_ERR_800");
            reveal_strlit("OM_ERR_801");
            reveal_strlit("OM_ERR_802");
            reveal_strlit("OM_ERR_803");
            reveal_strlit("OM_ERR_804");
            reveal_strlit("OM_ERR_900");
            reveal_strlit("OM_ERR_901");
            reveal_strlit("OM_ERR_902");
            reveal_strlit("OM_ERR_903");
        }
        match self {
            OpenmatchError::OrderNotFound(_) => "OM_ERR_100",
            OpenmatchError::InvalidOrder { .. } => "OM_ERR_101",
            OpenmatchError::DuplicateOrder(_) => "OM_ERR_102",
            OpenmatchError::OrderNotCancellable => "OM_ERR_103",
            OpenmatchError::OrderLimitExceeded => "OM_ERR_104",
            OpenmatchError::InsufficientBalance { .. } => "OM_ERR_200",
            OpenmatchError::InsufficientFrozen => "OM_ERR_201",
            OpenmatchError::BalanceUnderflow => "OM_ERR_202",
            OpenmatchError::InvalidSpendRight { .. } => "OM_ERR_300",
            OpenmatchError::SpendRightExpired => "OM_ERR_301",
            OpenmatchError::SpendRightSignatureInvalid => "OM_ERR_302",
            OpenmatchError::SpendRightNonceReused => "OM_ERR_303",
            OpenmatchError::WrongEpochPhase { .. } => "OM_ERR_400",
            OpenmatchError::EpochTimeout { .. } => "OM_ERR_401",
            OpenmatchError::BufferAlreadySealed => "OM_ERR_402",
            OpenmatchError::BufferFull => "OM_ERR_403",
            OpenmatchError::MatchingFailed { .. } => "OM_ERR_500",
            OpenmatchError::DeterminismViolation { .. } => "OM_ERR_501",
            OpenmatchError::SelfTradeBlocked => "OM_ERR_502",
            OpenmatchError::SettlementFailed { .. } => "OM_ERR_600",
            OpenmatchError::OnChainRejected { .. } => "OM_ERR_601",
            OpenmatchError::TradeAlreadySettled(_) => "OM_ERR_602",
            OpenmatchError::WithdrawLockedDuringSettle => "OM_ERR_603",
            OpenmatchError::NodeNotFound(_) => "OM_ERR_700",
            OpenmatchError::GossipError { .. } => "OM_ERR_701",
            OpenmatchError::PeerConnectionFailed { .. } => "OM_ERR_702",
            OpenmatchError::RateLimitExceeded { .. } => "OM_ERR_800",
            OpenmatchError::SupplyInvariantViolation { .. } => "OM_ERR_801",
            OpenmatchError::NonceReplay { .. } => "OM_ERR_802",
            OpenmatchError::OrderFloodDetected { .. } => "OM_ERR_803",
            OpenmatchError::SuspiciousPrice { .. } => "OM_ERR_804",
            OpenmatchError::Internal(_) => "OM_ERR_900",
            OpenmatchError::Serialization(_) => "OM_ERR_901",
            OpenmatchError::Configuration(_) => "OM_ERR_902",
            OpenmatchError::Io(_) => "OM_ERR_903",
        }
    }
}

} // verus!
