//! Epoch phases and the artifacts an epoch produces.
use vstd::prelude::*;
use crate::decimal::Decimal;
use crate::ids::{EpochId, NodeId};
use crate::order::Order;
use crate::trade::Trade;

verus! {

/// Default duration of the collect phase, in milliseconds.
pub const DEFAULT_COLLECT_MS: u64 = 1000;

/// Default duration of the seal phase, in milliseconds.
pub const DEFAULT_SEAL_MS: u64 = 200;

/// Default timeout of the match phase, in milliseconds.
pub const DEFAULT_MATCH_TIMEOUT_MS: u64 = 500;

/// Default timeout of the finalize phase, in milliseconds.
pub const DEFAULT_FINALIZE_TIMEOUT_MS: u64 = 2000;

/// Default grace period of the seal phase, in milliseconds.
pub const DEFAULT_SEAL_GRACE_MS: u64 = 50;

/// The four phases of an epoch, in order.
#[derive(Clone, Copy, Debug, PartialEq, Eq, Structural, Hash)]
pub enum EpochPhase {
    Collect,
    Seal,
    Match,
    Finalize,
}

impl EpochPhase {
    /// The phase that follows; after `Finalize` the cycle restarts.
    pub fn next(self) -> (r: EpochPhase)
        ensures
            r == (match self {
                EpochPhase::Collect => EpochPhase::Seal,
                EpochPhase::Seal => EpochPhase::Match,
                EpochPhase::Match => EpochPhase::Finalize,
                EpochPhase::Finalize => EpochPhase::Collect,
            }),
    {
        match self {
            EpochPhase::Collect => EpochPhase::Seal,
            EpochPhase::Seal => EpochPhase::Match,
            EpochPhase::Match => EpochPhase::Finalize,
            EpochPhase::Finalize => EpochPhase::Collect,
        }
    }

    /// Upper-case name of the phase.
    pub fn as_str(&self) -> (r: &'static str)
        ensures
            r@ == (match self {
                EpochPhase::Collect => "COLLECT"@,
                EpochPhase::Seal => "SEAL"@,
                EpochPhase::Match => "MATCH"@,
                EpochPhase::Finalize => "FINALIZE"@,
            }),
    {
        match self {
            EpochPhase::Collect => "COLLECT",
            EpochPhase::Seal => "SEAL",
            EpochPhase::Match => "MATCH",
            EpochPhase::Finalize => "FINALIZE",
        }
    }
}

/// A span of time in whole milliseconds.
#[derive(Clone, Copy, Debug, PartialEq, Eq, Structural, Hash)]
pub struct Duration {
    pub millis: u64,
}

impl Duration {
    pub fn from_millis(millis: u64) -> (r: Duration)
        ensures
            r.millis == millis,
    {
        Duration { millis }
    }

    pub fn as_millis(&self) -> (r: u64)
        ensures
            r == self.millis,
    {
        self.millis
    }
}

/// The immutable, canonically ordered input of one epoch's matching.
#[derive(Clone, Debug)]
pub struct SealedBatch {
    pub epoch_id: EpochId,
    pub orders: Vec<Order>,
    pub batch_hash: [u8; 32],
    pub sealed_at: i64,
    pub sealer_node: NodeId,
}

/// The deterministic output of one epoch's matching.
#[derive(Clone, Debug)]
pub struct TradeBundle {
    pub epoch_id: EpochId,
    pub trades: Vec<Trade>,
    pub trade_root: [u8; 32],
    pub input_hash: [u8; 32],
    pub clearing_price: Option<Decimal>,
    pub remaining_orders: Vec<Order>,
}

/// A light attestation of a sealed batch, for comparison across nodes.
#[derive(Clone, Debug)]
pub struct BatchDigest {
    pub epoch_id: EpochId,
    pub batch_hash: [u8; 32],
    pub order_count: usize,
    pub signer_node: NodeId,
    pub signature: Vec<u8>,
}

/// Durations of the phases of an epoch.
#[derive(Clone, Copy, Debug)]
pub struct EpochConfig {
    pub collect_duration: Duration,
    pub seal_duration: Duration,
    pub match_timeout: Duration,
    pub finalize_timeout: Duration,
    pub seal_grace: Duration,
}

impl Default for EpochConfig {
    fn default() -> (r: EpochConfig)
        ensures
            r.collect_duration.millis == DEFAULT_COLLECT_MS,
            r.seal_duration.millis == DEFAULT_SEAL_MS,
            r.match_timeout.millis == DEFAULT_MATCH_TIMEOUT_MS,
            r.finalize_timeout.millis == DEFAULT_FINALIZE_TIMEOUT_MS,
            r.seal_grace.millis == DEFAULT_SEAL_GRACE_MS,
    {
        EpochConfig {
            collect_duration: Duration::from_millis(DEFAULT_COLLECT_MS),
            seal_duration: Duration::from_millis(DEFAULT_SEAL_MS),
            match_timeout: Duration::from_millis(DEFAULT_MATCH_TIMEOUT_MS),
            finalize_timeout: Duration::from_millis(DEFAULT_FINALIZE_TIMEOUT_MS),
            seal_grace: Duration::from_millis(DEFAULT_SEAL_GRACE_MS),
        }
    }
}

impl EpochConfig {
    /// Collect, seal, match and finalize durations added up (the seal grace
    /// is not part of the cycle).
    pub fn total_duration(&self) -> (r: Duration)
        requires
            self.collect_duration.millis + self.seal_duration.millis + self.match_timeout.millis
                + self.finalize_timeout.millis <= u64::MAX,
        ensures
            r.millis == self.collect_duration.millis + self.seal_duration.millis
                + self.match_timeout.millis + self.finalize_timeout.millis,
    {
        Duration::from_millis(
            self.collect_duration.millis + self.seal_duration.millis + self.match_timeout.millis
                + self.finalize_timeout.millis,
        )
    }
}

} // verus!
