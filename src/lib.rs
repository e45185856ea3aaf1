//! Deterministic epoch-based batch-auction trading engine.
pub mod agent;
pub mod balance;
pub mod book;
pub mod buffer;
pub mod clearing;
pub mod clock;
pub mod codec;
pub mod collect;
pub mod commitments;
pub mod config;
pub mod decimal;
pub mod epoch;
pub mod error;
pub mod escrow;
pub mod freeze;
pub mod guards;
pub mod ids;
pub mod ledger;
pub mod limits;
pub mod matcher;
pub mod order;
pub mod ordering;
pub mod receipt;
pub mod risk;
pub mod sealer;
pub mod secured;
pub mod settlement;
pub mod spend_right;
pub mod sums;
pub mod supply;
pub mod trade;
