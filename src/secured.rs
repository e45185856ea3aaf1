//! The epoch coordinator's balance facade: the ledger behind settlement
//! idempotency, the withdraw lock and supply accounting.
use vstd::prelude::*;
use crate::balance::BalanceEntry;
use crate::decimal::Decimal;
use crate::epoch::EpochPhase;
use crate::error::{OpenmatchError, Result};
use crate::guards::{settle_into, withdraw_permitted, SettlementIdempotencyGuard, WithdrawLock};
use crate::ids::{MarketPair, UserId};
use crate::ledger::{frozen_covers, moved, settle_allowed, transfers_applied, BalanceManager, LedgerKey};
use crate::supply::SupplyConservation;
use crate::trade::Trade;

verus! {

/// `n + 1`, staying at the largest value once there.
pub open spec fn bumped(n: u64) -> u64 {
    if n < u64::MAX {
        (n + 1) as u64
    } else {
        n
    }
}

pub struct SecuredBalanceManager {
    inner: BalanceManager,
    settlement_guard: SettlementIdempotencyGuard,
    withdraw_lock: WithdrawLock,
    supply_tracker: SupplyConservation,
    ops_count: u64,
}

impl SecuredBalanceManager {
    /// The balances, by key.
    pub open spec fn view(&self) -> Map<LedgerKey, BalanceEntry> {
        self.ledger()@
    }

    pub closed spec fn ledger(&self) -> BalanceManager {
        self.inner
    }

    pub closed spec fn supply(&self) -> SupplyConservation {
        self.supply_tracker
    }

    pub closed spec fn guard(&self) -> SettlementIdempotencyGuard {
        self.settlement_guard
    }

    pub closed spec fn lock(&self) -> WithdrawLock {
        self.withdraw_lock
    }

    pub closed spec fn ops(&self) -> u64 {
        self.ops_count
    }

    /// Well-formedness; in particular supply is conserved: for every asset
    /// the balances held add up to deposits minus withdrawals.
    pub closed spec fn wf(&self) -> bool {
        &&& self.inner.wf()
        &&& self.settlement_guard.wf()
        &&& self.supply_tracker.wf()
        &&& forall|a: Seq<char>|
            #[trigger] self.inner.asset_total(a) == self.supply_tracker.deposited(a)
                - self.supply_tracker.withdrawn(a)
    }

    /// Supply is conserved in every well-formed state, and no balance is
    /// negative.
    pub proof fn lemma_conserved(&self, a: Seq<char>, k: LedgerKey)
        requires
            self.wf(),
        ensures
            self.ledger().asset_total(a) == self.supply().deposited(a) - self.supply().withdrawn(a),
            self.ledger().balance_at(k).available@ >= 0,
            self.ledger().balance_at(k).frozen@ >= 0,
    {
        self.inner.lemma_nonnegative(k);
    }

    pub fn new(idempotency_cache_size: usize) -> (r: SecuredBalanceManager)
        ensures
            r.wf(),
            r@ == Map::<LedgerKey, BalanceEntry>::empty(),
            r.guard()@ == Seq::<u128>::empty(),
            r.guard().capacity() == idempotency_cache_size,
            r.lock().phase() == EpochPhase::Collect,
            !r.lock().emergency(),
            r.ops() == 0,
    {
        SecuredBalanceManager {
            inner: BalanceManager::new(),
            settlement_guard: SettlementIdempotencyGuard::new(idempotency_cache_size),
            withdraw_lock: WithdrawLock::new(),
            supply_tracker: SupplyConservation::new(),
            ops_count: 0,
        }
    }

    fn count_op(&mut self)
        ensures
            *final(self) == (SecuredBalanceManager {
                ops_count: if old(self).ops_count < u64::MAX { (old(self).ops_count + 1) as u64 } else { old(self).ops_count },
                ..*old(self)
            }),
    {
        if self.ops_count < u64::MAX {
            self.ops_count = self.ops_count + 1;
        }
    }

    /// Deposits into the ledger and records the deposit.
    pub fn deposit(&mut self, user_id: &UserId, asset: &str, amount: Decimal) -> (r: Result<()>)
        requires
            old(self).wf(),
        ensures
            final(self).wf(),
            amount@ <= 0 ==> r matches Err(OpenmatchError::InvalidOrder { .. }),
            r is Ok <==> amount@ > 0 && old(self).ledger().balance_at((user_id.0, asset@)).available@
                + amount@ <= i128::MAX && old(self).supply().deposited(asset@) + amount@ <= i128::MAX,
            r is Ok ==> final(self)@ == moved(old(self)@, (user_id.0, asset@), amount@, 0)
                && final(self).supply().deposited(asset@) == old(self).supply().deposited(asset@) + amount@
                && final(self).supply().withdrawn(asset@) == old(self).supply().withdrawn(asset@),
            r is Err ==> final(self)@ == old(self)@,
            final(self).lock() == old(self).lock(),
            final(self).ops() == (if r is Ok { bumped(old(self).ops()) } else { old(self).ops() }),
            final(self).guard() == old(self).guard(),
            r is Err ==> final(self).supply() == old(self).supply(),
            forall|a: Seq<char>| a != asset@ ==> #[trigger] final(self).supply().deposited(a) == old(self).supply().deposited(a)
                && final(self).supply().withdrawn(a) == old(self).supply().withdrawn(a),
    {
        if amount.units > 0 {
            let d = self.supply_tracker.total_deposits(asset);
            proof { self.supply_tracker.lemma_totals_nonneg(asset@); }
            if d.units > i128::MAX - amount.units {
                return Err(OpenmatchError::InvalidOrder { reason: String::from_str("Deposit overflows the supply total") });
            }
        }
        match self.inner.deposit(user_id, asset, amount) {
            Ok(()) => {},
            Err(e) => {
                return Err(e);
            },
        }
        self.supply_tracker.record_deposit(asset, amount);
        self.count_op();
        Ok(())
    }

    /// Withdraws from the ledger, if the withdraw lock allows it, and
    /// records the withdrawal.
    pub fn withdraw(&mut self, user_id: &UserId, asset: &str, amount: Decimal) -> (r: Result<()>)
        requires
            old(self).wf(),
        ensures
            final(self).wf(),
            !withdraw_permitted(old(self).lock().phase(), old(self).lock().emergency()) ==> r matches Err(
                OpenmatchError::WithdrawLockedDuringSettle,
            ),
            r is Ok <==> withdraw_permitted(old(self).lock().phase(), old(self).lock().emergency())
                && amount@ > 0 && old(self).ledger().balance_at((user_id.0, asset@)).available@ >= amount@,
            r is Ok ==> final(self)@ == moved(old(self)@, (user_id.0, asset@), -amount@, 0)
                && final(self).supply().withdrawn(asset@) == old(self).supply().withdrawn(asset@) + amount@
                && final(self).supply().deposited(asset@) == old(self).supply().deposited(asset@),
            r is Err ==> final(self)@ == old(self)@,
            final(self).lock() == old(self).lock(),
            final(self).ops() == (if r is Ok { bumped(old(self).ops()) } else { old(self).ops() }),
            final(self).guard() == old(self).guard(),
            r is Err ==> final(self).supply() == old(self).supply(),
            forall|a: Seq<char>| a != asset@ ==> #[trigger] final(self).supply().deposited(a) == old(self).supply().deposited(a)
                && final(self).supply().withdrawn(a) == old(self).supply().withdrawn(a),
    {
        match self.withdraw_lock.check_withdraw_allowed() {
            Ok(()) => {},
            Err(e) => {
                return Err(e);
            },
        }
        proof {
            self.supply_tracker.lemma_totals_nonneg(asset@);
            self.inner.lemma_nonnegative((user_id.0, asset@));
            self.inner.lemma_entry_within_total((user_id.0, asset@));
        }
        match self.inner.withdraw(user_id, asset, amount) {
            Ok(()) => {},
            Err(e) => {
                return Err(e);
            },
        }
        self.supply_tracker.record_withdrawal(asset, amount);
        self.count_op();
        Ok(())
    }

    /// Moves funds from available to frozen, in any phase.
    pub fn freeze(&mut self, user_id: &UserId, asset: &str, amount: Decimal) -> (r: Result<()>)
        requires
            old(self).wf(),
        ensures
            final(self).wf(),
            r is Ok <==> amount@ > 0 && old(self).ledger().balance_at((user_id.0, asset@)).available@
                >= amount@ && old(self).ledger().balance_at((user_id.0, asset@)).frozen@ + amount@ <= i128::MAX,
            r is Ok ==> final(self)@ == moved(old(self)@, (user_id.0, asset@), -amount@, amount@),
            r is Err ==> final(self)@ == old(self)@,
            final(self).lock() == old(self).lock(),
            final(self).ops() == (if r is Ok { bumped(old(self).ops()) } else { old(self).ops() }),
            final(self).guard() == old(self).guard(),
            final(self).supply() == old(self).supply(),
    {
        match self.inner.freeze(user_id, asset, amount) {
            Ok(()) => {},
            Err(e) => {
                return Err(e);
            },
        }
        self.count_op();
        Ok(())
    }

    /// Moves funds from frozen back to available, in any phase.
    pub fn unfreeze(&mut self, user_id: &UserId, asset: &str, amount: Decimal) -> (r: Result<()>)
        requires
            old(self).wf(),
        ensures
            final(self).wf(),
            r is Ok <==> amount@ > 0 && old(self).ledger().balance_at((user_id.0, asset@)).frozen@
                >= amount@ && old(self).ledger().balance_at((user_id.0, asset@)).available@ + amount@ <= i128::MAX,
            r is Ok ==> final(self)@ == moved(old(self)@, (user_id.0, asset@), amount@, -amount@),
            r is Err ==> final(self)@ == old(self)@,
            final(self).lock() == old(self).lock(),
            final(self).ops() == (if r is Ok { bumped(old(self).ops()) } else { old(self).ops() }),
            final(self).guard() == old(self).guard(),
            final(self).supply() == old(self).supply(),
    {
        match self.inner.unfreeze(user_id, asset, amount) {
            Ok(()) => {},
            Err(e) => {
                return Err(e);
            },
        }
        self.count_op();
        Ok(())
    }

    /// Settles a trade once: a trade already settled is rejected with
    /// `TradeAlreadySettled` and leaves balances unchanged.
    pub fn settle_trade(&mut self, trade: &Trade, market: &MarketPair) -> (r: Result<()>)
        requires
            old(self).wf(),
        ensures
            final(self).wf(),
            !old(self).guard()@.contains(trade.id.0) && (trade.quantity@ < 0 || trade.quote_amount@ < 0) ==> r
                matches Err(OpenmatchError::InvalidOrder { .. }),
            !old(self).guard()@.contains(trade.id.0) && trade.quantity@ >= 0 && trade.quote_amount@ >= 0 ==> (
            (r matches Err(OpenmatchError::InsufficientFrozen)) <==> !frozen_covers(old(self).ledger(), *trade, *market)),
            !old(self).guard()@.contains(trade.id.0) && trade.quantity@ >= 0 && trade.quote_amount@ >= 0
                && frozen_covers(old(self).ledger(), *trade, *market) && !settle_allowed(old(self).ledger(), *trade, *market)
                ==> r matches Err(OpenmatchError::SettlementFailed { .. }),
            old(self).guard()@.contains(trade.id.0) ==> r == Err::<(), OpenmatchError>(
                OpenmatchError::TradeAlreadySettled(trade.id),
            ) && final(self)@ == old(self)@,
            !old(self).guard()@.contains(trade.id.0) ==> final(self).guard()@.contains(trade.id.0),
            r is Ok <==> !old(self).guard()@.contains(trade.id.0) && settle_allowed(old(self).ledger(), *trade, *market),
            r is Err ==> final(self)@ == old(self)@,
            final(self).lock() == old(self).lock(),
            final(self).ops() == (if r is Ok { bumped(old(self).ops()) } else { old(self).ops() }),
            final(self).supply() == old(self).supply(),
            old(self).guard()@.contains(trade.id.0) ==> final(self).guard()@ == old(self).guard()@
                && final(self).guard().capacity() == old(self).guard().capacity(),
            !old(self).guard()@.contains(trade.id.0) ==> final(self).guard()@ == settle_into(
                old(self).guard()@,
                trade.id.0,
                old(self).guard().capacity(),
            ) && final(self).guard().capacity() == old(self).guard().capacity(),
            r is Ok ==> transfers_applied(old(self).ledger(), final(self).ledger(), *trade, *market),
    {
        match self.settlement_guard.mark_settled(trade.id) {
            Ok(()) => {},
            Err(e) => {
                return Err(e);
            },
        }
        proof {
            crate::guards::lemma_settle_then_reject(old(self).guard()@, trade.id.0, old(self).guard().capacity());
        }
        match self.inner.settle_trade(trade, market) {
            Ok(()) => {},
            Err(e) => {
                return Err(e);
            },
        }
        self.count_op();
        Ok(())
    }

    pub fn set_phase(&mut self, phase: EpochPhase)
        requires
            old(self).wf(),
        ensures
            final(self).wf(),
            final(self)@ == old(self)@,
            final(self).lock().phase() == phase,
            final(self).lock().emergency() == old(self).lock().emergency(),
    {
        self.withdraw_lock.set_phase(phase);
    }

    pub fn set_emergency_lock(&mut self, locked: bool)
        requires
            old(self).wf(),
        ensures
            final(self).wf(),
            final(self)@ == old(self)@,
            final(self).lock().emergency() == locked,
            final(self).lock().phase() == old(self).lock().phase(),
    {
        self.withdraw_lock.set_emergency_lock(locked);
    }

    /// Checks the balances held against deposits minus withdrawals; always
    /// passes in a well-formed state.
    pub fn verify_supply_conservation(&self) -> (r: Result<()>)
        requires
            self.wf(),
        ensures
            r is Ok,
    {
        proof {
            assert forall|a: Seq<char>| #[trigger] self.inner.asset_total(a) <= i128::MAX by {
                self.supply_tracker.lemma_totals_nonneg(a);
            }
        }
        let actual = self.inner.asset_totals();
        self.supply_tracker.verify(&actual)
    }

    pub fn get(&self, user_id: &UserId, asset: &str) -> (r: BalanceEntry)
        requires
            self.wf(),
        ensures
            r == self.ledger().balance_at((user_id.0, asset@)),
    {
        self.inner.get(user_id, asset)
    }

    pub fn user_balances(&self, user_id: &UserId) -> (r: Vec<(String, BalanceEntry)>)
        requires
            self.wf(),
        ensures
            forall|i: int|
                0 <= i < r@.len() ==> self@.contains_key((user_id.0, #[trigger] r@[i].0@))
                    && self@[(user_id.0, r@[i].0@)] == r@[i].1,
            forall|a: Seq<char>|
                self@.contains_key((user_id.0, a)) ==> exists|i: int|
                    0 <= i < r@.len() && #[trigger] r@[i].0@ == a,
    {
        self.inner.user_balances(user_id)
    }

    pub fn ops_count(&self) -> (r: u64)
        ensures
            r == self.ops(),
    {
        self.ops_count
    }

    pub fn settlement_guard(&self) -> (r: &SettlementIdempotencyGuard)
        ensures
            *r == self.guard(),
    {
        &self.settlement_guard
    }
}

} // verus!
