//! Local (tier-one) settlement: both sides of a trade on this node, settled
//! at once behind the idempotency guard, with supply accounting.
use vstd::prelude::*;
use crate::balance::BalanceEntry;
use crate::decimal::Decimal;
use crate::error::{OpenmatchError, Result};
use crate::guards::{settle_into, SettlementIdempotencyGuard};
use crate::ids::UserId;
use crate::ledger::{frozen_covers, moved, settle_allowed, transfers_applied, BalanceManager, LedgerKey};
use crate::supply::{amount_lookup, SupplyConservation};
use crate::trade::Trade;

verus! {

pub struct Tier1Settler {
    balances: BalanceManager,
    idempotency: SettlementIdempotencyGuard,
    supply: SupplyConservation,
}

impl Tier1Settler {
    pub open spec fn view(&self) -> Map<LedgerKey, BalanceEntry> {
        self.ledger()@
    }

    pub closed spec fn ledger(&self) -> BalanceManager {
        self.balances
    }

    pub closed spec fn guard(&self) -> SettlementIdempotencyGuard {
        self.idempotency
    }

    pub closed spec fn tracker(&self) -> SupplyConservation {
        self.supply
    }

    /// Well-formedness; in particular the balances of every asset add up to
    /// its deposits minus withdrawals.
    pub closed spec fn wf(&self) -> bool {
        &&& self.balances.wf()
        &&& self.idempotency.wf()
        &&& self.supply.wf()
        &&& forall|a: Seq<char>|
            #[trigger] self.balances.asset_total(a) == self.supply.deposited(a) - self.supply.withdrawn(a)
    }

    pub fn new(idempotency_cache_size: usize) -> (r: Tier1Settler)
        ensures
            r.wf(),
            r@ == Map::<LedgerKey, BalanceEntry>::empty(),
            r.guard()@ == Seq::<u128>::empty(),
            r.guard().capacity() == idempotency_cache_size,
    {
        Tier1Settler {
            balances: BalanceManager::new(),
            idempotency: SettlementIdempotencyGuard::new(idempotency_cache_size),
            supply: SupplyConservation::new(),
        }
    }

    /// Credits `amount` to the available balance and records the deposit.
    pub fn deposit(&mut self, user_id: UserId, asset: &str, amount: Decimal) -> (r: Result<()>)
        requires
            old(self).wf(),
        ensures
            final(self).wf(),
            r is Ok <==> amount@ > 0 && old(self).ledger().balance_at((user_id.0, asset@)).available@
                + amount@ <= i128::MAX && old(self).tracker().deposited(asset@) + amount@ <= i128::MAX,
            r is Ok ==> final(self)@ == moved(old(self)@, (user_id.0, asset@), amount@, 0),
            r is Err ==> final(self)@ == old(self)@,
            final(self).guard() == old(self).guard(),
            r is Err ==> final(self).tracker() == old(self).tracker(),
            r is Ok ==> final(self).tracker().deposited(asset@) == old(self).tracker().deposited(asset@) + amount@,
            forall|a: Seq<char>| #[trigger] final(self).tracker().withdrawn(a) == old(self).tracker().withdrawn(a),
            forall|a: Seq<char>| a != asset@ ==> #[trigger] final(self).tracker().deposited(a) == old(self).tracker().deposited(a),
    {
        if amount.units > 0 {
            let d = self.supply.total_deposits(asset);
            proof { self.supply.lemma_totals_nonneg(asset@); }
            if d.units > i128::MAX - amount.units {
                return Err(OpenmatchError::InvalidOrder { reason: String::from_str("Deposit overflows the supply total") });
            }
        }
        match self.balances.deposit(&user_id, asset, amount) {
            Ok(()) => {},
            Err(e) => {
                return Err(e);
            },
        }
        self.supply.record_deposit(asset, amount);
        Ok(())
    }

    /// Moves `amount` from available to frozen.
    pub fn freeze(&mut self, user_id: UserId, asset: &str, amount: Decimal) -> (r: Result<()>)
        requires
            old(self).wf(),
        ensures
            final(self).wf(),
            r is Ok <==> amount@ > 0 && old(self).ledger().balance_at((user_id.0, asset@)).available@
                >= amount@ && old(self).ledger().balance_at((user_id.0, asset@)).frozen@ + amount@ <= i128::MAX,
            r is Ok ==> final(self)@ == moved(old(self)@, (user_id.0, asset@), -amount@, amount@),
            r is Err ==> final(self)@ == old(self)@,
            final(self).guard() == old(self).guard(),
            final(self).tracker() == old(self).tracker(),
    {
        self.balances.freeze(&user_id, asset, amount)
    }

    /// Settles `trade` in its own market, once.
    pub fn settle_trade(&mut self, trade: &Trade) -> (r: Result<()>)
        requires
            old(self).wf(),
        ensures
            final(self).wf(),
            !old(self).guard()@.contains(trade.id.0) && (trade.quantity@ < 0 || trade.quote_amount@ < 0) ==> r
                matches Err(OpenmatchError::InvalidOrder { .. }),
            !old(self).guard()@.contains(trade.id.0) && trade.quantity@ >= 0 && trade.quote_amount@ >= 0 ==> (
            (r matches Err(OpenmatchError::InsufficientFrozen)) <==> !frozen_covers(old(self).ledger(), *trade, trade.market)),
            !old(self).guard()@.contains(trade.id.0) && trade.quantity@ >= 0 && trade.quote_amount@ >= 0
                && frozen_covers(old(self).ledger(), *trade, trade.market) && !settle_allowed(old(self).ledger(), *trade, trade.market)
                ==> r matches Err(OpenmatchError::SettlementFailed { .. }),
            old(self).guard()@.contains(trade.id.0) ==> r == Err::<(), OpenmatchError>(
                OpenmatchError::TradeAlreadySettled(trade.id),
            ),
            r is Ok <==> !old(self).guard()@.contains(trade.id.0) && settle_allowed(old(self).ledger(), *trade, trade.market),
            r is Err ==> final(self)@ == old(self)@,
            r is Ok ==> transfers_applied(old(self).ledger(), final(self).ledger(), *trade, trade.market),
            final(self).tracker() == old(self).tracker(),
            old(self).guard()@.contains(trade.id.0) ==> final(self).guard()@ == old(self).guard()@,
            !old(self).guard()@.contains(trade.id.0) ==> final(self).guard()@ == settle_into(
                old(self).guard()@,
                trade.id.0,
                old(self).guard().capacity(),
            ),
            final(self).guard().capacity() == old(self).guard().capacity(),
    {
        match self.idempotency.mark_settled(trade.id) {
            Ok(()) => {},
            Err(e) => {
                return Err(e);
            },
        }
        self.balances.settle_trade(trade, &trade.market)
    }

    pub fn balance(&self, user_id: UserId, asset: &str) -> (r: BalanceEntry)
        requires
            self.wf(),
        ensures
            r == self.ledger().balance_at((user_id.0, asset@)),
    {
        self.balances.get(&user_id, asset)
    }

    /// Checks that the balances of `asset` add up to its deposits minus
    /// withdrawals; always passes in a well-formed state.
    pub fn verify_supply(&self, asset: &str) -> (r: Result<()>)
        requires
            self.wf(),
        ensures
            r is Ok,
    {
        proof {
            assert forall|a: Seq<char>| #[trigger] self.balances.asset_total(a) <= i128::MAX by {
                self.supply.lemma_totals_nonneg(a);
            }
        }
        let totals = self.balances.asset_totals();
        let a = String::from_str(asset);
        let actual = amount_lookup(&totals, &a);
        let expected = self.supply.expected_total(asset);
        if actual.units != expected.units {
            return Err(OpenmatchError::SupplyInvariantViolation { reason: String::from_str("Supply mismatch") });
        }
        Ok(())
    }

    pub fn idempotency(&self) -> (r: &SettlementIdempotencyGuard)
        ensures
            *r == self.guard(),
    {
        &self.idempotency
    }
}

} // verus!
