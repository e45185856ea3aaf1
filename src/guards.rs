//! Settlement idempotency and the phase-aware withdraw lock.
use vstd::prelude::*;
use crate::epoch::EpochPhase;
use crate::error::{OpenmatchError, Result};
use crate::ids::TradeId;

verus! {

/// The settled identifiers after settling `id` on `s` with capacity `max`:
/// the oldest is evicted when the set is full, then `id` is appended.
pub open spec fn settle_into(s: Seq<u128>, id: u128, max: usize) -> Seq<u128> {
    if s.len() >= max && s.len() > 0 {
        s.drop_first().push(id)
    } else {
        s.push(id)
    }
}

/// Remembers settled trades, oldest first, evicting the oldest beyond a
/// capacity.
pub struct SettlementIdempotencyGuard {
    settled: Vec<TradeId>,
    max_size: usize,
}

impl SettlementIdempotencyGuard {
    /// The settled identifiers, oldest first.
    pub closed spec fn view(&self) -> Seq<u128> {
        self.settled@.map_values(|t: TradeId| t.0)
    }

    pub closed spec fn capacity(&self) -> usize {
        self.max_size
    }

    /// No identifier is remembered twice.
    pub closed spec fn wf(&self) -> bool {
        self@.no_duplicates()
    }

    pub fn new(max_size: usize) -> (r: SettlementIdempotencyGuard)
        ensures
            r.wf(),
            r@ == Seq::<u128>::empty(),
            r.capacity() == max_size,
    {
        let r = SettlementIdempotencyGuard { settled: Vec::new(), max_size };
        assert(r@ =~= Seq::<u128>::empty());
        r
    }

    /// Records `trade_id` as settled; fails if it already is.
    pub fn mark_settled(&mut self, trade_id: TradeId) -> (r: Result<()>)
        requires
            old(self).wf(),
        ensures
            final(self).wf(),
            final(self).capacity() == old(self).capacity(),
            r is Ok <==> !old(self)@.contains(trade_id.0),
            r is Err ==> r == Err::<(), OpenmatchError>(OpenmatchError::TradeAlreadySettled(trade_id))
                && final(self)@ == old(self)@,
            r is Ok ==> final(self)@ == settle_into(old(self)@, trade_id.0, old(self).capacity()),
    {
        if self.is_settled(&trade_id) {
            return Err(OpenmatchError::TradeAlreadySettled(trade_id));
        }
        let ghost s0 = self@;
        if self.settled.len() >= self.max_size && self.settled.len() > 0 {
            self.settled.remove(0);
            assert(self@ =~= s0.drop_first());
        }
        let ghost s1 = self@;
        self.settled.push(trade_id);
        proof {
            assert(self@ =~= s1.push(trade_id.0));
            assert forall|i: int, j: int| 0 <= i < self@.len() && 0 <= j < self@.len() && i != j implies self@[i] != self@[j] by {
                if i < s1.len() && j < s1.len() {
                    if s1 != s0 {
                        assert(s1[i] == s0[i + 1] && s1[j] == s0[j + 1]);
                    }
                } else if i < s1.len() {
                    if s1 != s0 {
                        assert(s1[i] == s0[i + 1]);
                    }
                    assert(s0.contains(s1[i]));
                } else if j < s1.len() {
                    if s1 != s0 {
                        assert(s1[j] == s0[j + 1]);
                    }
                    assert(s0.contains(s1[j]));
                }
            }
        }
        Ok(())
    }

    pub fn is_settled(&self, trade_id: &TradeId) -> (r: bool)
        ensures
            r == self@.contains(trade_id.0),
    {
        let mut i: usize = 0;
        while i < self.settled.len()
            invariant
                i <= self.settled@.len(),
                self@ == self.settled@.map_values(|t: TradeId| t.0),
                forall|k: int| 0 <= k < i ==> self@[k] != trade_id.0,
            decreases self.settled@.len() - i,
        {
            if self.settled[i].0 == trade_id.0 {
                assert(self@[i as int] == trade_id.0);
                return true;
            }
            i = i + 1;
        }
        false
    }

    pub fn len(&self) -> (r: usize)
        ensures
            r == self@.len(),
    {
        self.settled.len()
    }

    pub fn is_empty(&self) -> (r: bool)
        ensures
            r == (self@.len() == 0),
    {
        self.settled.len() == 0
    }
}

/// The settlement idempotency guard under its shorter name.
pub type IdempotencyGuard = SettlementIdempotencyGuard;

/// A trade just settled is remembered, so settling it again fails until it
/// is evicted.
pub proof fn lemma_settle_then_reject(s: Seq<u128>, id: u128, max: usize)
    ensures
        settle_into(s, id, max).contains(id),
{
    let t = settle_into(s, id, max);
    assert(t[t.len() - 1] == id);
}

/// The phase-aware withdraw lock: withdrawals are permitted in the collect
/// and seal phases unless the emergency lock is on.
pub struct WithdrawLock {
    current_phase: EpochPhase,
    emergency_lock: bool,
}

/// Whether the lock lets a withdrawal through.
pub open spec fn withdraw_permitted(phase: EpochPhase, emergency: bool) -> bool {
    !emergency && (phase == EpochPhase::Collect || phase == EpochPhase::Seal)
}

impl WithdrawLock {
    pub closed spec fn phase(&self) -> EpochPhase {
        self.current_phase
    }

    pub closed spec fn emergency(&self) -> bool {
        self.emergency_lock
    }

    pub fn new() -> (r: WithdrawLock)
        ensures
            r.phase() == EpochPhase::Collect,
            !r.emergency(),
    {
        WithdrawLock { current_phase: EpochPhase::Collect, emergency_lock: false }
    }

    pub fn set_phase(&mut self, phase: EpochPhase)
        ensures
            final(self).phase() == phase,
            final(self).emergency() == old(self).emergency(),
    {
        self.current_phase = phase;
    }

    pub fn set_emergency_lock(&mut self, locked: bool)
        ensures
            final(self).emergency() == locked,
            final(self).phase() == old(self).phase(),
    {
        self.emergency_lock = locked;
    }

    /// Fails with `WithdrawLockedDuringSettle` under the emergency lock or in
    /// the match and finalize phases.
    pub fn check_withdraw_allowed(&self) -> (r: Result<()>)
        ensures
            r is Ok <==> withdraw_permitted(self.phase(), self.emergency()),
            r is Err ==> r matches Err(OpenmatchError::WithdrawLockedDuringSettle),
    {
        if self.emergency_lock {
            return Err(OpenmatchError::WithdrawLockedDuringSettle);
        }
        match self.current_phase {
            EpochPhase::Collect | EpochPhase::Seal => Ok(()),
            EpochPhase::Match | EpochPhase::Finalize => Err(OpenmatchError::WithdrawLockedDuringSettle),
        }
    }

    /// Whether a withdrawal would pass the lock now.
    pub fn withdrawals_allowed(&self) -> (r: bool)
        ensures
            r == withdraw_permitted(self.phase(), self.emergency()),
    {
        !self.emergency_lock && match self.current_phase {
            EpochPhase::Collect | EpochPhase::Seal => true,
            EpochPhase::Match | EpochPhase::Finalize => false,
        }
    }

    /// `check_withdraw_allowed` under its shorter name.
    pub fn check_withdraw(&self) -> (r: Result<()>)
        ensures
            r is Ok <==> withdraw_permitted(self.phase(), self.emergency()),
            r is Err ==> r matches Err(OpenmatchError::WithdrawLockedDuringSettle),
    {
        self.check_withdraw_allowed()
    }

    pub fn current_phase(&self) -> (r: EpochPhase)
        ensures
            r == self.phase(),
    {
        self.current_phase
    }
}

impl Default for WithdrawLock {
    fn default() -> (r: WithdrawLock)
        ensures
            r.phase() == EpochPhase::Collect,
            !r.emergency(),
    {
        WithdrawLock::new()
    }
}

} // verus!
