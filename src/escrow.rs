//! The spend-right store: freezes funds and mints a spend right in one
//! step, and moves spend rights through their life cycle.
use vstd::prelude::*;
use crate::clock::now_millis;
use crate::decimal::Decimal;
use crate::error::{OpenmatchError, Result};
use crate::ids::{EpochId, NodeId, OrderId, SpendRightId, UserId};
use crate::ledger::{moved, BalanceManager};
use crate::spend_right::{SpendRight, SpendRightState, SPEND_RIGHT_LIFETIME_MS};

verus! {

/// `i` is the first position of `s` holding spend right `id`.
pub open spec fn first_with_id(s: Seq<SpendRight>, id: u128, i: int) -> bool {
    &&& 0 <= i < s.len()
    &&& s[i].id.0 == id
    &&& forall|j: int| 0 <= j < i ==> (#[trigger] s[j]).id.0 != id
}

/// No spend right of `s` has identifier `id`.
pub open spec fn lacks_id(s: Seq<SpendRight>, id: u128) -> bool {
    forall|j: int| 0 <= j < s.len() ==> (#[trigger] s[j]).id.0 != id
}

/// Number of active spend rights in `s`.
pub open spec fn active_in(s: Seq<SpendRight>) -> nat
    decreases s.len(),
{
    if s.len() == 0 {
        0
    } else {
        active_in(s.drop_last()) + if s.last().state == SpendRightState::Active { 1nat } else { 0 }
    }
}

pub struct EscrowManager {
    spend_rights: Vec<SpendRight>,
    node_id: NodeId,
    next_nonce: u64,
}

impl EscrowManager {
    /// The spend rights, in order of minting.
    pub closed spec fn rights(&self) -> Seq<SpendRight> {
        self.spend_rights@
    }

    /// The nonce the next spend right receives.
    pub closed spec fn nonce(&self) -> u64 {
        self.next_nonce
    }

    pub closed spec fn node(&self) -> NodeId {
        self.node_id
    }

    /// Well-formedness: identifiers are unique, every stored nonce is below
    /// the next one, and every amount is positive.
    pub closed spec fn wf(&self) -> bool {
        &&& forall|i: int, j: int|
            0 <= i < self.spend_rights@.len() && 0 <= j < self.spend_rights@.len() && i != j
                ==> self.spend_rights@[i].id.0 != self.spend_rights@[j].id.0
        &&& forall|i: int| 0 <= i < self.spend_rights@.len() ==> (#[trigger] self.spend_rights@[i]).nonce
            < self.next_nonce && self.spend_rights@[i].amount@ > 0
    }

    pub fn new(node_id: NodeId) -> (r: EscrowManager)
        ensures
            r.wf(),
            r.rights() == Seq::<SpendRight>::empty(),
            r.nonce() == 0,
            r.node() == node_id,
    {
        EscrowManager { spend_rights: Vec::new(), node_id, next_nonce: 0 }
    }

    fn find(&self, sr_id: &SpendRightId) -> (r: Option<usize>)
        ensures
            r matches Some(i) ==> first_with_id(self.rights(), sr_id.0, i as int),
            r is None ==> lacks_id(self.rights(), sr_id.0),
    {
        let mut i: usize = 0;
        while i < self.spend_rights.len()
            invariant
                i <= self.spend_rights@.len(),
                forall|j: int| 0 <= j < i ==> (#[trigger] self.spend_rights@[j]).id.0 != sr_id.0,
            decreases self.spend_rights@.len() - i,
        {
            if self.spend_rights[i].id.0 == sr_id.0 {
                return Some(i);
            }
            i = i + 1;
        }
        None
    }

    /// Freezes `amount` of `asset` for `user_id` and mints an active spend
    /// right for it under a fresh identifier, stamped now; on failure neither
    /// happens. A fresh identifier already in use is refused with
    /// `InvalidSpendRight`.
    pub fn mint(
        &mut self,
        balance_manager: &mut BalanceManager,
        order_id: OrderId,
        user_id: UserId,
        asset: &str,
        amount: Decimal,
        epoch_id: EpochId,
    ) -> (r: Result<SpendRightId>)
        requires
            old(balance_manager).wf(),
            old(self).wf(),
        ensures
            final(balance_manager).wf(),
            final(self).wf(),
            r is Ok ==> forall|i: int| 0 <= i < old(self).rights().len() ==> (#[trigger] old(self).rights()[i]).nonce
                < final(self).rights().last().nonce,
            final(self).node() == old(self).node(),
            old(self).nonce() == u64::MAX ==> r matches Err(OpenmatchError::SpendRightNonceReused),
            r matches Err(OpenmatchError::InvalidSpendRight { .. }) ==> old(self).nonce() < u64::MAX,
            old(self).nonce() < u64::MAX && !(r matches Err(OpenmatchError::InvalidSpendRight { .. })) ==> ({
                let b = old(balance_manager).balance_at((user_id.0, asset@));
                &&& (r is Ok <==> amount@ > 0 && b.available@ >= amount@ && b.frozen@ + amount@ <= i128::MAX)
                &&& amount@ <= 0 ==> (r matches Err(OpenmatchError::InvalidOrder { .. }))
                &&& amount@ > 0 && b.available@ < amount@ ==> r == Err::<SpendRightId, OpenmatchError>(
                    OpenmatchError::InsufficientBalance { needed: amount, available: b.available },
                )
                &&& amount@ > 0 && b.available@ >= amount@ && b.frozen@ + amount@ > i128::MAX ==> (r
                    matches Err(OpenmatchError::InvalidOrder { .. }))
            }),
            r matches Ok(id) ==> lacks_id(old(self).rights(), id.0),
            r matches Ok(id) ==> final(balance_manager)@ == moved(old(balance_manager)@, (user_id.0, asset@), -amount@, amount@)
                && final(self).nonce() == old(self).nonce() + 1
                && final(self).rights().len() == old(self).rights().len() + 1
                && final(self).rights().drop_last() == old(self).rights()
                && ({
                    let sr = final(self).rights().last();
                    &&& sr.id == id
                    &&& sr.order_id == order_id
                    &&& sr.user_id == user_id
                    &&& sr.asset@ == asset@
                    &&& sr.amount == amount
                    &&& sr.issuer_node == old(self).node()
                    &&& sr.state == SpendRightState::Active
                    &&& sr.nonce == old(self).nonce()
                    &&& sr.epoch_id == epoch_id
                }),
            r is Err ==> final(balance_manager)@ == old(balance_manager)@ && final(self).rights() == old(self).rights()
                && final(self).nonce() == old(self).nonce(),
    {
        let sr_id = SpendRightId::new();
        let now = now_millis();
        self.mint_with(balance_manager, order_id, user_id, asset, amount, epoch_id, sr_id, now)
    }

    /// `mint` with the identifier `sr_id` and the time `now_ms` given: the
    /// identifier must be unused. Freezes `amount` of `asset` for `user_id` and mints an active spend
    /// right for it; on failure neither happens.
    pub fn mint_with(
        &mut self,
        balance_manager: &mut BalanceManager,
        order_id: OrderId,
        user_id: UserId,
        asset: &str,
        amount: Decimal,
        epoch_id: EpochId,
        sr_id: SpendRightId,
        now_ms: i64,
    ) -> (r: Result<SpendRightId>)
        requires
            old(balance_manager).wf(),
            old(self).wf(),
        ensures
            final(balance_manager).wf(),
            final(self).wf(),
            final(self).node() == old(self).node(),
            old(self).nonce() == u64::MAX ==> r matches Err(OpenmatchError::SpendRightNonceReused),
            old(self).nonce() < u64::MAX ==> ((r matches Err(OpenmatchError::InvalidSpendRight { .. }))
                <==> !lacks_id(old(self).rights(), sr_id.0)),
            r matches Ok(id) ==> id == sr_id && final(self).rights().last().created_at == now_ms
                && final(self).rights().last().expires_at == (if now_ms <= i64::MAX - SPEND_RIGHT_LIFETIME_MS {
                now_ms + SPEND_RIGHT_LIFETIME_MS
            } else {
                i64::MAX as int
            }),
            r is Ok ==> forall|i: int| 0 <= i < old(self).rights().len() ==> (#[trigger] old(self).rights()[i]).nonce
                < final(self).rights().last().nonce,
            old(self).nonce() < u64::MAX && !(r matches Err(OpenmatchError::InvalidSpendRight { .. })) ==> ({
                let b = old(balance_manager).balance_at((user_id.0, asset@));
                &&& (r is Ok <==> amount@ > 0 && b.available@ >= amount@ && b.frozen@ + amount@ <= i128::MAX)
                &&& amount@ <= 0 ==> (r matches Err(OpenmatchError::InvalidOrder { .. }))
                &&& amount@ > 0 && b.available@ < amount@ ==> r == Err::<SpendRightId, OpenmatchError>(
                    OpenmatchError::InsufficientBalance { needed: amount, available: b.available },
                )
                &&& amount@ > 0 && b.available@ >= amount@ && b.frozen@ + amount@ > i128::MAX ==> (r
                    matches Err(OpenmatchError::InvalidOrder { .. }))
            }),
            r matches Ok(id) ==> lacks_id(old(self).rights(), id.0),
            r matches Ok(id) ==> final(balance_manager)@ == moved(old(balance_manager)@, (user_id.0, asset@), -amount@, amount@)
                && final(self).nonce() == old(self).nonce() + 1
                && final(self).rights().len() == old(self).rights().len() + 1
                && final(self).rights().drop_last() == old(self).rights()
                && ({
                    let sr = final(self).rights().last();
                    &&& sr.id == id
                    &&& sr.order_id == order_id
                    &&& sr.user_id == user_id
                    &&& sr.asset@ == asset@
                    &&& sr.amount == amount
                    &&& sr.issuer_node == old(self).node()
                    &&& sr.state == SpendRightState::Active
                    &&& sr.nonce == old(self).nonce()
                    &&& sr.epoch_id == epoch_id
                }),
            r is Err ==> final(balance_manager)@ == old(balance_manager)@ && final(self).rights() == old(self).rights()
                && final(self).nonce() == old(self).nonce(),
    {
        if self.next_nonce == u64::MAX {
            return Err(OpenmatchError::SpendRightNonceReused);
        }
        if self.find(&sr_id).is_some() {
            return Err(OpenmatchError::InvalidSpendRight { reason: String::from_str("Spend right identifier already in use") });
        }
        match balance_manager.freeze(&user_id, asset, amount) {
            Ok(()) => {},
            Err(e) => {
                return Err(e);
            },
        }
        let now = now_ms;
        let expires = if now <= i64::MAX - SPEND_RIGHT_LIFETIME_MS { now + SPEND_RIGHT_LIFETIME_MS } else { i64::MAX };
        let sr = SpendRight {
            id: sr_id,
            order_id,
            user_id,
            asset: String::from_str(asset),
            amount,
            issuer_node: self.node_id,
            state: SpendRightState::Active,
            signature: vec![0u8; 64],
            nonce: self.next_nonce,
            epoch_id,
            created_at: now,
            expires_at: expires,
        };
        self.next_nonce = self.next_nonce + 1;
        let ghost s0 = self.spend_rights@;
        self.spend_rights.push(sr);
        assert(self.spend_rights@.drop_last() =~= s0);
        proof {
            assert forall|i: int, j: int|
                0 <= i < self.spend_rights@.len() && 0 <= j < self.spend_rights@.len() && i != j
                    implies self.spend_rights@[i].id.0 != self.spend_rights@[j].id.0 by {
                if i < s0.len() { assert(self.spend_rights@[i] == s0[i]); }
                if j < s0.len() { assert(self.spend_rights@[j] == s0[j]); }
            }
            assert forall|i: int| 0 <= i < self.spend_rights@.len() implies (#[trigger] self.spend_rights@[i]).nonce
                < self.next_nonce && self.spend_rights@[i].amount@ > 0 by {
                if i < s0.len() { assert(self.spend_rights@[i] == s0[i]); }
            }
        }
        Ok(sr_id)
    }

    /// Unfreezes the funds of an active spend right and marks it released.
    pub fn release(&mut self, balance_manager: &mut BalanceManager, sr_id: SpendRightId) -> (r: Result<()>)
        requires
            old(balance_manager).wf(),
            old(self).wf(),
        ensures
            final(balance_manager).wf(),
            final(self).wf(),
            final(self).nonce() == old(self).nonce(),
            final(self).node() == old(self).node(),
            lacks_id(old(self).rights(), sr_id.0) ==> r matches Err(OpenmatchError::InvalidSpendRight { .. }),
            forall|i: int| first_with_id(old(self).rights(), sr_id.0, i) ==> ({
                let sr = old(self).rights()[i];
                &&& sr.state != SpendRightState::Active ==> (r matches Err(OpenmatchError::InvalidSpendRight { .. }))
                &&& (r is Ok <==> sr.state == SpendRightState::Active && sr.amount@ > 0
                    && old(balance_manager).balance_at((sr.user_id.0, sr.asset@)).frozen@ >= sr.amount@
                    && old(balance_manager).balance_at((sr.user_id.0, sr.asset@)).available@ + sr.amount@ <= i128::MAX)
                &&& r is Ok ==> final(balance_manager)@ == moved(old(balance_manager)@, (sr.user_id.0, sr.asset@), sr.amount@, -sr.amount@)
                    && final(self).rights() == old(self).rights().update(i, SpendRight { state: SpendRightState::Released, ..sr })
            }),
            r is Err ==> final(balance_manager)@ == old(balance_manager)@ && final(self).rights() == old(self).rights(),
    {
        let i = match self.find(&sr_id) {
            Some(i) => i,
            None => {
                return Err(OpenmatchError::InvalidSpendRight { reason: String::from_str("Spend right not found") });
            },
        };
        if self.spend_rights[i].state != SpendRightState::Active {
            return Err(OpenmatchError::InvalidSpendRight { reason: String::from_str("Spend right is not active") });
        }
        let user = self.spend_rights[i].user_id;
        let amount = self.spend_rights[i].amount;
        match balance_manager.unfreeze(&user, self.spend_rights[i].asset.as_str(), amount) {
            Ok(()) => {},
            Err(e) => {
                return Err(e);
            },
        }
        self.spend_rights[i].state = SpendRightState::Released;
        Ok(())
    }

    /// Marks an active spend right spent; balances are not touched.
    pub fn mark_spent(&mut self, sr_id: SpendRightId) -> (r: Result<()>)
        requires
            old(self).wf(),
        ensures
            final(self).wf(),
            final(self).nonce() == old(self).nonce(),
            final(self).node() == old(self).node(),
            lacks_id(old(self).rights(), sr_id.0) ==> r matches Err(OpenmatchError::InvalidSpendRight { .. }),
            forall|i: int| first_with_id(old(self).rights(), sr_id.0, i) ==> ({
                let sr = old(self).rights()[i];
                &&& (r is Ok <==> sr.state == SpendRightState::Active)
                &&& r is Ok ==> final(self).rights() == old(self).rights().update(i, SpendRight { state: SpendRightState::Spent, ..sr })
            }),
            r is Err ==> (r matches Err(OpenmatchError::InvalidSpendRight { .. }) && final(self).rights() == old(self).rights()),
    {
        let i = match self.find(&sr_id) {
            Some(i) => i,
            None => {
                return Err(OpenmatchError::InvalidSpendRight { reason: String::from_str("Spend right not found") });
            },
        };
        self.spend_rights[i].mark_spent()
    }

    /// The spend right `sr_id`, if held.
    pub fn get(&self, sr_id: &SpendRightId) -> (r: Option<&SpendRight>)
        ensures
            r matches Some(sr) ==> exists|i: int| first_with_id(self.rights(), sr_id.0, i) && self.rights()[i] == *sr,
            r is None ==> lacks_id(self.rights(), sr_id.0),
    {
        match self.find(sr_id) {
            Some(i) => Some(&self.spend_rights[i]),
            None => None,
        }
    }

    /// Whether `sr_id` is held, active and unexpired at `now_ms`.
    pub fn is_active_at(&self, sr_id: &SpendRightId, now_ms: i64) -> (r: bool)
        ensures
            r <==> exists|i: int| first_with_id(self.rights(), sr_id.0, i) && self.rights()[i].state == SpendRightState::Active
                && now_ms <= self.rights()[i].expires_at,
    {
        match self.find(sr_id) {
            Some(i) => self.spend_rights[i].is_active_at(now_ms),
            None => false,
        }
    }

    /// Whether `sr_id` is held, active and unexpired now.
    pub fn is_active(&self, sr_id: &SpendRightId) -> (r: bool)
        ensures
            r ==> exists|i: int| first_with_id(self.rights(), sr_id.0, i) && self.rights()[i].state == SpendRightState::Active,
    {
        self.is_active_at(sr_id, now_millis())
    }

    pub fn count(&self) -> (r: usize)
        ensures
            r == self.rights().len(),
    {
        self.spend_rights.len()
    }

    pub fn active_count(&self) -> (r: usize)
        ensures
            r == active_in(self.rights()),
    {
        let mut n: usize = 0;
        let mut i: usize = 0;
        while i < self.spend_rights.len()
            invariant
                i <= self.spend_rights@.len(),
                n <= i,
                n == active_in(self.spend_rights@.take(i as int)),
            decreases self.spend_rights@.len() - i,
        {
            proof {
                let t = self.spend_rights@.take(i as int + 1);
                assert(t.drop_last() =~= self.spend_rights@.take(i as int));
                assert(t.last() == self.spend_rights@[i as int]);
            }
            if self.spend_rights[i].state == SpendRightState::Active {
                n = n + 1;
            }
            i = i + 1;
        }
        assert(self.spend_rights@.take(i as int) =~= self.spend_rights@);
        n
    }

    pub fn node_id(&self) -> (r: NodeId)
        ensures
            r == self.node(),
    {
        self.node_id
    }
}

} // verus!
