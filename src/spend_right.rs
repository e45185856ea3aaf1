//! Spend rights: single-use reservations of frozen funds.
use vstd::prelude::*;
use crate::clock::now_millis;
use crate::codec::{be_bytes, le_bytes, push_all, push_be, push_u64_le, spend_right_prefix, start_spend_right_prefix};
use crate::decimal::{decimal_text, Decimal};
use crate::error::{OpenmatchError, Result};
use crate::ids::{EpochId, NodeId, OrderId, SpendRightId, UserId};

verus! {

/// Life cycle of a spend right: `Active` becomes `Spent` or `Released`,
/// and nothing else moves.
#[derive(Clone, Copy, Debug, PartialEq, Eq, Structural, Hash)]
pub enum SpendRightState {
    Active,
    Spent,
    Released,
}

impl SpendRightState {
    /// Whether `self -> target` is a permitted transition.
    pub fn can_transition_to(&self, target: SpendRightState) -> (r: bool)
        ensures
            r == (*self == SpendRightState::Active && target != SpendRightState::Active),
    {
        match (self, target) {
            (SpendRightState::Active, SpendRightState::Spent) => true,
            (SpendRightState::Active, SpendRightState::Released) => true,
            _ => false,
        }
    }

    /// Upper-case name of the state.
    pub fn as_str(&self) -> (r: &'static str)
        ensures
            r@ == (match self {
                SpendRightState::Active => "ACTIVE"@,
                SpendRightState::Spent => "SPENT"@,
                SpendRightState::Released => "RELEASED"@,
            }),
    {
        match self {
            SpendRightState::Active => "ACTIVE",
            SpendRightState::Spent => "SPENT",
            SpendRightState::Released => "RELEASED",
        }
    }
}

/// Lifetime of a freshly minted spend right, in milliseconds.
pub const SPEND_RIGHT_LIFETIME_MS: i64 = 3_600_000;

/// A reservation of `amount` of `asset`, frozen for `order_id`.
/// Timestamps are milliseconds since the UNIX epoch.
#[derive(Clone, Debug)]
pub struct SpendRight {
    pub id: SpendRightId,
    pub order_id: OrderId,
    pub user_id: UserId,
    pub asset: String,
    pub amount: Decimal,
    pub issuer_node: NodeId,
    pub state: SpendRightState,
    pub signature: Vec<u8>,
    pub nonce: u64,
    pub epoch_id: EpochId,
    pub created_at: i64,
    pub expires_at: i64,
}

/// The canonical signing payload of a spend right.
pub open spec fn signing_payload_of(sr: SpendRight) -> Seq<u8> {
    spend_right_prefix() + be_bytes(sr.id.0 as nat, 16) + be_bytes(sr.order_id.0 as nat, 16)
        + be_bytes(sr.user_id.0 as nat, 16) + vstd::utf8::encode_utf8(sr.asset@) + decimal_text(
        sr.amount@,
    ) + le_bytes(sr.nonce as nat, 8) + le_bytes(sr.epoch_id.0 as nat, 8)
}

/// Appends the bytes of `s`.
fn push_slice(out: &mut Vec<u8>, s: &[u8])
    ensures
        final(out)@ == old(out)@ + s@,
{
    let mut i: usize = 0;
    while i < s.len()
        invariant
            i <= s@.len(),
            out@ == old(out)@ + s@.take(i as int),
        decreases s@.len() - i,
    {
        assert(s@.take(i as int + 1) =~= s@.take(i as int).push(s@[i as int]));
        out.push(s[i]);
        i = i + 1;
    }
    assert(s@.take(i as int) =~= s@);
}

impl SpendRight {
    /// `"openmatch:sr:v1:"`, then the identifiers of the spend right, the
    /// order and the user (16 bytes each), the asset, the amount's canonical
    /// text, the nonce and the epoch (8 little-endian bytes each).
    pub fn signing_payload(&self) -> (r: Vec<u8>)
        ensures
            r@ == signing_payload_of(*self),
    {
        let mut p = start_spend_right_prefix();
        push_be(&mut p, self.id.0, 16);
        push_be(&mut p, self.order_id.0, 16);
        push_be(&mut p, self.user_id.0, 16);
        push_slice(&mut p, self.asset.as_str().as_bytes());
        let a = self.amount.canonical_bytes();
        push_all(&mut p, &a);
        push_u64_le(&mut p, self.nonce);
        push_u64_le(&mut p, self.epoch_id.0);
        assert(p@ =~= signing_payload_of(*self));
        p
    }

    /// Whether the spend right has expired at time `now_ms`.
    pub fn is_expired_at(&self, now_ms: i64) -> (r: bool)
        ensures
            r == (now_ms > self.expires_at),
    {
        now_ms > self.expires_at
    }

    /// Whether the spend right has expired now.
    pub fn is_expired(&self) -> (r: bool) {
        self.is_expired_at(now_millis())
    }

    /// Whether the spend right is active and unexpired at time `now_ms`.
    pub fn is_active_at(&self, now_ms: i64) -> (r: bool)
        ensures
            r == (self.state == SpendRightState::Active && now_ms <= self.expires_at),
    {
        self.state == SpendRightState::Active && !self.is_expired_at(now_ms)
    }

    /// Whether the spend right is active and unexpired now.
    pub fn is_active(&self) -> (r: bool)
        ensures
            r ==> self.state == SpendRightState::Active,
    {
        self.is_active_at(now_millis())
    }

    /// `Active -> Spent`; any other state is refused and left unchanged.
    pub fn mark_spent(&mut self) -> (r: Result<()>)
        ensures
            r is Ok <==> old(self).state == SpendRightState::Active,
            r is Ok ==> *final(self) == (SpendRight { state: SpendRightState::Spent, ..*old(self) }),
            r is Err ==> (r matches Err(OpenmatchError::InvalidSpendRight { .. }) && *final(self) == *old(self)),
    {
        if !self.state.can_transition_to(SpendRightState::Spent) {
            return Err(OpenmatchError::InvalidSpendRight { reason: String::from_str("Cannot transition spend right to SPENT") });
        }
        self.state = SpendRightState::Spent;
        Ok(())
    }

    /// `Active -> Released`; any other state is refused and left unchanged.
    pub fn mark_released(&mut self) -> (r: Result<()>)
        ensures
            r is Ok <==> old(self).state == SpendRightState::Active,
            r is Ok ==> *final(self) == (SpendRight { state: SpendRightState::Released, ..*old(self) }),
            r is Err ==> (r matches Err(OpenmatchError::InvalidSpendRight { .. }) && *final(self) == *old(self)),
    {
        if !self.state.can_transition_to(SpendRightState::Released) {
            return Err(OpenmatchError::InvalidSpendRight { reason: String::from_str("Cannot transition spend right to RELEASED") });
        }
        self.state = SpendRightState::Released;
        Ok(())
    }

    /// An active spend right with a fresh identifier, expiring in an hour.
    pub fn dummy(order_id: OrderId, user_id: UserId, asset: &str, amount: Decimal, epoch_id: EpochId, nonce: u64) -> (r: SpendRight)
        ensures
            r.order_id == order_id,
            r.user_id == user_id,
            r.asset@ == asset@,
            r.amount == amount,
            r.state == SpendRightState::Active,
            r.epoch_id == epoch_id,
            r.nonce == nonce,
    {
        let now = now_millis();
        let expires = if now <= i64::MAX - SPEND_RIGHT_LIFETIME_MS { now + SPEND_RIGHT_LIFETIME_MS } else { i64::MAX };
        SpendRight {
            id: SpendRightId::new(),
            order_id,
            user_id,
            asset: String::from_str(asset),
            amount,
            issuer_node: NodeId([0u8; 32]),
            state: SpendRightState::Active,
            signature: vec![0u8; 64],
            nonce,
            epoch_id,
            created_at: now,
            expires_at: expires,
        }
    }
}

} // verus!
