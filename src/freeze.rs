//! Freeze proofs: attestations that an order's funds are frozen on the
//! issuing node.
use vstd::prelude::*;
use crate::clock::now_millis;
use crate::codec::{be_bytes, le_bytes, push_all, push_be, push_u64_le};
use crate::decimal::{decimal_text, Decimal};
use crate::ids::{NodeId, OrderId, UserId};
use crate::spend_right::SPEND_RIGHT_LIFETIME_MS;

verus! {

/// Timestamps are milliseconds since the UNIX epoch.
#[derive(Clone, Debug)]
pub struct FreezeProof {
    pub order_id: OrderId,
    pub user_id: UserId,
    pub asset: String,
    pub amount: Decimal,
    pub issuer_node: NodeId,
    pub signature: Vec<u8>,
    pub nonce: u64,
    pub created_at: i64,
    pub expires_at: i64,
}

/// The bytes a freeze proof's signature covers.
pub open spec fn freeze_payload_of(p: FreezeProof) -> Seq<u8> {
    be_bytes(p.order_id.0 as nat, 16) + be_bytes(p.user_id.0 as nat, 16) + vstd::utf8::encode_utf8(p.asset@)
        + decimal_text(p.amount@) + le_bytes(p.nonce as nat, 8)
}

impl FreezeProof {
    /// Order and user identifiers (16 bytes each), the asset, the amount's
    /// canonical text and the nonce (8 little-endian bytes).
    pub fn signing_payload(&self) -> (r: Vec<u8>)
        ensures
            r@ == freeze_payload_of(*self),
    {
        let mut p: Vec<u8> = Vec::new();
        push_be(&mut p, self.order_id.0, 16);
        push_be(&mut p, self.user_id.0, 16);
        let bytes = self.asset.as_str().as_bytes();
        let mut i: usize = 0;
        let ghost head = p@;
        while i < bytes.len()
            invariant
                i <= bytes@.len(),
                p@ == head + bytes@.take(i as int),
            decreases bytes@.len() - i,
        {
            assert(bytes@.take(i as int + 1) =~= bytes@.take(i as int).push(bytes@[i as int]));
            p.push(bytes[i]);
            i = i + 1;
        }
        assert(bytes@.take(i as int) =~= bytes@);
        let a = self.amount.canonical_bytes();
        push_all(&mut p, &a);
        push_u64_le(&mut p, self.nonce);
        assert(p@ =~= freeze_payload_of(*self));
        p
    }

    /// Whether the proof has expired at `now_ms`.
    pub fn is_expired_at(&self, now_ms: i64) -> (r: bool)
        ensures
            r == (now_ms > self.expires_at),
    {
        now_ms > self.expires_at
    }

    /// Whether the proof has expired now.
    pub fn is_expired(&self) -> (r: bool) {
        self.is_expired_at(now_millis())
    }

    /// Whether the proof expires within `duration_ms` of `now_ms`.
    pub fn expires_within_at(&self, duration_ms: i64, now_ms: i64) -> (r: bool)
        ensures
            r == (now_ms + duration_ms > self.expires_at),
    {
        now_ms as i128 + duration_ms as i128 > self.expires_at as i128
    }

    /// Whether the proof expires within `duration_ms` from now.
    pub fn expires_within(&self, duration_ms: i64) -> (r: bool) {
        self.expires_within_at(duration_ms, now_millis())
    }

    /// Milliseconds left before expiry at `now_ms`; zero once expired.
    pub fn time_until_expiry_at(&self, now_ms: i64) -> (r: i128)
        ensures
            r == if now_ms > self.expires_at { 0 } else { self.expires_at - now_ms },
    {
        if now_ms > self.expires_at {
            0
        } else {
            self.expires_at as i128 - now_ms as i128
        }
    }

    /// Milliseconds left before expiry now; zero once expired.
    pub fn time_until_expiry(&self) -> (r: i128)
        ensures
            r >= 0,
    {
        self.time_until_expiry_at(now_millis())
    }

    /// A proof for `amount` of `asset`, valid for an hour from now.
    pub fn dummy(order_id: OrderId, user_id: UserId, asset: &str, amount: Decimal) -> (r: FreezeProof)
        ensures
            r.order_id == order_id,
            r.user_id == user_id,
            r.asset@ == asset@,
            r.amount == amount,
            r.nonce == 0,
    {
        let now = now_millis();
        let expires = if now <= i64::MAX - SPEND_RIGHT_LIFETIME_MS { now + SPEND_RIGHT_LIFETIME_MS } else { i64::MAX };
        FreezeProof {
            order_id,
            user_id,
            asset: String::from_str(asset),
            amount,
            issuer_node: NodeId([0u8; 32]),
            signature: vec![0u8; 64],
            nonce: 0,
            created_at: now,
            expires_at: expires,
        }
    }
}

} // verus!
