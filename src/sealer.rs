//! The batch sealer: turns an epoch's orders into the immutable sealed
//! batch and its digest.
use vstd::prelude::*;
use crate::clock::now_millis;
use crate::codec::sha256_of;
use crate::commitments::{batch_preimage, compute_batch_hash, digest_eq};
use crate::epoch::{BatchDigest, SealedBatch};
use crate::ids::{EpochId, NodeId};
use crate::order::Order;
use crate::ordering::{sort_orders, sorted_by, SortRule};

verus! {

#[derive(Clone, Copy, Debug)]
pub struct BatchSealer {
    pub node_id: NodeId,
}

impl BatchSealer {
    pub fn new(node_id: NodeId) -> (r: BatchSealer)
        ensures
            r.node_id == node_id,
    {
        BatchSealer { node_id }
    }

    /// Seals `orders` now.
    pub fn seal(&self, epoch_id: EpochId, orders: Vec<Order>) -> (r: SealedBatch)
        ensures
            sealed_from(r, epoch_id, orders@, self.node_id),
    {
        let now = now_millis();
        self.seal_at(epoch_id, orders, now)
    }

    /// Seals `orders` at time `sealed_at`: canonical order, batch hash over
    /// it, this node as sealer.
    pub fn seal_at(&self, epoch_id: EpochId, orders: Vec<Order>, sealed_at: i64) -> (r: SealedBatch)
        ensures
            sealed_from(r, epoch_id, orders@, self.node_id),
            r.sealed_at == sealed_at,
    {
        let sorted = sort_orders(orders, SortRule::Canonical);
        let batch_hash = compute_batch_hash(epoch_id.0, &sorted);
        SealedBatch { epoch_id, orders: sorted, batch_hash, sealed_at, sealer_node: self.node_id }
    }

    /// The light attestation of `batch` by this node (unsigned).
    pub fn digest(&self, batch: &SealedBatch) -> (r: BatchDigest)
        ensures
            r.epoch_id == batch.epoch_id,
            r.batch_hash == batch.batch_hash,
            r.order_count == batch.orders@.len(),
            r.signer_node == self.node_id,
            r.signature@.len() == 64,
    {
        BatchDigest {
            epoch_id: batch.epoch_id,
            batch_hash: batch.batch_hash,
            order_count: batch.orders.len(),
            signer_node: self.node_id,
            signature: vec![0u8; 64],
        }
    }

    /// Whether `batch` carries the hash of its own orders.
    pub fn verify_batch_hash(batch: &SealedBatch) -> (r: bool)
        ensures
            r == (batch.batch_hash@ == sha256_of(batch_preimage(batch.epoch_id.0, batch.orders@))),
    {
        let expected = compute_batch_hash(batch.epoch_id.0, &batch.orders);
        digest_eq(&expected, &batch.batch_hash)
    }
}

/// Sealing is deterministic: sealing the same orders, in any order and by
/// any node, in one epoch gives the same ordered orders and the same hash
/// when their keys are distinct.
pub proof fn lemma_sealing_deterministic(
    b1: SealedBatch,
    b2: SealedBatch,
    epoch: EpochId,
    os1: Seq<Order>,
    os2: Seq<Order>,
    n1: NodeId,
    n2: NodeId,
)
    requires
        sealed_from(b1, epoch, os1, n1),
        sealed_from(b2, epoch, os2, n2),
        os1.to_multiset() == os2.to_multiset(),
        crate::ordering::keys_distinct(os1),
    ensures
        b1.orders@ == b2.orders@,
        b1.batch_hash@ == b2.batch_hash@,
{
    crate::ordering::lemma_keys_perm(os1, b1.orders@);
    crate::ordering::lemma_canonical_unique(b1.orders@, b2.orders@);
}

/// `b` is the sealing of `orders` for `epoch` by `node`.
pub open spec fn sealed_from(b: SealedBatch, epoch: EpochId, orders: Seq<Order>, node: NodeId) -> bool {
    &&& b.epoch_id == epoch
    &&& b.sealer_node == node
    &&& sorted_by(SortRule::Canonical, b.orders@)
    &&& b.orders@.to_multiset() == orders.to_multiset()
    &&& b.batch_hash@ == sha256_of(batch_preimage(epoch.0, b.orders@))
}

} // verus!
