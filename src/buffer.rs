//! The per-epoch pending buffer: collects orders, then seals them into a
//! canonically ordered, hash-committed batch.
use vstd::prelude::*;
use crate::codec::sha256_of;
use crate::commitments::{batch_preimage, compute_batch_hash};
use crate::error::{OpenmatchError, Result};
use crate::ids::EpochId;
use crate::order::Order;
use crate::ordering::{sort_orders, sorted_by, SortRule};

verus! {

/// Sealing is deterministic: two sealed buffers of one epoch that hold the
/// same orders commit to the same hash.
pub proof fn lemma_seal_deterministic(a: PendingBuffer, b: PendingBuffer)
    requires
        a.wf(),
        b.wf(),
        a.sealed_flag(),
        b.sealed_flag(),
        a.epoch() == b.epoch(),
        a.contents().to_multiset() == b.contents().to_multiset(),
    ensures
        a.committed_hash() == b.committed_hash(),
{
    crate::ordering::lemma_keys_from_sequences(a.contents());
    crate::ordering::lemma_canonical_unique(a.contents(), b.contents());
    assert(a.batch_hash->0@ == b.batch_hash->0@);
    assert(a.batch_hash->0 =~= b.batch_hash->0);
}

/// Maximum number of orders in one batch.
pub const MAX_ORDERS_PER_BATCH: usize = 100_000;

pub struct PendingBuffer {
    orders: Vec<Order>,
    sequence_counter: u64,
    sealed: bool,
    batch_hash: Option<[u8; 32]>,
    batch_id: EpochId,
}

impl PendingBuffer {
    /// The orders held, in their current order.
    pub closed spec fn contents(&self) -> Seq<Order> {
        self.orders@
    }

    pub closed spec fn sealed_flag(&self) -> bool {
        self.sealed
    }

    pub closed spec fn committed_hash(&self) -> Option<[u8; 32]> {
        self.batch_hash
    }

    pub closed spec fn epoch(&self) -> EpochId {
        self.batch_id
    }

    /// Well-formedness: sequences are assigned in order of arrival, the
    /// size limit holds, and a sealed buffer is canonically ordered and
    /// carries the hash of its contents.
    pub closed spec fn wf(&self) -> bool {
        &&& self.orders@.len() <= MAX_ORDERS_PER_BATCH
        &&& self.sequence_counter == self.orders@.len()
        &&& crate::ordering::sequences_distinct(self.orders@)
        &&& forall|i: int| 0 <= i < self.orders@.len() ==> (#[trigger] self.orders@[i]).sequence < self.sequence_counter
        &&& (self.sealed <==> self.batch_hash is Some)
        &&& self.sealed ==> sorted_by(SortRule::Canonical, self.orders@)
        &&& self.batch_hash matches Some(h) ==> h@ == sha256_of(
            batch_preimage(self.batch_id.0, self.orders@),
        )
    }

    /// The orders of a well-formed buffer carry distinct sequence numbers.
    pub proof fn lemma_distinct_sequences(&self)
        requires
            self.wf(),
        ensures
            crate::ordering::sequences_distinct(self.contents()),
    {
    }

    pub fn new(batch_id: EpochId) -> (r: PendingBuffer)
        ensures
            r.wf(),
            r.contents() == Seq::<Order>::empty(),
            !r.sealed_flag(),
            r.epoch() == batch_id,
    {
        PendingBuffer {
            orders: Vec::new(),
            sequence_counter: 0,
            sealed: false,
            batch_hash: None,
            batch_id,
        }
    }

    /// Appends `order`, stamping it with the next sequence number and this
    /// buffer's epoch; returns the sequence number.
    pub fn push(&mut self, order: Order) -> (r: Result<u64>)
        requires
            old(self).wf(),
        ensures
            final(self).wf(),
            final(self).epoch() == old(self).epoch(),
            final(self).sealed_flag() == old(self).sealed_flag(),
            old(self).sealed_flag() ==> r matches Err(OpenmatchError::BufferAlreadySealed),
            !old(self).sealed_flag() && old(self).contents().len() >= MAX_ORDERS_PER_BATCH ==> r matches Err(
                OpenmatchError::BufferFull,
            ),
            r is Ok <==> !old(self).sealed_flag() && old(self).contents().len()
                < MAX_ORDERS_PER_BATCH,
            r matches Ok(seq) ==> seq == old(self).contents().len() && final(self).contents()
                == old(self).contents().push(
                Order { sequence: seq, epoch_id: Some(old(self).epoch()), ..order },
            ),
            r is Err ==> final(self).contents() == old(self).contents(),
    {
        if self.sealed {
            return Err(OpenmatchError::BufferAlreadySealed);
        }
        if self.orders.len() >= MAX_ORDERS_PER_BATCH {
            return Err(OpenmatchError::BufferFull);
        }
        let seq = self.sequence_counter;
        let mut o = order;
        o.sequence = seq;
        o.epoch_id = Some(self.batch_id);
        self.sequence_counter = self.sequence_counter + 1;
        let ghost before = self.orders@;
        self.orders.push(o);
        proof {
            assert forall|i: int| 0 <= i < self.orders@.len() implies (#[trigger] self.orders@[i]).sequence < self.sequence_counter by {
                if i < before.len() {
                    assert(self.orders@[i] == before[i]);
                }
            }
            assert forall|i: int, j: int| 0 <= i < self.orders@.len() && 0 <= j < self.orders@.len() && i != j implies self.orders@[i].sequence != self.orders@[j].sequence by {
                if i < before.len() {
                    assert(self.orders@[i] == before[i]);
                }
                if j < before.len() {
                    assert(self.orders@[j] == before[j]);
                }
            }
        }
        Ok(seq)
    }

    /// Sorts the contents canonically (buys first; buys by descending and
    /// sells by ascending effective price; then by sequence and identifier), commits to
    /// their hash and closes the buffer. A second call fails.
    pub fn seal(&mut self) -> (r: Result<[u8; 32]>)
        requires
            old(self).wf(),
        ensures
            final(self).wf(),
            final(self).epoch() == old(self).epoch(),
            old(self).sealed_flag() ==> (r matches Err(OpenmatchError::BufferAlreadySealed)
                && *final(self) == *old(self)),
            !old(self).sealed_flag() ==> r is Ok && final(self).sealed_flag(),
            r matches Ok(h) ==> final(self).committed_hash() == Some(h) && h@ == sha256_of(
                batch_preimage(final(self).epoch().0, final(self).contents()),
            ) && sorted_by(SortRule::Canonical, final(self).contents())
                && final(self).contents().to_multiset() == old(self).contents().to_multiset(),
    {
        if self.sealed {
            return Err(OpenmatchError::BufferAlreadySealed);
        }
        let mut taken: Vec<Order> = Vec::new();
        core::mem::swap(&mut taken, &mut self.orders);
        let ghost unsorted = taken@;
        let sorted = sort_orders(taken, SortRule::Canonical);
        proof {
            crate::ordering::lemma_distinct_perm(unsorted, sorted@);
            assert forall|i: int| 0 <= i < sorted@.len() implies (#[trigger] sorted@[i]).sequence < self.sequence_counter by {
                crate::sums::lemma_perm_members(unsorted, sorted@, i);
            }
        }
        self.orders = sorted;
        let h = compute_batch_hash(self.batch_id.0, &self.orders);
        self.sealed = true;
        self.batch_hash = Some(h);
        Ok(h)
    }

    /// Consumes a sealed buffer, yielding its orders and batch hash.
    pub fn take_orders(self) -> (r: Result<(Vec<Order>, [u8; 32])>)
        requires
            self.wf(),
        ensures
            !self.sealed_flag() ==> r matches Err(OpenmatchError::MatchingFailed { .. }),
            self.sealed_flag() ==> (r matches Ok(p) && p.0@ == self.contents() && Some(p.1)
                == self.committed_hash()),
    {
        if !self.sealed {
            return Err(OpenmatchError::MatchingFailed { reason: String::from_str("Cannot take orders from unsealed buffer") });
        }
        match self.batch_hash {
            Some(h) => Ok((self.orders, h)),
            None => Err(OpenmatchError::MatchingFailed { reason: String::from_str("Cannot take orders from unsealed buffer") }),
        }
    }

    pub fn is_sealed(&self) -> (r: bool)
        ensures
            r == self.sealed_flag(),
    {
        self.sealed
    }

    pub fn batch_hash(&self) -> (r: Option<[u8; 32]>)
        ensures
            r == self.committed_hash(),
    {
        self.batch_hash
    }

    pub fn len(&self) -> (r: usize)
        ensures
            r == self.contents().len(),
    {
        self.orders.len()
    }

    pub fn is_empty(&self) -> (r: bool)
        ensures
            r == (self.contents().len() == 0),
    {
        self.orders.len() == 0
    }

    pub fn batch_id(&self) -> (r: EpochId)
        ensures
            r == self.epoch(),
    {
        self.batch_id
    }
}

} // verus!
