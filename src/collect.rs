//! The ingress collection buffer: orders that passed the risk gate wait
//! here until the seal phase closes it.
use vstd::prelude::*;
use crate::buffer::MAX_ORDERS_PER_BATCH;
use crate::error::{OpenmatchError, Result};
use crate::order::Order;

verus! {

pub struct PendingBuffer {
    orders: Vec<Order>,
    sealed: bool,
    max_orders: usize,
}

impl PendingBuffer {
    pub closed spec fn contents(&self) -> Seq<Order> {
        self.orders@
    }

    pub closed spec fn sealed_flag(&self) -> bool {
        self.sealed
    }

    pub closed spec fn capacity(&self) -> usize {
        self.max_orders
    }

    /// An open buffer holding up to the batch limit.
    pub fn new() -> (r: PendingBuffer)
        ensures
            r.contents() == Seq::<Order>::empty(),
            !r.sealed_flag(),
            r.capacity() == MAX_ORDERS_PER_BATCH,
    {
        PendingBuffer::with_capacity(MAX_ORDERS_PER_BATCH)
    }

    /// An open buffer holding up to `max_orders`.
    pub fn with_capacity(max_orders: usize) -> (r: PendingBuffer)
        ensures
            r.contents() == Seq::<Order>::empty(),
            !r.sealed_flag(),
            r.capacity() == max_orders,
    {
        PendingBuffer { orders: Vec::new(), sealed: false, max_orders }
    }

    /// Appends `order`; a sealed or full buffer refuses it.
    pub fn push(&mut self, order: Order) -> (r: Result<()>)
        ensures
            final(self).sealed_flag() == old(self).sealed_flag(),
            final(self).capacity() == old(self).capacity(),
            old(self).sealed_flag() ==> r matches Err(OpenmatchError::BufferAlreadySealed),
            !old(self).sealed_flag() && old(self).contents().len() >= old(self).capacity() ==> r matches Err(OpenmatchError::BufferFull),
            r is Ok <==> !old(self).sealed_flag() && old(self).contents().len() < old(self).capacity(),
            r is Ok ==> final(self).contents() == old(self).contents().push(order),
            r is Err ==> final(self).contents() == old(self).contents(),
    {
        if self.sealed {
            return Err(OpenmatchError::BufferAlreadySealed);
        }
        if self.orders.len() >= self.max_orders {
            return Err(OpenmatchError::BufferFull);
        }
        self.orders.push(order);
        Ok(())
    }

    /// Closes the buffer; a second call fails.
    pub fn seal(&mut self) -> (r: Result<()>)
        ensures
            final(self).contents() == old(self).contents(),
            final(self).capacity() == old(self).capacity(),
            final(self).sealed_flag(),
            r is Ok <==> !old(self).sealed_flag(),
            r is Err ==> r matches Err(OpenmatchError::BufferAlreadySealed),
    {
        if self.sealed {
            return Err(OpenmatchError::BufferAlreadySealed);
        }
        self.sealed = true;
        Ok(())
    }

    /// Takes every order out of a sealed buffer.
    pub fn drain(&mut self) -> (r: Result<Vec<Order>>)
        ensures
            final(self).sealed_flag() == old(self).sealed_flag(),
            final(self).capacity() == old(self).capacity(),
            !old(self).sealed_flag() ==> (r matches Err(OpenmatchError::InvalidOrder { .. }) && final(self).contents() == old(self).contents()),
            old(self).sealed_flag() ==> (r matches Ok(v) && v@ == old(self).contents() && final(self).contents() == Seq::<Order>::empty()),
    {
        if !self.sealed {
            return Err(OpenmatchError::InvalidOrder { reason: String::from_str("Cannot drain unsealed buffer") });
        }
        let mut out: Vec<Order> = Vec::new();
        core::mem::swap(&mut out, &mut self.orders);
        Ok(out)
    }

    pub fn is_sealed(&self) -> (r: bool)
        ensures
            r == self.sealed_flag(),
    {
        self.sealed
    }

    pub fn len(&self) -> (r: usize)
        ensures
            r == self.contents().len(),
    {
        self.orders.len()
    }

    pub fn is_empty(&self) -> (r: bool)
        ensures
            r == (self.contents().len() == 0),
    {
        self.orders.len() == 0
    }

    /// Empties and reopens the buffer for the next epoch.
    pub fn reset(&mut self)
        ensures
            final(self).contents() == Seq::<Order>::empty(),
            !final(self).sealed_flag(),
            final(self).capacity() == old(self).capacity(),
    {
        self.orders = Vec::new();
        self.sealed = false;
    }
}

} // verus!
