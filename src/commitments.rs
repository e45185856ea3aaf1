//! Hash commitments over sealed batches and trade output.
use vstd::prelude::*;
use crate::codec::{
    batch_prefix, be_bytes, le_bytes, push_all, push_be, push_u64_le, result_prefix, sha256,
    sha256_of, start_batch_prefix, start_result_prefix, start_trade_root_prefix, trade_root_prefix,
};
use crate::decimal::{decimal_text, Decimal};
use crate::order::{effective_price_of, Order, OrderSide};
use crate::trade::Trade;

verus! {

/// Sixteen big-endian bytes of an identifier.
pub open spec fn id_bytes(x: u128) -> Seq<u8> {
    be_bytes(x as nat, 16)
}

/// What one order contributes to the batch hash.
pub open spec fn order_record(o: Order) -> Seq<u8> {
    id_bytes(o.id.0) + le_bytes(o.sequence as nat, 8) + decimal_text(effective_price_of(o))
        + decimal_text(o.remaining_qty@) + seq![if o.side == OrderSide::Buy { 0u8 } else { 1u8 }]
}

pub open spec fn order_records(s: Seq<Order>) -> Seq<u8>
    decreases s.len(),
{
    if s.len() == 0 {
        seq![]
    } else {
        order_records(s.drop_last()) + order_record(s.last())
    }
}

/// Bytes hashed into the batch hash of `orders` in epoch `epoch`.
pub open spec fn batch_preimage(epoch: u64, orders: Seq<Order>) -> Seq<u8> {
    batch_prefix() + le_bytes(epoch as nat, 8) + le_bytes(orders.len(), 8) + order_records(orders)
}

/// What one trade contributes to the result hash.
pub open spec fn result_record(t: Trade) -> Seq<u8> {
    id_bytes(t.id.0) + decimal_text(t.price@) + decimal_text(t.quantity@) + id_bytes(
        t.taker_order_id.0,
    ) + id_bytes(t.maker_order_id.0)
}

pub open spec fn result_records(s: Seq<Trade>) -> Seq<u8>
    decreases s.len(),
{
    if s.len() == 0 {
        seq![]
    } else {
        result_records(s.drop_last()) + result_record(s.last())
    }
}

/// Bytes hashed into the result hash of `trades` in epoch `epoch`.
pub open spec fn result_preimage(epoch: u64, trades: Seq<Trade>) -> Seq<u8> {
    result_prefix() + le_bytes(epoch as nat, 8) + le_bytes(trades.len(), 8) + result_records(trades)
}

/// What one trade contributes to the trade root.
pub open spec fn root_record(t: Trade) -> Seq<u8> {
    id_bytes(t.id.0) + le_bytes(t.epoch_id.0 as nat, 8) + id_bytes(t.taker_order_id.0) + id_bytes(
        t.maker_order_id.0,
    ) + id_bytes(t.taker_user_id.0) + id_bytes(t.maker_user_id.0) + decimal_text(t.price@)
        + decimal_text(t.quantity@) + decimal_text(t.quote_amount@)
}

pub open spec fn root_records(s: Seq<Trade>) -> Seq<u8>
    decreases s.len(),
{
    if s.len() == 0 {
        seq![]
    } else {
        root_records(s.drop_last()) + root_record(s.last())
    }
}

/// Bytes hashed into the trade root of `trades`.
pub open spec fn root_preimage(trades: Seq<Trade>) -> Seq<u8> {
    trade_root_prefix() + le_bytes(trades.len(), 8) + root_records(trades)
}

/// The batch hash of `orders`, in the order given.
pub fn compute_batch_hash(epoch: u64, orders: &Vec<Order>) -> (r: [u8; 32])
    ensures
        r@ == sha256_of(batch_preimage(epoch, orders@)),
{
    let mut buf = start_batch_prefix();
    push_u64_le(&mut buf, epoch);
    push_u64_le(&mut buf, orders.len() as u64);
    let ghost head = buf@;
    let mut i: usize = 0;
    while i < orders.len()
        invariant
            i <= orders@.len(),
            buf@ == head + order_records(orders@.take(i as int)),
        decreases orders@.len() - i,
    {
        let o = &orders[i];
        push_be(&mut buf, o.id.0, 16);
        push_u64_le(&mut buf, o.sequence);
        let p = o.effective_price().canonical_bytes();
        push_all(&mut buf, &p);
        let q = o.remaining_qty.canonical_bytes();
        push_all(&mut buf, &q);
        match o.side {
            OrderSide::Buy => buf.push(0u8),
            OrderSide::Sell => buf.push(1u8),
        }
        proof {
            let t = orders@.take(i as int + 1);
            assert(t.drop_last() =~= orders@.take(i as int));
            assert(t.last() == orders@[i as int]);
            assert(buf@ =~= head + order_records(t));
        }
        i = i + 1;
    }
    assert(orders@.take(i as int) =~= orders@);
    assert(buf@ =~= batch_preimage(epoch, orders@));
    sha256(&buf)
}

/// The result hash of `trades`.
pub fn compute_result_hash(epoch: u64, trades: &Vec<Trade>) -> (r: [u8; 32])
    ensures
        r@ == sha256_of(result_preimage(epoch, trades@)),
{
    let mut buf = start_result_prefix();
    push_u64_le(&mut buf, epoch);
    push_u64_le(&mut buf, trades.len() as u64);
    let ghost head = buf@;
    let mut i: usize = 0;
    while i < trades.len()
        invariant
            i <= trades@.len(),
            buf@ == head + result_records(trades@.take(i as int)),
        decreases trades@.len() - i,
    {
        let t = &trades[i];
        push_be(&mut buf, t.id.0, 16);
        let p = t.price.canonical_bytes();
        push_all(&mut buf, &p);
        let q = t.quantity.canonical_bytes();
        push_all(&mut buf, &q);
        push_be(&mut buf, t.taker_order_id.0, 16);
        push_be(&mut buf, t.maker_order_id.0, 16);
        proof {
            let s = trades@.take(i as int + 1);
            assert(s.drop_last() =~= trades@.take(i as int));
            assert(s.last() == trades@[i as int]);
            assert(buf@ =~= head + result_records(s));
        }
        i = i + 1;
    }
    assert(trades@.take(i as int) =~= trades@);
    assert(buf@ =~= result_preimage(epoch, trades@));
    sha256(&buf)
}

/// The trade root of `trades`.
pub fn compute_trade_root(trades: &Vec<Trade>) -> (r: [u8; 32])
    ensures
        r@ == sha256_of(root_preimage(trades@)),
{
    let mut buf = start_trade_root_prefix();
    push_u64_le(&mut buf, trades.len() as u64);
    let ghost head = buf@;
    let mut i: usize = 0;
    while i < trades.len()
        invariant
            i <= trades@.len(),
            buf@ == head + root_records(trades@.take(i as int)),
        decreases trades@.len() - i,
    {
        let t = &trades[i];
        push_be(&mut buf, t.id.0, 16);
        push_u64_le(&mut buf, t.epoch_id.0);
        push_be(&mut buf, t.taker_order_id.0, 16);
        push_be(&mut buf, t.maker_order_id.0, 16);
        push_be(&mut buf, t.taker_user_id.0, 16);
        push_be(&mut buf, t.maker_user_id.0, 16);
        let p = t.price.canonical_bytes();
        push_all(&mut buf, &p);
        let q = t.quantity.canonical_bytes();
        push_all(&mut buf, &q);
        let a = t.quote_amount.canonical_bytes();
        push_all(&mut buf, &a);
        proof {
            let s = trades@.take(i as int + 1);
            assert(s.drop_last() =~= trades@.take(i as int));
            assert(s.last() == trades@[i as int]);
            assert(buf@ =~= head + root_records(s));
        }
        i = i + 1;
    }
    assert(trades@.take(i as int) =~= trades@);
    assert(buf@ =~= root_preimage(trades@));
    sha256(&buf)
}

/// Whether two digests are equal, byte for byte.
pub fn digest_eq(a: &[u8; 32], b: &[u8; 32]) -> (r: bool)
    ensures
        r == (a@ == b@),
{
    let mut i: usize = 0;
    while i < 32
        invariant
            i <= 32,
            a@.len() == 32,
            b@.len() == 32,
            forall|j: int| 0 <= j < i ==> a@[j] == b@[j],
        decreases 32 - i,
    {
        if a[i] != b[i] {
            assert(a@[i as int] != b@[i as int]);
            return false;
        }
        i = i + 1;
    }
    assert(a@ =~= b@);
    true
}

/// Whether `expected` is the trade root of `trades`.
pub fn verify_trade_root(trades: &Vec<Trade>, expected: &[u8; 32]) -> (r: bool)
    ensures
        r == (expected@ == sha256_of(root_preimage(trades@))),
{
    let root = compute_trade_root(trades);
    digest_eq(&root, expected)
}

} // verus!
