//! Identifiers of orders, users, trades, spend rights, nodes and epochs.
use vstd::prelude::*;
use crate::codec::{
    be_u128_prefix, be_value, le_bytes, push_u64_le, sha256, sha256_of, start_trade_id_prefix,
    trade_id_prefix,
};

verus! {

/// Relies on uuid::Uuid::now_v7 and Uuid::as_u128: a fresh time-ordered
/// identifier read as a big-endian integer. It depends on the clock, so
/// nothing is stated of its value.
#[verifier::external_body]
pub(crate) fn fresh_v7() -> (r: u128) {
    uuid::Uuid::now_v7().as_u128()
}

/// The lowercase hexadecimal digits.
pub open spec fn hex_digits() -> Seq<char> {
    seq!['0', '1', '2', '3', '4', '5', '6', '7', '8', '9', 'a', 'b', 'c', 'd', 'e', 'f']
}

/// Two lowercase hex digits for each byte, high nibble first.
pub open spec fn hex_of(bytes: Seq<u8>) -> Seq<char>
    decreases bytes.len(),
{
    if bytes.len() == 0 {
        seq![]
    } else {
        hex_of(bytes.drop_last()) + seq![
            hex_digits()[bytes.last() as int / 16],
            hex_digits()[bytes.last() as int % 16],
        ]
    }
}

/// Relies on hex::encode: two lowercase hex digits for each byte, high
/// nibble first.
#[verifier::external_body]
fn hex_encode(bytes: &Vec<u8>) -> (r: String)
    ensures
        r@ == hex_of(bytes@),
{
    hex::encode(bytes)
}

/// Globally unique order identifier (a UUIDv7 as a big-endian integer).
#[derive(Clone, Copy, Debug, PartialEq, Eq, Structural, Hash, PartialOrd, Ord)]
pub struct OrderId(pub u128);

/// Unique identifier of a user account.
#[derive(Clone, Copy, Debug, PartialEq, Eq, Structural, Hash, PartialOrd, Ord)]
pub struct UserId(pub u128);

/// Identifier of a spend right.
#[derive(Clone, Copy, Debug, PartialEq, Eq, Structural, Hash, PartialOrd, Ord)]
pub struct SpendRightId(pub u128);

/// Identifier of a trade.
#[derive(Clone, Copy, Debug, PartialEq, Eq, Structural, Hash, PartialOrd, Ord)]
pub struct TradeId(pub u128);

/// A node's 32-byte public key.
#[derive(Clone, Copy, Debug, PartialEq, Eq, Hash, PartialOrd, Ord)]
pub struct NodeId(pub [u8; 32]);

/// Monotonic epoch counter.
#[derive(Clone, Copy, Debug, PartialEq, Eq, Structural, Hash, PartialOrd, Ord)]
pub struct EpochId(pub u64);

/// A trading pair such as BTC/USDT.
#[derive(Clone, Debug, PartialEq, Eq, Hash, PartialOrd, Ord)]
pub struct MarketPair {
    pub base: String,
    pub quote: String,
}

/// Reads sixteen bytes as a big-endian integer.
fn be_u128_of(bytes: [u8; 16]) -> (r: u128)
    ensures
        r == be_value(bytes@),
{
    let mut acc: u128 = 0;
    let mut i: usize = 0;
    while i < 16
        invariant
            i <= 16,
            bytes@.len() == 16,
            acc == be_value(bytes@.take(i as int)),
        decreases 16 - i,
    {
        proof {
            let t = bytes@.take(i as int + 1);
            assert(t.drop_last() =~= bytes@.take(i as int));
            crate::codec::lemma_be_value_fits(bytes@.take(i as int), i as nat);
        }
        acc = acc * 256 + bytes[i] as u128;
        i = i + 1;
    }
    assert(bytes@.take(16) =~= bytes@);
    acc
}

impl OrderId {
    /// A fresh identifier; successive identifiers of one process are ordered.
    pub fn new() -> (r: OrderId) {
        OrderId(fresh_v7())
    }

    /// The identifier whose big-endian bytes are `bytes`.
    pub fn from_bytes(bytes: [u8; 16]) -> (r: OrderId)
        ensures
            r.0 == be_value(bytes@),
    {
        OrderId(be_u128_of(bytes))
    }

    /// The 48-bit millisecond timestamp held in the top bytes of a UUIDv7.
    pub fn timestamp_ms(&self) -> (r: u64)
        ensures
            r == self.0 / 0x1_0000_0000_0000_0000_0000,
    {
        (self.0 / 0x1_0000_0000_0000_0000_0000) as u64
    }
}

impl UserId {
    /// A fresh identifier.
    pub fn new() -> (r: UserId) {
        UserId(fresh_v7())
    }

    /// The identifier whose big-endian bytes are `bytes`.
    pub fn from_bytes(bytes: [u8; 16]) -> (r: UserId)
        ensures
            r.0 == be_value(bytes@),
    {
        UserId(be_u128_of(bytes))
    }
}

impl SpendRightId {
    /// A fresh identifier.
    pub fn new() -> (r: SpendRightId) {
        SpendRightId(fresh_v7())
    }
}

/// Bytes hashed to derive the identifier of fill `seq` of `epoch`.
pub open spec fn trade_id_preimage(epoch: u64, seq: u64) -> Seq<u8> {
    trade_id_prefix() + le_bytes(epoch as nat, 8) + le_bytes(seq as nat, 8)
}

/// The identifier of fill `seq` of `epoch`: the first sixteen bytes of the
/// SHA-256 digest of its preimage, read big-endian.
pub open spec fn trade_id_value(epoch: u64, seq: u64) -> u128 {
    be_value(sha256_of(trade_id_preimage(epoch, seq)).take(16)) as u128
}

impl TradeId {
    /// A fresh identifier.
    pub fn new() -> (r: TradeId) {
        TradeId(fresh_v7())
    }

    /// The identifier of fill `fill_sequence` of epoch `epoch_id`: the same
    /// on every node.
    pub fn deterministic(epoch_id: u64, fill_sequence: u64) -> (r: TradeId)
        ensures
            r.0 == trade_id_value(epoch_id, fill_sequence),
    {
        let mut buf = start_trade_id_prefix();
        push_u64_le(&mut buf, epoch_id);
        push_u64_le(&mut buf, fill_sequence);
        let h = sha256(&buf);
        TradeId(be_u128_prefix(&h))
    }
}

impl NodeId {
    pub fn from_pubkey(bytes: [u8; 32]) -> (r: NodeId)
        ensures
            r.0 == bytes,
    {
        NodeId(bytes)
    }

    pub fn as_bytes(&self) -> (r: &[u8; 32])
        ensures
            *r == self.0,
    {
        &self.0
    }

    /// Whether two keys are equal, byte for byte.
    pub fn same_as(&self, other: &NodeId) -> (r: bool)
        ensures
            r == (self.0@ == other.0@),
    {
        let mut i: usize = 0;
        while i < 32
            invariant
                i <= 32,
                self.0@.len() == 32,
                other.0@.len() == 32,
                forall|j: int| 0 <= j < i ==> self.0@[j] == other.0@[j],
            decreases 32 - i,
        {
            if self.0[i] != other.0[i] {
                return false;
            }
            i = i + 1;
        }
        assert(self.0@ =~= other.0@);
        true
    }

    /// Hex text of the first `n` bytes of the key.
    fn hex_prefix(&self, n: usize) -> (r: String)
        requires
            n <= 32,
        ensures
            r@ == hex_of(self.0@.take(n as int)),
    {
        let mut v: Vec<u8> = Vec::new();
        let mut i: usize = 0;
        while i < n
            invariant
                i <= n <= 32,
                self.0@.len() == 32,
                v@ == self.0@.take(i as int),
            decreases n - i,
        {
            assert(self.0@.take(i as int + 1) =~= self.0@.take(i as int).push(self.0@[i as int]));
            v.push(self.0[i]);
            i = i + 1;
        }
        hex_encode(&v)
    }

    /// Hex text of the first four bytes.
    pub fn short(&self) -> (r: String)
        ensures
            r@ == hex_of(self.0@.take(4)),
    {
        self.hex_prefix(4)
    }

    /// Hex text of the whole key.
    pub fn to_hex(&self) -> (r: String)
        ensures
            r@ == hex_of(self.0@),
    {
        let r = self.hex_prefix(32);
        assert(self.0@.take(32) =~= self.0@);
        r
    }

    /// `node:` followed by the hex text of the first eight bytes.
    pub fn label(&self) -> (r: String)
        ensures
            r@ == seq!['n', 'o', 'd', 'e', ':'] + hex_of(self.0@.take(8)),
    {
        let h = self.hex_prefix(8);
        let mut s = String::from_str("node:");
        s.append(h.as_str());
        proof {
            reveal_strlit("node:");
        }
        assert(s@ =~= seq!['n', 'o', 'd', 'e', ':'] + hex_of(self.0@.take(8)));
        s
    }
}

impl EpochId {
    /// The following epoch.
    pub fn next(self) -> (r: EpochId)
        requires
            self.0 < u64::MAX,
        ensures
            r.0 == self.0 + 1,
    {
        EpochId(self.0 + 1)
    }
}

impl MarketPair {
    pub fn new(base: &str, quote: &str) -> (r: MarketPair)
        ensures
            r.base@ == base@,
            r.quote@ == quote@,
    {
        MarketPair { base: String::from_str(base), quote: String::from_str(quote) }
    }

    /// `base/quote`.
    pub fn symbol(&self) -> (r: String)
        ensures
            r@ == self.base@ + seq!['/'] + self.quote@,
    {
        let mut s = self.base.clone();
        s.append("/");
        s.append(self.quote.as_str());
        proof {
            reveal_strlit("/");
        }
        assert(s@ =~= self.base@ + seq!['/'] + self.quote@);
        s
    }

    /// A copy of the pair.
    pub fn duplicate(&self) -> (r: MarketPair)
        ensures
            r == *self,
    {
        MarketPair { base: self.base.clone(), quote: self.quote.clone() }
    }

    /// Whether two pairs name the same assets.
    pub fn same_as(&self, other: &MarketPair) -> (r: bool)
        ensures
            r == (self.base@ == other.base@ && self.quote@ == other.quote@),
    {
        self.base == other.base && self.quote == other.quote
    }
}

} // verus!
