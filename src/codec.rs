//! Byte encodings that feed the hash commitments.
use vstd::prelude::*;

verus! {

/// Names the SHA-256 digest of a byte string.
pub uninterp spec fn sha256_of(data: Seq<u8>) -> Seq<u8>;

/// Relies on sha2::Sha256::digest: the 32-byte digest of the input.
#[verifier::external_body]
pub(crate) fn sha256(data: &Vec<u8>) -> (r: [u8; 32])
    ensures
        r@ == sha256_of(data@),
{
    <sha2::Sha256 as sha2::Digest>::digest(data.as_slice()).into()
}

/// The `n` low-order bytes of `x`, least significant first.
pub open spec fn le_bytes(x: nat, n: nat) -> Seq<u8>
    decreases n,
{
    if n == 0 {
        seq![]
    } else {
        seq![(x % 256) as u8] + le_bytes(x / 256, (n - 1) as nat)
    }
}

/// The `n` low-order bytes of `x`, most significant first.
pub open spec fn be_bytes(x: nat, n: nat) -> Seq<u8>
    decreases n,
{
    if n == 0 {
        seq![]
    } else {
        be_bytes(x / 256, (n - 1) as nat).push((x % 256) as u8)
    }
}

/// The number whose big-endian bytes are `s`.
pub open spec fn be_value(s: Seq<u8>) -> nat
    decreases s.len(),
{
    if s.len() == 0 {
        0
    } else {
        be_value(s.drop_last()) * 256 + s.last() as nat
    }
}

/// `256^n`.
pub open spec fn pow256(n: nat) -> nat
    decreases n,
{
    if n == 0 {
        1
    } else {
        256 * pow256((n - 1) as nat)
    }
}

proof fn lemma_be_value_bound(s: Seq<u8>)
    ensures
        be_value(s) < pow256(s.len()),
    decreases s.len(),
{
    if s.len() > 0 {
        lemma_be_value_bound(s.drop_last());
        let v = be_value(s.drop_last());
        let p = pow256((s.len() - 1) as nat);
        assert(v * 256 + s.last() < p * 256) by (nonlinear_arith)
            requires v < p, s.last() < 256;
    }
}

proof fn lemma_pow256_16()
    ensures
        pow256(16) == 0x1_0000_0000_0000_0000_0000_0000_0000_0000,
{
    reveal_with_fuel(pow256, 17);
}

/// Appends the `n` low-order bytes of `x`, least significant first.
fn push_le(out: &mut Vec<u8>, x: u64, n: u32)
    ensures
        final(out)@ == old(out)@ + le_bytes(x as nat, n as nat),
    decreases n,
{
    if n > 0 {
        out.push((x % 256) as u8);
        push_le(out, x / 256, n - 1);
    }
    assert(final(out)@ =~= old(out)@ + le_bytes(x as nat, n as nat));
}

/// Appends `x` as eight little-endian bytes.
pub fn push_u64_le(out: &mut Vec<u8>, x: u64)
    ensures
        final(out)@ == old(out)@ + le_bytes(x as nat, 8),
{
    push_le(out, x, 8);
}

/// Appends the `n` low-order bytes of `x`, most significant first.
pub fn push_be(out: &mut Vec<u8>, x: u128, n: u32)
    ensures
        final(out)@ == old(out)@ + be_bytes(x as nat, n as nat),
    decreases n,
{
    if n > 0 {
        push_be(out, x / 256, n - 1);
        out.push((x % 256) as u8);
    }
    assert(final(out)@ =~= old(out)@ + be_bytes(x as nat, n as nat));
}

/// Appends every byte of `src`.
pub fn push_all(out: &mut Vec<u8>, src: &Vec<u8>)
    ensures
        final(out)@ == old(out)@ + src@,
{
    let mut i: usize = 0;
    while i < src.len()
        invariant
            i <= src@.len(),
            out@ == old(out)@ + src@.take(i as int),
        decreases src@.len() - i,
    {
        assert(src@.take(i as int + 1) =~= src@.take(i as int).push(src@[i as int]));
        out.push(src[i]);
        i = i + 1;
    }
    assert(src@.take(i as int) =~= src@);
}

/// A big-endian prefix of at most sixteen bytes grows by one byte without
/// leaving `u128`.
pub proof fn lemma_be_value_fits(s: Seq<u8>, i: nat)
    requires
        s.len() == i,
        i < 16,
    ensures
        be_value(s) * 256 + 255 <= u128::MAX,
{
    lemma_be_value_bound(s);
    lemma_pow256_16();
    lemma_pow256_mono(i + 1, 16);
    assert(pow256(i + 1) == 256 * pow256(i));
    assert(be_value(s) * 256 + 255 < pow256(i) * 256);
}

/// The number whose big-endian bytes are the first sixteen of `h`.
pub fn be_u128_prefix(h: &[u8; 32]) -> (r: u128)
    ensures
        r == be_value(h@.take(16)),
{
    let mut acc: u128 = 0;
    let mut i: usize = 0;
    while i < 16
        invariant
            i <= 16,
            h@.len() == 32,
            acc == be_value(h@.take(i as int)),
        decreases 16 - i,
    {
        proof {
            let t = h@.take(i as int + 1);
            assert(t.drop_last() =~= h@.take(i as int));
            lemma_be_value_bound(h@.take(i as int));
            lemma_be_value_bound(t);
            lemma_pow256_16();
            assert(pow256((i + 1) as nat) <= pow256(16)) by {
                lemma_pow256_mono((i + 1) as nat, 16);
            }
        }
        acc = acc * 256 + h[i] as u128;
        i = i + 1;
    }
    acc
}

proof fn lemma_pow256_mono(a: nat, b: nat)
    requires
        a <= b,
    ensures
        pow256(a) <= pow256(b),
    decreases b,
{
    if a < b {
        lemma_pow256_mono(a, (b - 1) as nat);
    }
}

/// The ASCII bytes of `openmatch:batch:v1:`.
pub open spec fn batch_prefix() -> Seq<u8> {
    seq![111, 112, 101, 110, 109, 97, 116, 99, 104, 58, 98, 97, 116, 99, 104, 58, 118, 49, 58]
}

/// Builds a buffer that starts with `openmatch:batch:v1:`.
pub fn start_batch_prefix() -> (r: Vec<u8>)
    ensures
        r@ == batch_prefix(),
{
    let r: Vec<u8> = vec![111, 112, 101, 110, 109, 97, 116, 99, 104, 58, 98, 97, 116, 99, 104, 58, 118, 49, 58];
    assert(r@ =~= batch_prefix());
    r
}

/// The ASCII bytes of `openmatch:result:v1:`.
pub open spec fn result_prefix() -> Seq<u8> {
    seq![111, 112, 101, 110, 109, 97, 116, 99, 104, 58, 114, 101, 115, 117, 108, 116, 58, 118, 49, 58]
}

/// Builds a buffer that starts with `openmatch:result:v1:`.
pub fn start_result_prefix() -> (r: Vec<u8>)
    ensures
        r@ == result_prefix(),
{
    let r: Vec<u8> = vec![111, 112, 101, 110, 109, 97, 116, 99, 104, 58, 114, 101, 115, 117, 108, 116, 58, 118, 49, 58];
    assert(r@ =~= result_prefix());
    r
}

/// The ASCII bytes of `openmatch:trade_root:v2:`.
pub open spec fn trade_root_prefix() -> Seq<u8> {
    seq![111, 112, 101, 110, 109, 97, 116, 99, 104, 58, 116, 114, 97, 100, 101, 95, 114, 111, 111, 116, 58, 118, 50, 58]
}

/// Builds a buffer that starts with `openmatch:trade_root:v2:`.
pub fn start_trade_root_prefix() -> (r: Vec<u8>)
    ensures
        r@ == trade_root_prefix(),
{
    let r: Vec<u8> = vec![111, 112, 101, 110, 109, 97, 116, 99, 104, 58, 116, 114, 97, 100, 101, 95, 114, 111, 111, 116, 58, 118, 50, 58];
    assert(r@ =~= trade_root_prefix());
    r
}

/// The ASCII bytes of `openmatch:trade_id:v2:`.
pub open spec fn trade_id_prefix() -> Seq<u8> {
    seq![111, 112, 101, 110, 109, 97, 116, 99, 104, 58, 116, 114, 97, 100, 101, 95, 105, 100, 58, 118, 50, 58]
}

/// Builds a buffer that starts with `openmatch:trade_id:v2:`.
pub fn start_trade_id_prefix() -> (r: Vec<u8>)
    ensures
        r@ == trade_id_prefix(),
{
    let r: Vec<u8> = vec![111, 112, 101, 110, 109, 97, 116, 99, 104, 58, 116, 114, 97, 100, 101, 95, 105, 100, 58, 118, 50, 58];
    assert(r@ =~= trade_id_prefix());
    r
}

/// The ASCII bytes of `openmatch:sr:v1:`.
pub open spec fn spend_right_prefix() -> Seq<u8> {
    seq![111, 112, 101, 110, 109, 97, 116, 99, 104, 58, 115, 114, 58, 118, 49, 58]
}

/// Builds a buffer that starts with `openmatch:sr:v1:`.
pub fn start_spend_right_prefix() -> (r: Vec<u8>)
    ensures
        r@ == spend_right_prefix(),
{
    let r: Vec<u8> = vec![111, 112, 101, 110, 109, 97, 116, 99, 104, 58, 115, 114, 58, 118, 49, 58];
    assert(r@ =~= spend_right_prefix());
    r
}

} // verus!
