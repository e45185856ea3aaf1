//! The deterministic orderings of orders and a sort that realises them.
use vstd::prelude::*;
use vstd::multiset::Multiset;
use crate::order::{effective_price_of, Order, OrderSide};

verus! {

broadcast use vstd::seq_lib::group_to_multiset_ensures;

/// Which ordering a sort follows.
#[derive(Clone, Copy, Debug, PartialEq, Eq, Structural)]
pub enum SortRule {
    /// Higher effective price first, then lower sequence, then lower
    /// identifier.
    BuyPriority,
    /// Lower effective price first, then lower sequence, then lower
    /// identifier.
    SellPriority,
    /// Buys before sells; buys by `BuyPriority`, sells by `SellPriority`.
    Canonical,
}

/// Whether `a` may stand before `b` under `rule`.
pub open spec fn precedes(rule: SortRule, a: Order, b: Order) -> bool {
    let pa = effective_price_of(a);
    let pb = effective_price_of(b);
    match rule {
        SortRule::BuyPriority => pa > pb || (pa == pb && (a.sequence < b.sequence || (a.sequence == b.sequence && a.id.0 <= b.id.0))),
        SortRule::SellPriority => pa < pb || (pa == pb && (a.sequence < b.sequence || (a.sequence == b.sequence && a.id.0 <= b.id.0))),
        SortRule::Canonical => {
            if a.side != b.side {
                a.side == OrderSide::Buy
            } else if a.side == OrderSide::Buy {
                pa > pb || (pa == pb && (a.sequence < b.sequence || (a.sequence == b.sequence && a.id.0 <= b.id.0)))
            } else {
                pa < pb || (pa == pb && (a.sequence < b.sequence || (a.sequence == b.sequence && a.id.0 <= b.id.0)))
            }
        },
    }
}

/// Every earlier element may stand before every later one.
pub open spec fn sorted_by(rule: SortRule, s: Seq<Order>) -> bool {
    forall|i: int, j: int| 0 <= i < j < s.len() ==> precedes(rule, #[trigger] s[i], #[trigger] s[j])
}

/// `precedes` as an executable test.
pub fn precedes_exec(rule: SortRule, a: &Order, b: &Order) -> (r: bool)
    ensures
        r == precedes(rule, *a, *b),
{
    let pa = a.effective_price().units;
    let pb = b.effective_price().units;
    match rule {
        SortRule::BuyPriority => pa > pb || (pa == pb && (a.sequence < b.sequence || (a.sequence == b.sequence && a.id.0 <= b.id.0))),
        SortRule::SellPriority => pa < pb || (pa == pb && (a.sequence < b.sequence || (a.sequence == b.sequence && a.id.0 <= b.id.0))),
        SortRule::Canonical => {
            if a.side != b.side {
                a.side == OrderSide::Buy
            } else if a.side == OrderSide::Buy {
                pa > pb || (pa == pb && (a.sequence < b.sequence || (a.sequence == b.sequence && a.id.0 <= b.id.0)))
            } else {
                pa < pb || (pa == pb && (a.sequence < b.sequence || (a.sequence == b.sequence && a.id.0 <= b.id.0)))
            }
        },
    }
}

/// Sorts `v` by `rule`; the result holds the same orders.
pub fn sort_orders(v: Vec<Order>, rule: SortRule) -> (r: Vec<Order>)
    ensures
        sorted_by(rule, r@),
        r@.to_multiset() == v@.to_multiset(),
        r@.len() == v@.len(),
{
    let mut src = v;
    let mut out: Vec<Order> = Vec::new();
    while src.len() > 0
        invariant
            sorted_by(rule, out@),
            out@.to_multiset().add(src@.to_multiset()) == v@.to_multiset(),
            out@.len() + src@.len() == v@.len(),
        decreases src@.len(),
    {
        let ghost before_src = src@;
        let x = src.pop().unwrap();
        proof {
            assert(before_src == src@.push(x));
        }
        let mut pos: usize = 0;
        while pos < out.len() && precedes_exec(rule, &out[pos], &x)
            invariant
                pos <= out@.len(),
                forall|k: int| 0 <= k < pos ==> precedes(rule, #[trigger] out@[k], x),
            decreases out@.len() - pos,
        {
            pos = pos + 1;
        }
        proof {
            // The elements after `pos` all follow `x`.
            assert forall|k: int| pos <= k < out@.len() implies precedes(rule, x, #[trigger] out@[k]) by {
                assert(!precedes(rule, out@[pos as int], x));
                if k > pos {
                    assert(precedes(rule, out@[pos as int], out@[k]));
                }
            }
        }
        let ghost old_out = out@;
        out.insert(pos, x);
        proof {
            assert forall|i: int, j: int| 0 <= i < j < out@.len() implies precedes(
                rule,
                #[trigger] out@[i],
                #[trigger] out@[j],
            ) by {
                if i < pos && j < pos {
                    assert(out@[i] == old_out[i] && out@[j] == old_out[j]);
                } else if i < pos && j == pos {
                } else if i < pos {
                    assert(out@[j] == old_out[j - 1]);
                    assert(precedes(rule, old_out[i], old_out[j - 1]));
                } else if i == pos {
                    assert(out@[j] == old_out[j - 1]);
                } else {
                    assert(out@[i] == old_out[i - 1] && out@[j] == old_out[j - 1]);
                }
            }
            vstd::seq_lib::to_multiset_insert(old_out, pos as int, x);
            vstd::seq_lib::to_multiset_build(src@, x);
            assert(out@.to_multiset().add(src@.to_multiset()) =~= old_out.to_multiset().add(
                before_src.to_multiset(),
            ));
        }
    }
    proof {
        assert(src@.to_multiset() =~= Multiset::empty());
        assert(out@.to_multiset().add(Multiset::empty()) =~= out@.to_multiset());
    }
    out
}

/// No two orders of `s` share a sequence number.
pub open spec fn sequences_distinct(s: Seq<Order>) -> bool {
    forall|i: int, j: int| 0 <= i < s.len() && 0 <= j < s.len() && i != j ==> s[i].sequence != s[j].sequence
}

/// The canonical order is unique: two canonically sorted arrangements of
/// the same orders, with distinct keys, are identical. Sealing
/// the same orders in the same epoch therefore hashes the same bytes.
pub proof fn lemma_canonical_unique(s1: Seq<Order>, s2: Seq<Order>)
    requires
        sorted_by(SortRule::Canonical, s1),
        sorted_by(SortRule::Canonical, s2),
        s1.to_multiset() == s2.to_multiset(),
        keys_distinct(s1),
    ensures
        s1 == s2,
{
    lemma_sorted_unique(SortRule::Canonical, s1, s2);
}

/// No two orders of `s` share both sequence number and identifier.
pub open spec fn keys_distinct(s: Seq<Order>) -> bool {
    forall|i: int, j: int| 0 <= i < s.len() && 0 <= j < s.len() && i != j ==> (s[i].sequence, s[i].id.0) != (
    s[j].sequence, s[j].id.0)
}

/// Distinct sequence numbers make distinct keys.
pub proof fn lemma_keys_from_sequences(s: Seq<Order>)
    requires
        keys_distinct(s),
    ensures
        keys_distinct(s),
{
}

/// Any of the orderings is unique on orders with distinct keys.
pub proof fn lemma_sorted_unique(rule: SortRule, s1: Seq<Order>, s2: Seq<Order>)
    requires
        sorted_by(rule, s1),
        sorted_by(rule, s2),
        s1.to_multiset() == s2.to_multiset(),
        keys_distinct(s1),
    ensures
        s1 == s2,
    decreases s1.len(),
{
    if s1.len() == 0 {
        assert(s2.to_multiset().len() == 0);
        assert(s2 =~= s1);
    } else {
        assert(s1.to_multiset().len() == s1.len());
        assert(s2.to_multiset().len() == s2.len());
        let a = s1[0];
        let b = s2[0];
        assert(s1.contains(a));
        assert(s2.to_multiset().count(a) > 0);
        assert(s2.contains(a));
        let k = choose|k: int| 0 <= k < s2.len() && s2[k] == a;
        assert(s2.contains(b));
        assert(s1.to_multiset().count(b) > 0);
        assert(s1.contains(b));
        let m = choose|m: int| 0 <= m < s1.len() && s1[m] == b;
        if k > 0 {
            assert(precedes(rule, s2[0], s2[k]));
        }
        if m > 0 {
            assert(precedes(rule, s1[0], s1[m]));
        }
        assert(a.sequence == b.sequence && a.id.0 == b.id.0);
        assert(m == 0);
        assert(a == b);
        assert(s1 =~= seq![a] + s1.drop_first());
        assert(s2 =~= seq![a] + s2.drop_first());
        assert(s1.drop_first() =~= s1.remove(0));
        assert(s2.drop_first() =~= s2.remove(0));
        assert(s1.drop_first().to_multiset() == s2.drop_first().to_multiset());
        assert(sorted_by(rule, s1.drop_first()));
        assert(sorted_by(rule, s2.drop_first()));
        assert(keys_distinct(s1.drop_first()));
        lemma_sorted_unique(rule, s1.drop_first(), s2.drop_first());
    }
}

/// Distinct sequence numbers survive reordering.
pub proof fn lemma_distinct_perm(s: Seq<Order>, t: Seq<Order>)
    requires
        s.to_multiset() == t.to_multiset(),
        sequences_distinct(s),
    ensures
        sequences_distinct(t),
{
    assert forall|i: int, j: int| 0 <= i < t.len() && 0 <= j < t.len() && i != j implies t[i].sequence != t[j].sequence by {
        if t[i].sequence == t[j].sequence {
            assert(t.contains(t[i]));
            assert(s.to_multiset().count(t[i]) > 0);
            assert(s.contains(t[i]));
            let p = choose|p: int| 0 <= p < s.len() && s[p] == t[i];
            if t[i] == t[j] {
                let tr = t.remove(j);
                let k = if i < j { i } else { i - 1 };
                assert(tr[k] == t[i]);
                assert(tr.contains(t[i]));
                assert(tr.to_multiset().count(t[i]) > 0);
                assert(tr.to_multiset() == t.to_multiset().remove(t[j]));
                assert(t.to_multiset().count(t[i]) >= 2);
                let sr = s.remove(p);
                assert(sr.to_multiset() == s.to_multiset().remove(s[p]));
                assert(sr.to_multiset().count(t[i]) >= 1);
                assert(sr.contains(t[i]));
                let q = choose|q: int| 0 <= q < sr.len() && sr[q] == t[i];
                let q2 = if q < p { q } else { q + 1 };
                assert(s[q2] == sr[q]);
                assert(q2 != p);
            } else {
                assert(t.contains(t[j]));
                assert(s.to_multiset().count(t[j]) > 0);
                assert(s.contains(t[j]));
                let q = choose|q: int| 0 <= q < s.len() && s[q] == t[j];
                assert(p != q);
            }
        }
    }
}

/// Distinct keys survive reordering.
pub proof fn lemma_keys_perm(s: Seq<Order>, t: Seq<Order>)
    requires
        s.to_multiset() == t.to_multiset(),
        keys_distinct(s),
    ensures
        keys_distinct(t),
{
    assert forall|i: int, j: int| 0 <= i < t.len() && 0 <= j < t.len() && i != j implies (t[i].sequence, t[i].id.0) != (t[j].sequence, t[j].id.0) by {
        if (t[i].sequence, t[i].id.0) == (t[j].sequence, t[j].id.0) {
            assert(t.contains(t[i]));
            assert(s.to_multiset().count(t[i]) > 0);
            assert(s.contains(t[i]));
            let p = choose|p: int| 0 <= p < s.len() && s[p] == t[i];
            if t[i] == t[j] {
                let tr = t.remove(j);
                let k = if i < j { i } else { i - 1 };
                assert(tr[k] == t[i]);
                assert(tr.contains(t[i]));
                assert(tr.to_multiset().count(t[i]) > 0);
                assert(tr.to_multiset() == t.to_multiset().remove(t[j]));
                assert(t.to_multiset().count(t[i]) >= 2);
                let sr = s.remove(p);
                assert(sr.to_multiset() == s.to_multiset().remove(s[p]));
                assert(sr.to_multiset().count(t[i]) >= 1);
                assert(sr.contains(t[i]));
                let q = choose|q: int| 0 <= q < sr.len() && sr[q] == t[i];
                let q2 = if q < p { q } else { q + 1 };
                assert(s[q2] == sr[q]);
                assert(q2 != p);
            } else {
                assert(t.contains(t[j]));
                assert(s.to_multiset().count(t[j]) > 0);
                assert(s.contains(t[j]));
                let q = choose|q: int| 0 <= q < s.len() && s[q] == t[j];
                assert(p != q);
            }
        }
    }
}

} // verus!
