//! Anti-replay and anti-flood guards: the nonce tracker, the order rate
//! limiter and the price sanity gate.
use vstd::prelude::*;
use crate::error::{OpenmatchError, Result};
use crate::decimal::{Decimal, MAX_UNITS};
use crate::ids::{MarketPair, NodeId, UserId};

verus! {

/// Number of records of `s` made by node `n`.
pub open spec fn node_count(s: Seq<(Seq<u8>, u64)>, n: Seq<u8>) -> nat
    decreases s.len(),
{
    if s.len() == 0 {
        0
    } else {
        node_count(s.drop_last(), n) + if s.last().0 == n { 1nat } else { 0 }
    }
}

/// The records of `s` not made by node `n`, in order.
pub open spec fn without_node(s: Seq<(Seq<u8>, u64)>, n: Seq<u8>) -> Seq<(Seq<u8>, u64)>
    decreases s.len(),
{
    if s.len() == 0 {
        seq![]
    } else if s.last().0 == n {
        without_node(s.drop_last(), n)
    } else {
        without_node(s.drop_last(), n).push(s.last())
    }
}

/// Per-node record of nonces seen, with a per-node cap.
pub struct NonceTracker {
    used: Vec<(NodeId, u64)>,
    max_per_node: usize,
}

impl NonceTracker {
    /// The (node key, nonce) pairs recorded, oldest first.
    pub closed spec fn records(&self) -> Seq<(Seq<u8>, u64)> {
        self.used@.map_values(|r: (NodeId, u64)| (r.0.0@, r.1))
    }

    pub closed spec fn cap(&self) -> usize {
        self.max_per_node
    }

    pub fn new(max_per_node: usize) -> (r: NonceTracker)
        ensures
            r.records() == Seq::<(Seq<u8>, u64)>::empty(),
            r.cap() == max_per_node,
    {
        let r = NonceTracker { used: Vec::new(), max_per_node };
        assert(r.records() =~= Seq::<(Seq<u8>, u64)>::empty());
        r
    }

    /// Records `nonce` for `node_id`. A nonce seen before from that node is
    /// a replay; a node at its cap is rate limited.
    pub fn check_and_record(&mut self, node_id: &NodeId, nonce: u64) -> (r: Result<()>)
        ensures
            final(self).cap() == old(self).cap(),
            old(self).records().contains((node_id.0@, nonce)) ==> r matches Err(
                OpenmatchError::NonceReplay { .. },
            ),
            !old(self).records().contains((node_id.0@, nonce)) && node_count(old(self).records(), node_id.0@)
                >= old(self).cap() ==> r matches Err(OpenmatchError::RateLimitExceeded { .. }),
            r is Ok <==> !old(self).records().contains((node_id.0@, nonce)) && node_count(
                old(self).records(),
                node_id.0@,
            ) < old(self).cap(),
            r is Ok ==> final(self).records() == old(self).records().push((node_id.0@, nonce)),
            r is Err ==> final(self).records() == old(self).records(),
    {
        let mut count: usize = 0;
        let mut seen = false;
        let mut i: usize = 0;
        while i < self.used.len()
            invariant
                i <= self.used@.len(),
                count <= i,
                count == node_count(self.records().take(i as int), node_id.0@),
                seen == self.records().take(i as int).contains((node_id.0@, nonce)),
                self.records().len() == self.used@.len(),
            decreases self.used@.len() - i,
        {
            proof {
                let t = self.records().take(i as int + 1);
                assert(t.drop_last() =~= self.records().take(i as int));
                assert(t.last() == self.records()[i as int]);
                assert(t =~= self.records().take(i as int).push(self.records()[i as int]));
            }
            if self.used[i].0.same_as(node_id) {
                count = count + 1;
                if self.used[i].1 == nonce {
                    seen = true;
                }
            }
            i = i + 1;
        }
        assert(self.records().take(i as int) =~= self.records());
        if seen {
            return Err(OpenmatchError::NonceReplay { node_hex: node_id.to_hex(), nonce });
        }
        if count >= self.max_per_node {
            let mut reason = String::from_str("Node ");
            reason.append(node_id.to_hex().as_str());
            reason.append(" exceeded nonce quota");
            return Err(OpenmatchError::RateLimitExceeded { reason });
        }
        self.used.push((*node_id, nonce));
        assert(self.records() =~= old(self).records().push((node_id.0@, nonce)));
        Ok(())
    }

    /// Forgets every nonce of `node_id`.
    pub fn clear_node(&mut self, node_id: &NodeId)
        ensures
            final(self).cap() == old(self).cap(),
            final(self).records() == without_node(old(self).records(), node_id.0@),
    {
        let mut kept: Vec<(NodeId, u64)> = Vec::new();
        let mut i: usize = 0;
        while i < self.used.len()
            invariant
                i <= self.used@.len(),
                self.records().len() == self.used@.len(),
                kept@.map_values(|r: (NodeId, u64)| (r.0.0@, r.1)) == without_node(self.records().take(i as int), node_id.0@),
            decreases self.used@.len() - i,
        {
            proof {
                let t = self.records().take(i as int + 1);
                assert(t.drop_last() =~= self.records().take(i as int));
                assert(t.last() == self.records()[i as int]);
            }
            let ghost k0 = kept@;
            if !self.used[i].0.same_as(node_id) {
                kept.push(self.used[i]);
                assert(kept@.map_values(|r: (NodeId, u64)| (r.0.0@, r.1)) =~= k0.map_values(|r: (NodeId, u64)| (r.0.0@, r.1)).push(self.records()[i as int]));
            }
            i = i + 1;
        }
        assert(self.records().take(i as int) =~= self.records());
        self.used = kept;
    }

    /// Forgets every nonce.
    pub fn clear_all(&mut self)
        ensures
            final(self).cap() == old(self).cap(),
            final(self).records() == Seq::<(Seq<u8>, u64)>::empty(),
    {
        self.used = Vec::new();
        assert(self.records() =~= Seq::<(Seq<u8>, u64)>::empty());
    }

    /// Number of nonces held over all nodes.
    pub fn total_nonces(&self) -> (r: usize)
        ensures
            r == self.records().len(),
    {
        self.used.len()
    }
}

/// The timestamps of `s` at or after `cutoff`, in their order.
pub open spec fn pruned(s: Seq<u64>, cutoff: u64) -> Seq<u64>
    decreases s.len(),
{
    if s.len() == 0 {
        seq![]
    } else if s.last() < cutoff {
        pruned(s.drop_last(), cutoff)
    } else {
        pruned(s.drop_last(), cutoff).push(s.last())
    }
}

/// Rate state of one user: recent submission times and the epoch count.
struct UserRate {
    user: UserId,
    window: Vec<u64>,
    count: usize,
}

/// The window and epoch count of the first state of `u` in `s`.
spec fn rate_in(s: Seq<UserRate>, u: u128) -> (Seq<u64>, nat)
    decreases s.len(),
{
    if s.len() == 0 {
        (seq![], 0)
    } else if s[0].user.0 == u {
        (s[0].window@, s[0].count as nat)
    } else {
        rate_in(s.drop_first(), u)
    }
}

spec fn users_unique(s: Seq<UserRate>) -> bool {
    forall|i: int, j: int| 0 <= i < s.len() && 0 <= j < s.len() && i != j ==> s[i].user.0 != s[j].user.0
}

proof fn lemma_rate_at(s: Seq<UserRate>, i: int, u: u128)
    requires
        0 <= i < s.len(),
        users_unique(s),
        s[i].user.0 == u,
    ensures
        rate_in(s, u) == (s[i].window@, s[i].count as nat),
    decreases s.len(),
{
    if i > 0 {
        assert(s.drop_first()[i - 1] == s[i]);
        lemma_rate_at(s.drop_first(), i - 1, u);
    }
}

proof fn lemma_rate_absent(s: Seq<UserRate>, u: u128)
    requires
        forall|i: int| 0 <= i < s.len() ==> (#[trigger] s[i]).user.0 != u,
    ensures
        rate_in(s, u) == (Seq::<u64>::empty(), 0nat),
    decreases s.len(),
{
    if s.len() > 0 {
        assert(s[0].user.0 != u);
        assert forall|i: int| 0 <= i < s.drop_first().len() implies (#[trigger] s.drop_first()[i]).user.0 != u by {
            assert(s.drop_first()[i] == s[i + 1]);
        }
        lemma_rate_absent(s.drop_first(), u);
    }
}

/// Per-user sliding window of submission times plus a per-epoch cap.
pub struct OrderRateLimiter {
    users: Vec<UserRate>,
    window_ms: u64,
    max_per_window: usize,
    max_per_epoch: usize,
}

impl OrderRateLimiter {
    /// Submission times of `u` in the current window.
    pub closed spec fn window_of(&self, u: u128) -> Seq<u64> {
        rate_in(self.users@, u).0
    }

    /// Orders of `u` accepted this epoch.
    pub closed spec fn count_of(&self, u: u128) -> nat {
        rate_in(self.users@, u).1
    }

    pub closed spec fn window_len(&self) -> u64 {
        self.window_ms
    }

    pub closed spec fn per_window(&self) -> usize {
        self.max_per_window
    }

    pub closed spec fn per_epoch(&self) -> usize {
        self.max_per_epoch
    }

    /// One rate state per user.
    pub closed spec fn wf(&self) -> bool {
        users_unique(self.users@)
    }

    pub fn new(window_ms: u64, max_per_window: usize, max_per_epoch: usize) -> (r: OrderRateLimiter)
        ensures
            r.wf(),
            r.window_len() == window_ms,
            r.per_window() == max_per_window,
            r.per_epoch() == max_per_epoch,
            forall|u: u128| r.window_of(u) == Seq::<u64>::empty() && r.count_of(u) == 0,
    {
        OrderRateLimiter { users: Vec::new(), window_ms, max_per_window, max_per_epoch }
    }

    fn find(&self, user: &UserId) -> (r: Option<usize>)
        requires
            self.wf(),
        ensures
            r matches Some(i) ==> i < self.users@.len() && self.users@[i as int].user.0 == user.0,
            r is None ==> forall|k: int| 0 <= k < self.users@.len() ==> (#[trigger] self.users@[k]).user.0 != user.0,
    {
        let mut i: usize = 0;
        while i < self.users.len()
            invariant
                self.wf(),
                i <= self.users@.len(),
                forall|k: int| 0 <= k < i ==> (#[trigger] self.users@[k]).user.0 != user.0,
            decreases self.users@.len() - i,
        {
            if self.users[i].user.0 == user.0 {
                return Some(i);
            }
            i = i + 1;
        }
        None
    }

    /// Drops every entry of `w` older than `cutoff`.
    fn prune(w: &Vec<u64>, cutoff: u64) -> (r: Vec<u64>)
        ensures
            r@ == pruned(w@, cutoff),
    {
        let mut out: Vec<u64> = Vec::new();
        let mut i: usize = 0;
        while i < w.len()
            invariant
                i <= w@.len(),
                out@ == pruned(w@.take(i as int), cutoff),
            decreases w@.len() - i,
        {
            proof {
                let t = w@.take(i as int + 1);
                assert(t.drop_last() =~= w@.take(i as int));
                assert(t.last() == w@[i as int]);
            }
            if w[i] >= cutoff {
                out.push(w[i]);
            }
            i = i + 1;
        }
        assert(w@.take(i as int) =~= w@);
        out
    }

    /// Replaces the state at `i` (which belongs to `user`).
    fn put(&mut self, i: usize, user: UserId, window: Vec<u64>, count: usize)
        requires
            old(self).wf(),
            i < old(self).users@.len(),
            old(self).users@[i as int].user.0 == user.0,
        ensures
            final(self).wf(),
            final(self).window_len() == old(self).window_len(),
            final(self).per_window() == old(self).per_window(),
            final(self).per_epoch() == old(self).per_epoch(),
            final(self).window_of(user.0) == window@,
            final(self).count_of(user.0) == count,
            forall|u: u128| u != user.0 ==> final(self).window_of(u) == old(self).window_of(u) && final(self).count_of(u) == old(self).count_of(u),
    {
        let ghost s0 = self.users@;
        let ghost w = window@;
        self.users.set(i, UserRate { user, window, count });
        proof {
            lemma_rate_at(self.users@, i as int, user.0);
            assert forall|u: u128| u != user.0 implies rate_in(self.users@, u) == rate_in(s0, u) by {
                if exists|k: int| 0 <= k < s0.len() && s0[k].user.0 == u {
                    let k = choose|k: int| 0 <= k < s0.len() && s0[k].user.0 == u;
                    lemma_rate_at(s0, k, u);
                    lemma_rate_at(self.users@, k, u);
                } else {
                    lemma_rate_absent(s0, u);
                    assert forall|k: int| 0 <= k < self.users@.len() implies (#[trigger] self.users@[k]).user.0 != u by {
                        if k != i {
                            assert(self.users@[k] == s0[k]);
                        }
                    }
                    lemma_rate_absent(self.users@, u);
                }
            }
        }
    }

    /// Admits one order of `user_id` at `now_ms`: fails with
    /// `OrderFloodDetected` at the epoch cap; otherwise drops every window
    /// entry older than `now_ms - window_ms` and fails with `RateLimitExceeded`
    /// when the window is full; else records the order.
    pub fn check_and_record(&mut self, user_id: &UserId, now_ms: u64) -> (r: Result<()>)
        requires
            old(self).wf(),
        ensures
            final(self).wf(),
            final(self).window_len() == old(self).window_len(),
            final(self).per_window() == old(self).per_window(),
            final(self).per_epoch() == old(self).per_epoch(),
            forall|u: u128| u != user_id.0 ==> final(self).window_of(u) == old(self).window_of(u)
                && final(self).count_of(u) == old(self).count_of(u),
            old(self).count_of(user_id.0) >= old(self).per_epoch() ==> (r matches Err(
                OpenmatchError::OrderFloodDetected { .. },
            ) && final(self).window_of(user_id.0) == old(self).window_of(user_id.0)
                && final(self).count_of(user_id.0) == old(self).count_of(user_id.0)),
            old(self).count_of(user_id.0) < old(self).per_epoch() ==> admitted(
                old(self).window_of(user_id.0),
                old(self).count_of(user_id.0),
                final(self).window_of(user_id.0),
                final(self).count_of(user_id.0),
                r,
                now_ms,
                old(self).window_len(),
                old(self).per_window(),
            ),
    {
        let idx = match self.find(user_id) {
            Some(i) => i,
            None => {
                proof { lemma_rate_absent(self.users@, user_id.0); }
                let ghost s0 = self.users@;
                self.users.push(UserRate { user: *user_id, window: Vec::new(), count: 0 });
                proof {
                    lemma_rate_at(self.users@, s0.len() as int, user_id.0);
                    assert(self.users@[s0.len() as int].window@ =~= Seq::<u64>::empty());
                    assert forall|u: u128| u != user_id.0 implies rate_in(self.users@, u) == rate_in(s0, u) by {
                        if exists|k: int| 0 <= k < s0.len() && s0[k].user.0 == u {
                            let k = choose|k: int| 0 <= k < s0.len() && s0[k].user.0 == u;
                            lemma_rate_at(s0, k, u);
                            lemma_rate_at(self.users@, k, u);
                        } else {
                            lemma_rate_absent(s0, u);
                            assert forall|k: int| 0 <= k < self.users@.len() implies (#[trigger] self.users@[k]).user.0 != u by {
                                if k < s0.len() {
                                    assert(self.users@[k] == s0[k]);
                                }
                            }
                            lemma_rate_absent(self.users@, u);
                        }
                    }
                }
                self.users.len() - 1
            },
        };
        proof { lemma_rate_at(self.users@, idx as int, user_id.0); }
        let count = self.users[idx].count;
        if count >= self.max_per_epoch {
            return Err(OpenmatchError::OrderFloodDetected { count, window_ms: 0 });
        }
        let cutoff = if now_ms >= self.window_ms { now_ms - self.window_ms } else { 0 };
        let mut window = OrderRateLimiter::prune(&self.users[idx].window, cutoff);
        if window.len() >= self.max_per_window {
            self.put(idx, *user_id, window, count);
            return Err(OpenmatchError::RateLimitExceeded { reason: String::from_str("User exceeded the order rate window") });
        }
        window.push(now_ms);
        self.put(idx, *user_id, window, count + 1);
        Ok(())
    }

    /// Clears every window and epoch count.
    pub fn reset_epoch(&mut self)
        ensures
            final(self).wf(),
            final(self).window_len() == old(self).window_len(),
            final(self).per_window() == old(self).per_window(),
            final(self).per_epoch() == old(self).per_epoch(),
            forall|u: u128| final(self).window_of(u) == Seq::<u64>::empty() && final(self).count_of(u) == 0,
    {
        self.users = Vec::new();
    }

    /// Orders of `user_id` accepted this epoch.
    pub fn epoch_count(&self, user_id: &UserId) -> (r: usize)
        requires
            self.wf(),
        ensures
            r == self.count_of(user_id.0),
    {
        match self.find(user_id) {
            Some(i) => {
                proof { lemma_rate_at(self.users@, i as int, user_id.0); }
                self.users[i].count
            },
            None => {
                proof { lemma_rate_absent(self.users@, user_id.0); }
                0
            },
        }
    }
}

/// The outcome of admitting an order below the epoch cap: every window
/// entry older than `now - window_ms` is dropped; a full window rejects, otherwise `now` is
/// appended and the count grows by one.
pub open spec fn admitted(
    w0: Seq<u64>,
    c0: nat,
    w1: Seq<u64>,
    c1: nat,
    r: Result<()>,
    now: u64,
    window_ms: u64,
    per_window: usize,
) -> bool {
    let w = pruned(w0, if now >= window_ms { (now - window_ms) as u64 } else { 0 });
    if w.len() >= per_window {
        r matches Err(OpenmatchError::RateLimitExceeded { .. }) && w1 == w && c1 == c0
    } else {
        r is Ok && w1 == w.push(now) && c1 == c0 + 1
    }
}

struct PriceRef {
    market: MarketPair,
    price: Decimal,
}

spec fn ref_in(s: Seq<PriceRef>, base: Seq<char>, quote: Seq<char>) -> Option<int>
    decreases s.len(),
{
    if s.len() == 0 {
        None
    } else if s[0].market.base@ == base && s[0].market.quote@ == quote {
        Some(s[0].price@)
    } else {
        ref_in(s.drop_first(), base, quote)
    }
}

spec fn refs_unique(s: Seq<PriceRef>) -> bool {
    forall|i: int, j: int|
        0 <= i < s.len() && 0 <= j < s.len() && i != j ==> !(s[i].market.base@ == s[j].market.base@
            && s[i].market.quote@ == s[j].market.quote@)
}

proof fn lemma_ref_at(s: Seq<PriceRef>, i: int, base: Seq<char>, quote: Seq<char>)
    requires
        0 <= i < s.len(),
        refs_unique(s),
        s[i].market.base@ == base && s[i].market.quote@ == quote,
    ensures
        ref_in(s, base, quote) == Some(s[i].price@),
    decreases s.len(),
{
    if i > 0 {
        assert(s.drop_first()[i - 1] == s[i]);
        lemma_ref_at(s.drop_first(), i - 1, base, quote);
    }
}

proof fn lemma_ref_absent(s: Seq<PriceRef>, base: Seq<char>, quote: Seq<char>)
    requires
        forall|i: int| 0 <= i < s.len() ==> !((#[trigger] s[i]).market.base@ == base && s[i].market.quote@ == quote),
    ensures
        ref_in(s, base, quote) is None,
    decreases s.len(),
{
    if s.len() > 0 {
        assert(!(s[0].market.base@ == base && s[0].market.quote@ == quote));
        assert forall|i: int| 0 <= i < s.drop_first().len() implies !((#[trigger] s.drop_first()[i]).market.base@ == base && s.drop_first()[i].market.quote@ == quote) by {
            assert(s.drop_first()[i] == s[i + 1]);
        }
        lemma_ref_absent(s.drop_first(), base, quote);
    }
}

/// Whether `price` passes the sanity gate against reference `reference`
/// with multiplier `d`.
pub open spec fn price_sane(price: int, reference: Option<int>, d: int) -> bool {
    &&& price > 0
    &&& price == MAX_UNITS || match reference {
        None => true,
        Some(r) => price * d >= r && price <= r * d,
    }
}

/// Per-market reference prices and the largest accepted deviation factor.
pub struct PriceSanityChecker {
    refs: Vec<PriceRef>,
    max_deviation: u64,
}

impl PriceSanityChecker {
    /// The reference price of the market `(base, quote)`, in units.
    pub closed spec fn reference(&self, base: Seq<char>, quote: Seq<char>) -> Option<int> {
        ref_in(self.refs@, base, quote)
    }

    pub closed spec fn deviation(&self) -> u64 {
        self.max_deviation
    }

    pub closed spec fn wf(&self) -> bool {
        &&& refs_unique(self.refs@)
        &&& self.max_deviation > 0
        &&& forall|i: int| 0 <= i < self.refs@.len() ==> (#[trigger] self.refs@[i]).price@ > 0
    }

    pub fn new(max_deviation_multiplier: u64) -> (r: PriceSanityChecker)
        requires
            max_deviation_multiplier > 0,
        ensures
            r.wf(),
            r.deviation() == max_deviation_multiplier,
            forall|b: Seq<char>, q: Seq<char>| r.reference(b, q) is None,
    {
        PriceSanityChecker { refs: Vec::new(), max_deviation: max_deviation_multiplier }
    }

    fn find(&self, market: &MarketPair) -> (r: Option<usize>)
        requires
            self.wf(),
        ensures
            r matches Some(i) ==> i < self.refs@.len() && self.refs@[i as int].market.base@ == market.base@
                && self.refs@[i as int].market.quote@ == market.quote@,
            r is None ==> forall|k: int| 0 <= k < self.refs@.len() ==> !((#[trigger] self.refs@[k]).market.base@
                == market.base@ && self.refs@[k].market.quote@ == market.quote@),
    {
        let mut i: usize = 0;
        while i < self.refs.len()
            invariant
                i <= self.refs@.len(),
                forall|k: int| 0 <= k < i ==> !((#[trigger] self.refs@[k]).market.base@ == market.base@
                    && self.refs@[k].market.quote@ == market.quote@),
            decreases self.refs@.len() - i,
        {
            if self.refs[i].market.same_as(market) {
                return Some(i);
            }
            i = i + 1;
        }
        None
    }

    /// Sets the reference of `market` to `price` when `price` is positive.
    pub fn update_reference(&mut self, market: &MarketPair, price: Decimal)
        requires
            old(self).wf(),
        ensures
            final(self).wf(),
            final(self).deviation() == old(self).deviation(),
            price@ > 0 ==> final(self).reference(market.base@, market.quote@) == Some(price@),
            price@ <= 0 ==> final(self).reference(market.base@, market.quote@) == old(self).reference(market.base@, market.quote@),
            forall|b: Seq<char>, q: Seq<char>| !(b == market.base@ && q == market.quote@) ==> final(self).reference(b, q) == old(self).reference(b, q),
    {
        if price.units <= 0 {
            return;
        }
        let ghost s0 = self.refs@;
        let entry = PriceRef { market: market.duplicate(), price };
        match self.find(market) {
            Some(i) => {
                self.refs.set(i, entry);
                proof {
                    assert forall|ii: int, jj: int| 0 <= ii < self.refs@.len() && 0 <= jj < self.refs@.len() && ii != jj implies !(self.refs@[ii].market.base@ == self.refs@[jj].market.base@
                        && self.refs@[ii].market.quote@ == self.refs@[jj].market.quote@) by {
                        if ii != i as int { assert(self.refs@[ii] == s0[ii]); }
                        if jj != i as int { assert(self.refs@[jj] == s0[jj]); }
                    }
                    assert forall|k: int| 0 <= k < self.refs@.len() implies (#[trigger] self.refs@[k]).price@ > 0 by {
                        if k != i as int { assert(self.refs@[k] == s0[k]); }
                    }
                    lemma_ref_at(self.refs@, i as int, market.base@, market.quote@);
                    assert forall|b: Seq<char>, q: Seq<char>| !(b == market.base@ && q == market.quote@) implies ref_in(self.refs@, b, q) == ref_in(s0, b, q) by {
                        if exists|k: int| 0 <= k < s0.len() && s0[k].market.base@ == b && s0[k].market.quote@ == q {
                            let k = choose|k: int| 0 <= k < s0.len() && s0[k].market.base@ == b && s0[k].market.quote@ == q;
                            lemma_ref_at(s0, k, b, q);
                            assert(self.refs@[k] == s0[k]);
                            lemma_ref_at(self.refs@, k, b, q);
                        } else {
                            lemma_ref_absent(s0, b, q);
                            assert forall|k: int| 0 <= k < self.refs@.len() implies !((#[trigger] self.refs@[k]).market.base@ == b && self.refs@[k].market.quote@ == q) by {
                                if k != i as int { assert(self.refs@[k] == s0[k]); }
                            }
                            lemma_ref_absent(self.refs@, b, q);
                        }
                    }
                }
            },
            None => {
                self.refs.push(entry);
                proof {
                    assert forall|ii: int, jj: int| 0 <= ii < self.refs@.len() && 0 <= jj < self.refs@.len() && ii != jj implies !(self.refs@[ii].market.base@ == self.refs@[jj].market.base@
                        && self.refs@[ii].market.quote@ == self.refs@[jj].market.quote@) by {
                        if ii < s0.len() { assert(self.refs@[ii] == s0[ii]); }
                        if jj < s0.len() { assert(self.refs@[jj] == s0[jj]); }
                    }
                    assert forall|k: int| 0 <= k < self.refs@.len() implies (#[trigger] self.refs@[k]).price@ > 0 by {
                        if k < s0.len() { assert(self.refs@[k] == s0[k]); }
                    }
                    lemma_ref_at(self.refs@, s0.len() as int, market.base@, market.quote@);
                    assert forall|b: Seq<char>, q: Seq<char>| !(b == market.base@ && q == market.quote@) implies ref_in(self.refs@, b, q) == ref_in(s0, b, q) by {
                        if exists|k: int| 0 <= k < s0.len() && s0[k].market.base@ == b && s0[k].market.quote@ == q {
                            let k = choose|k: int| 0 <= k < s0.len() && s0[k].market.base@ == b && s0[k].market.quote@ == q;
                            lemma_ref_at(s0, k, b, q);
                            assert(self.refs@[k] == s0[k]);
                            lemma_ref_at(self.refs@, k, b, q);
                        } else {
                            lemma_ref_absent(s0, b, q);
                            assert forall|k: int| 0 <= k < self.refs@.len() implies !((#[trigger] self.refs@[k]).market.base@ == b && self.refs@[k].market.quote@ == q) by {
                                if k < s0.len() { assert(self.refs@[k] == s0[k]); }
                            }
                            lemma_ref_absent(self.refs@, b, q);
                        }
                    }
                }
            },
        }
    }

    /// Rejects with `SuspiciousPrice` a non-positive price, or one outside
    /// `[reference / D, reference * D]` when the market has a reference.
    /// The market-buy sentinel and a market's first price always pass.
    pub fn check_price(&self, market: &MarketPair, price: Decimal) -> (r: Result<()>)
        requires
            self.wf(),
        ensures
            r is Ok <==> price_sane(price@, self.reference(market.base@, market.quote@), self.deviation() as int),
            r is Err ==> r matches Err(OpenmatchError::SuspiciousPrice { .. }),
    {
        if price.units <= 0 {
            return Err(OpenmatchError::SuspiciousPrice { reason: String::from_str("Price must be positive") });
        }
        if price.units == MAX_UNITS {
            return Ok(());
        }
        match self.find(market) {
            None => {
                proof { lemma_ref_absent(self.refs@, market.base@, market.quote@); }
                Ok(())
            },
            Some(i) => {
                proof { lemma_ref_at(self.refs@, i as int, market.base@, market.quote@); }
                let reference = self.refs[i].price.units as u128;
                let p = price.units as u128;
                let d = self.max_deviation as u128;
                let low_ok = match p.checked_mul(d) {
                    Some(x) => x >= reference,
                    None => true,
                };
                let high_ok = match reference.checked_mul(d) {
                    Some(x) => p <= x,
                    None => true,
                };
                if low_ok && high_ok {
                    Ok(())
                } else {
                    Err(OpenmatchError::SuspiciousPrice { reason: String::from_str("Price deviates too far from the reference") })
                }
            },
        }
    }

    /// The reference price of `market`, if one is set.
    pub fn reference_price(&self, market: &MarketPair) -> (r: Option<Decimal>)
        requires
            self.wf(),
        ensures
            r matches Some(p) ==> self.reference(market.base@, market.quote@) == Some(p@),
            r is None ==> self.reference(market.base@, market.quote@) is None,
    {
        match self.find(market) {
            None => {
                proof { lemma_ref_absent(self.refs@, market.base@, market.quote@); }
                None
            },
            Some(i) => {
                proof { lemma_ref_at(self.refs@, i as int, market.base@, market.quote@); }
                Some(self.refs[i].price)
            },
        }
    }
}

} // verus!
