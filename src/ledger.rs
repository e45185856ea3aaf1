//! The balance ledger: available and frozen funds per (user, asset), with
//! atomic deposit, withdraw, freeze, unfreeze and trade settlement.
use vstd::prelude::*;
use crate::balance::{zero_entry, BalanceEntry};
use crate::decimal::Decimal;
use crate::error::{OpenmatchError, Result};
use crate::ids::{MarketPair, UserId};
use crate::order::OrderSide;
use crate::supply::{add_amount, amount_of, amounts_nonneg, keys_unique};
use crate::trade::Trade;

verus! {

/// A ledger key: a user and an asset symbol.
pub type LedgerKey = (u128, Seq<char>);

struct Slot {
    user: UserId,
    asset: String,
    entry: BalanceEntry,
}

spec fn key_of(s: Slot) -> LedgerKey {
    (s.user.0, s.asset@)
}

/// What one entry contributes to the total of asset `a`.
spec fn contribution(s: Slot, a: Seq<char>) -> int {
    if s.asset@ == a {
        s.entry.available@ + s.entry.frozen@
    } else {
        0
    }
}

spec fn slots_total(s: Seq<Slot>, a: Seq<char>) -> int
    decreases s.len(),
{
    if s.len() == 0 {
        0
    } else {
        slots_total(s.drop_last(), a) + contribution(s.last(), a)
    }
}

proof fn lemma_total_push(s: Seq<Slot>, x: Slot, a: Seq<char>)
    ensures
        slots_total(s.push(x), a) == slots_total(s, a) + contribution(x, a),
{
    assert(s.push(x).drop_last() =~= s);
}

proof fn lemma_total_update(s: Seq<Slot>, i: int, x: Slot, a: Seq<char>)
    requires
        0 <= i < s.len(),
    ensures
        slots_total(s.update(i, x), a) == slots_total(s, a) - contribution(s[i], a) + contribution(x, a),
    decreases s.len(),
{
    let t = s.update(i, x);
    if i == s.len() - 1 {
        assert(t.drop_last() =~= s.drop_last());
    } else {
        lemma_total_update(s.drop_last(), i, x, a);
        assert(t.drop_last() =~= s.drop_last().update(i, x));
    }
}

/// The ledger. Entries are created on first reference; a missing entry
/// reads as zero.
pub struct BalanceManager {
    slots: Vec<Slot>,
    balances: Ghost<Map<LedgerKey, BalanceEntry>>,
}

impl BalanceManager {
    /// The entries that exist, by key.
    pub closed spec fn view(&self) -> Map<LedgerKey, BalanceEntry> {
        self.balances@
    }

    /// The balance at key `k` (zero when no entry exists).
    pub open spec fn balance_at(&self, k: LedgerKey) -> BalanceEntry {
        balance_in(self@, k)
    }

    /// Sum of `available + frozen` of asset `a` over all users.
    pub closed spec fn asset_total(&self, a: Seq<char>) -> int {
        slots_total(self.slots@, a)
    }

    /// Well-formedness: the entries match the view, keys are unique and
    /// every amount is non-negative.
    pub closed spec fn wf(&self) -> bool {
        &&& forall|i: int|
            0 <= i < self.slots@.len() ==> #[trigger] self.balances@.contains_key(key_of(self.slots@[i]))
                && self.balances@[key_of(self.slots@[i])] == self.slots@[i].entry
        &&& forall|k: LedgerKey|
            #[trigger] self.balances@.contains_key(k) ==> exists|i: int|
                0 <= i < self.slots@.len() && key_of(self.slots@[i]) == k
        &&& forall|i: int, j: int|
            0 <= i < self.slots@.len() && 0 <= j < self.slots@.len() && i != j ==> key_of(
                self.slots@[i],
            ) != key_of(self.slots@[j])
        &&& forall|i: int|
            0 <= i < self.slots@.len() ==> #[trigger] self.slots@[i].entry.available@ >= 0
                && self.slots@[i].entry.frozen@ >= 0
    }

    /// Every balance of a well-formed ledger is non-negative.
    pub proof fn lemma_nonnegative(&self, k: LedgerKey)
        requires
            self.wf(),
        ensures
            self.balance_at(k).available@ >= 0,
            self.balance_at(k).frozen@ >= 0,
    {
        if self@.contains_key(k) {
            let i = choose|i: int| 0 <= i < self.slots@.len() && key_of(self.slots@[i]) == k;
            assert(self.balances@.contains_key(key_of(self.slots@[i])));
        }
    }

    /// One entry's holding never exceeds its asset's total.
    pub proof fn lemma_entry_within_total(&self, k: LedgerKey)
        requires
            self.wf(),
        ensures
            self.balance_at(k).available@ + self.balance_at(k).frozen@ <= self.asset_total(k.1),
    {
        if self@.contains_key(k) {
            let i = choose|i: int| 0 <= i < self.slots@.len() && key_of(self.slots@[i]) == k;
            assert(self.balances@.contains_key(key_of(self.slots@[i])));
            lemma_slot_within_total(self.slots@, i, k.1);
        } else {
            lemma_slots_nonneg(self.slots@, k.1);
        }
    }

    pub fn new() -> (r: BalanceManager)
        ensures
            r.wf(),
            r@ == Map::<LedgerKey, BalanceEntry>::empty(),
            forall|a: Seq<char>| r.asset_total(a) == 0,
    {
        BalanceManager { slots: Vec::new(), balances: Ghost(Map::empty()) }
    }

    /// Position of the entry for `(user, asset)`, if it exists.
    fn find(&self, user: &UserId, asset: &String) -> (r: Option<usize>)
        requires
            self.wf(),
        ensures
            r matches Some(i) ==> i < self.slots@.len() && key_of(self.slots@[i as int]) == (
            user.0, asset@),
            r matches Some(i) ==> self@.contains_key((user.0, asset@)),
            r is None ==> !self@.contains_key((user.0, asset@)),
    {
        let mut i: usize = 0;
        while i < self.slots.len()
            invariant
                self.wf(),
                i <= self.slots@.len(),
                forall|j: int| 0 <= j < i ==> key_of(self.slots@[j]) != (user.0, asset@),
            decreases self.slots@.len() - i,
        {
            if self.slots[i].user.0 == user.0 && self.slots[i].asset == *asset {
                assert(self.balances@.contains_key(key_of(self.slots@[i as int])));
                return Some(i);
            }
            i = i + 1;
        }
        None
    }

    /// The balance of `user` in `asset`.
    fn lookup(&self, user: &UserId, asset: &String) -> (r: BalanceEntry)
        requires
            self.wf(),
        ensures
            r == self.balance_at((user.0, asset@)),
    {
        match self.find(user, asset) {
            Some(i) => {
                assert(self.balances@.contains_key(key_of(self.slots@[i as int])));
                self.slots[i].entry
            },
            None => BalanceEntry::new(),
        }
    }

    /// Sets the entry of `(user, asset)` to `e`, creating it if needed.
    #[verifier::rlimit(40)]
    fn store(&mut self, user: &UserId, asset: &String, e: BalanceEntry)
        requires
            old(self).wf(),
            e.available@ >= 0,
            e.frozen@ >= 0,
        ensures
            final(self).wf(),
            final(self)@ == old(self)@.insert((user.0, asset@), e),
            forall|a: Seq<char>|
                #[trigger] final(self).asset_total(a) == old(self).asset_total(a) - (if a == asset@ {
                    old(self).balance_at((user.0, asset@)).available@ + old(self).balance_at(
                        (user.0, asset@),
                    ).frozen@
                } else {
                    0
                }) + (if a == asset@ {
                    e.available@ + e.frozen@
                } else {
                    0
                }),
    {
        let k: Ghost<LedgerKey> = Ghost((user.0, asset@));
        let slot = Slot { user: *user, asset: asset.clone(), entry: e };
        match self.find(user, asset) {
            Some(i) => {
                proof {
                    assert(self.balances@.contains_key(key_of(self.slots@[i as int])));
                    assert forall|a: Seq<char>|
                        slots_total(self.slots@.update(i as int, slot), a) == slots_total(
                            self.slots@,
                            a,
                        ) - contribution(self.slots@[i as int], a) + contribution(slot, a) by {
                        lemma_total_update(self.slots@, i as int, slot, a);
                    }
                }
                let ghost old_slots = self.slots@;
                self.slots.set(i, slot);
                self.balances = Ghost(self.balances@.insert(k@, e));
                proof {
                    assert forall|kk: LedgerKey| #[trigger]
                        self.balances@.contains_key(kk) implies exists|j: int|
                        0 <= j < self.slots@.len() && key_of(self.slots@[j]) == kk by {
                        if kk != k@ {
                            let j = choose|j: int|
                                0 <= j < old_slots.len() && key_of(old_slots[j]) == kk;
                            assert(key_of(self.slots@[j]) == kk);
                        } else {
                            assert(key_of(self.slots@[i as int]) == kk);
                        }
                    }
assert forall|ii: int| #![trigger self.slots@[ii]] 0 <= ii < self.slots@.len() implies self.balances@.contains_key(key_of(self.slots@[ii]))
                            && self.balances@[key_of(self.slots@[ii])] == self.slots@[ii].entry
                            && self.slots@[ii].entry.available@ >= 0 && self.slots@[ii].entry.frozen@ >= 0 by {
                        if ii != i {
                            assert(self.slots@[ii] == old_slots[ii]);
                            assert(old(self).balances@.contains_key(key_of(old_slots[ii])));
                        }
                    }
                    assert(self.wf());
                }
            },
            None => {
                proof {
                    assert forall|a: Seq<char>|
                        slots_total(self.slots@.push(slot), a) == slots_total(self.slots@, a)
                            + contribution(slot, a) by {
                        lemma_total_push(self.slots@, slot, a);
                    }
                }
                let ghost old_slots = self.slots@;
                self.slots.push(slot);
                self.balances = Ghost(self.balances@.insert(k@, e));
                proof {
                    assert forall|j: int|
                        0 <= j < old_slots.len() implies key_of(#[trigger] self.slots@[j]) != k@ by {
                        assert(old(self).balances@.contains_key(key_of(old_slots[j])));
                    }
                    assert forall|kk: LedgerKey| #[trigger]
                        self.balances@.contains_key(kk) implies exists|j: int|
                        0 <= j < self.slots@.len() && key_of(self.slots@[j]) == kk by {
                        if kk != k@ {
                            let j = choose|j: int|
                                0 <= j < old_slots.len() && key_of(old_slots[j]) == kk;
                            assert(key_of(self.slots@[j]) == kk);
                        } else {
                            assert(key_of(self.slots@[old_slots.len() as int]) == kk);
                        }
                    }
assert forall|ii: int| #![trigger self.slots@[ii]] 0 <= ii < self.slots@.len() implies self.balances@.contains_key(key_of(self.slots@[ii]))
                            && self.balances@[key_of(self.slots@[ii])] == self.slots@[ii].entry
                            && self.slots@[ii].entry.available@ >= 0 && self.slots@[ii].entry.frozen@ >= 0 by {
                        if ii < old_slots.len() {
                            assert(self.slots@[ii] == old_slots[ii]);
                            assert(old(self).balances@.contains_key(key_of(old_slots[ii])));
                        }
                    }
                    assert(self.wf());
                }
            },
        }
    }

    /// The balance of `user_id` in `asset`; the same as `get`.
    pub fn balance(&self, user_id: &UserId, asset: &str) -> (r: BalanceEntry)
        requires
            self.wf(),
        ensures
            r == self.balance_at((user_id.0, asset@)),
    {
        self.get(user_id, asset)
    }

    /// The balance of `user_id` in `asset` (zero when never referenced).
    pub fn get(&self, user_id: &UserId, asset: &str) -> (r: BalanceEntry)
        requires
            self.wf(),
        ensures
            r == self.balance_at((user_id.0, asset@)),
    {
        let a = String::from_str(asset);
        self.lookup(user_id, &a)
    }

    /// Moves the balance of `(user, asset)` by `da` available and `df`
    /// frozen units.
    fn shift(&mut self, user: &UserId, asset: &String, da: i128, df: i128)
        requires
            old(self).wf(),
            0 <= old(self).balance_at((user.0, asset@)).available@ + da <= i128::MAX,
            0 <= old(self).balance_at((user.0, asset@)).frozen@ + df <= i128::MAX,
        ensures
            final(self).wf(),
            final(self)@ == old(self)@.insert(
                (user.0, asset@),
                entry_of(
                    old(self).balance_at((user.0, asset@)).available@ + da,
                    old(self).balance_at((user.0, asset@)).frozen@ + df,
                ),
            ),
            forall|a: Seq<char>|
                #[trigger] final(self).asset_total(a) == old(self).asset_total(a) + (if a == asset@ {
                    da + df
                } else {
                    0
                }),
    {
        let cur = self.lookup(user, asset);
        let e = BalanceEntry {
            available: Decimal::from_units(cur.available.units + da),
            frozen: Decimal::from_units(cur.frozen.units + df),
        };
        self.store(user, asset, e);
    }

    /// Adds `amount` to the available balance.
    pub fn deposit(&mut self, user_id: &UserId, asset: &str, amount: Decimal) -> (r: Result<()>)
        requires
            old(self).wf(),
        ensures
            final(self).wf(),
            amount@ <= 0 ==> r matches Err(OpenmatchError::InvalidOrder { .. }),
            r is Ok <==> amount@ > 0 && old(self).balance_at((user_id.0, asset@)).available@
                + amount@ <= i128::MAX,
            r is Ok ==> final(self)@ == moved(old(self)@, (user_id.0, asset@), amount@, 0),
            r is Ok ==> forall|a: Seq<char>|
                #[trigger] final(self).asset_total(a) == old(self).asset_total(a) + (if a
                    == asset@ {
                    amount@
                } else {
                    0
                }),
            r is Err ==> final(self)@ == old(self)@ && forall|a: Seq<char>|
                #[trigger] final(self).asset_total(a) == old(self).asset_total(a),
    {
        if amount.units <= 0 {
            return Err(OpenmatchError::InvalidOrder { reason: String::from_str("Deposit amount must be positive") });
        }
        let a = String::from_str(asset);
        let cur = self.lookup(user_id, &a);
        proof { self.lemma_nonnegative((user_id.0, asset@)); }
        if cur.available.units > i128::MAX - amount.units {
            return Err(OpenmatchError::InvalidOrder { reason: String::from_str("Deposit overflows the balance") });
        }
        self.shift(user_id, &a, amount.units, 0);
        Ok(())
    }

    /// Takes `amount` out of the available balance.
    pub fn withdraw(&mut self, user_id: &UserId, asset: &str, amount: Decimal) -> (r: Result<()>)
        requires
            old(self).wf(),
        ensures
            final(self).wf(),
            amount@ <= 0 ==> r matches Err(OpenmatchError::InvalidOrder { .. }),
            amount@ > 0 && old(self).balance_at((user_id.0, asset@)).available@ < amount@ ==> r
                == Err::<(), OpenmatchError>(
                OpenmatchError::InsufficientBalance {
                    needed: amount,
                    available: old(self).balance_at((user_id.0, asset@)).available,
                },
            ),
            r is Ok <==> amount@ > 0 && old(self).balance_at((user_id.0, asset@)).available@
                >= amount@,
            r is Ok ==> final(self)@ == moved(old(self)@, (user_id.0, asset@), -amount@, 0),
            r is Ok ==> forall|a: Seq<char>|
                #[trigger] final(self).asset_total(a) == old(self).asset_total(a) - (if a
                    == asset@ {
                    amount@
                } else {
                    0
                }),
            r is Err ==> final(self)@ == old(self)@ && forall|a: Seq<char>|
                #[trigger] final(self).asset_total(a) == old(self).asset_total(a),
    {
        if amount.units <= 0 {
            return Err(OpenmatchError::InvalidOrder { reason: String::from_str("Withdraw amount must be positive") });
        }
        let a = String::from_str(asset);
        let cur = self.lookup(user_id, &a);
        proof { self.lemma_nonnegative((user_id.0, asset@)); }
        if cur.available.units < amount.units {
            return Err(OpenmatchError::InsufficientBalance { needed: amount, available: cur.available });
        }
        self.shift(user_id, &a, -amount.units, 0);
        Ok(())
    }

    /// Moves `amount` from available to frozen.
    pub fn freeze(&mut self, user_id: &UserId, asset: &str, amount: Decimal) -> (r: Result<()>)
        requires
            old(self).wf(),
        ensures
            final(self).wf(),
            amount@ <= 0 ==> r matches Err(OpenmatchError::InvalidOrder { .. }),
            amount@ > 0 && old(self).balance_at((user_id.0, asset@)).available@ < amount@ ==> r
                == Err::<(), OpenmatchError>(
                OpenmatchError::InsufficientBalance {
                    needed: amount,
                    available: old(self).balance_at((user_id.0, asset@)).available,
                },
            ),
            r is Ok <==> amount@ > 0 && old(self).balance_at((user_id.0, asset@)).available@
                >= amount@ && old(self).balance_at((user_id.0, asset@)).frozen@ + amount@
                <= i128::MAX,
            amount@ > 0 && old(self).balance_at((user_id.0, asset@)).available@ >= amount@
                && old(self).balance_at((user_id.0, asset@)).frozen@ + amount@ > i128::MAX ==> r
                matches Err(OpenmatchError::InvalidOrder { .. }),
            r is Ok ==> final(self)@ == moved(old(self)@, (user_id.0, asset@), -amount@, amount@),
            forall|a: Seq<char>| #[trigger] final(self).asset_total(a) == old(self).asset_total(a),
            r is Err ==> final(self)@ == old(self)@,
    {
        if amount.units <= 0 {
            return Err(OpenmatchError::InvalidOrder { reason: String::from_str("Freeze amount must be positive") });
        }
        let a = String::from_str(asset);
        let cur = self.lookup(user_id, &a);
        proof { self.lemma_nonnegative((user_id.0, asset@)); }
        if cur.available.units < amount.units {
            return Err(OpenmatchError::InsufficientBalance { needed: amount, available: cur.available });
        }
        if cur.frozen.units > i128::MAX - amount.units {
            return Err(OpenmatchError::InvalidOrder { reason: String::from_str("Freeze overflows the frozen balance") });
        }
        self.shift(user_id, &a, -amount.units, amount.units);
        Ok(())
    }

    /// Moves `amount` from frozen back to available.
    pub fn unfreeze(&mut self, user_id: &UserId, asset: &str, amount: Decimal) -> (r: Result<()>)
        requires
            old(self).wf(),
        ensures
            final(self).wf(),
            amount@ <= 0 ==> r matches Err(OpenmatchError::InvalidOrder { .. }),
            amount@ > 0 && old(self).balance_at((user_id.0, asset@)).frozen@ < amount@ ==> r
                matches Err(OpenmatchError::InsufficientFrozen),
            r is Ok <==> amount@ > 0 && old(self).balance_at((user_id.0, asset@)).frozen@
                >= amount@ && old(self).balance_at((user_id.0, asset@)).available@ + amount@
                <= i128::MAX,
            r is Ok ==> final(self)@ == moved(old(self)@, (user_id.0, asset@), amount@, -amount@),
            forall|a: Seq<char>| #[trigger] final(self).asset_total(a) == old(self).asset_total(a),
            r is Err ==> final(self)@ == old(self)@,
    {
        if amount.units <= 0 {
            return Err(OpenmatchError::InvalidOrder { reason: String::from_str("Unfreeze amount must be positive") });
        }
        let a = String::from_str(asset);
        let cur = self.lookup(user_id, &a);
        proof { self.lemma_nonnegative((user_id.0, asset@)); }
        if cur.frozen.units < amount.units {
            return Err(OpenmatchError::InsufficientFrozen);
        }
        if cur.available.units > i128::MAX - amount.units {
            return Err(OpenmatchError::InvalidOrder { reason: String::from_str("Unfreeze overflows the available balance") });
        }
        self.shift(user_id, &a, amount.units, -amount.units);
        Ok(())
    }

    /// Removes `amount` from the frozen balance (funds leaving the ledger
    /// at settlement).
    pub fn consume_frozen(&mut self, user_id: &UserId, asset: &str, amount: Decimal) -> (r: Result<()>)
        requires
            old(self).wf(),
        ensures
            final(self).wf(),
            amount@ <= 0 ==> r matches Err(OpenmatchError::InvalidOrder { .. }),
            amount@ > 0 && old(self).balance_at((user_id.0, asset@)).frozen@ < amount@ ==> r
                matches Err(OpenmatchError::InsufficientFrozen),
            r is Ok <==> amount@ > 0 && old(self).balance_at((user_id.0, asset@)).frozen@ >= amount@,
            r is Ok ==> final(self)@ == moved(old(self)@, (user_id.0, asset@), 0, -amount@),
            r is Err ==> final(self)@ == old(self)@,
    {
        if amount.units <= 0 {
            return Err(OpenmatchError::InvalidOrder { reason: String::from_str("Amount must be positive") });
        }
        let a = String::from_str(asset);
        let cur = self.lookup(user_id, &a);
        proof { self.lemma_nonnegative((user_id.0, asset@)); }
        if cur.frozen.units < amount.units {
            return Err(OpenmatchError::InsufficientFrozen);
        }
        self.shift(user_id, &a, 0, -amount.units);
        Ok(())
    }

    /// Adds `amount` to the available balance (funds arriving at
    /// settlement).
    pub fn credit(&mut self, user_id: &UserId, asset: &str, amount: Decimal) -> (r: Result<()>)
        requires
            old(self).wf(),
        ensures
            final(self).wf(),
            r is Ok <==> amount@ > 0 && old(self).balance_at((user_id.0, asset@)).available@ + amount@ <= i128::MAX,
            r is Ok ==> final(self)@ == moved(old(self)@, (user_id.0, asset@), amount@, 0),
            r is Err ==> final(self)@ == old(self)@,
    {
        self.deposit(user_id, asset, amount)
    }

    /// Total held of `asset` over all users, when representable.
    pub fn total_supply(&self, asset: &str) -> (r: Option<Decimal>)
        requires
            self.wf(),
        ensures
            r matches Some(t) ==> t@ == self.asset_total(asset@),
            r is None ==> self.asset_total(asset@) > i128::MAX,
    {
        let a = String::from_str(asset);
        let mut acc: i128 = 0;
        let mut i: usize = 0;
        while i < self.slots.len()
            invariant
                self.wf(),
                i <= self.slots@.len(),
                acc == slots_total(self.slots@.take(i as int), asset@),
                a@ == asset@,
            decreases self.slots@.len() - i,
        {
            let ghost t = self.slots@.take(i as int + 1);
            proof {
                assert(t.drop_last() =~= self.slots@.take(i as int));
                assert(t.last() == self.slots@[i as int]);
                lemma_slots_prefix(self.slots@, i as int + 1, asset@);
                lemma_slots_prefix(self.slots@, i as int, asset@);
                assert(self.balances@.contains_key(key_of(self.slots@[i as int])));
                self.lemma_nonnegative(key_of(self.slots@[i as int]));
                assert(self.slots@[i as int].entry.available@ >= 0 && self.slots@[i as int].entry.frozen@ >= 0);
                assert(slots_total(t, asset@) == acc + contribution(self.slots@[i as int], asset@));
            }
            if self.slots[i].asset == a {
                let e = self.slots[i].entry;
                if acc > i128::MAX - e.available.units - e.frozen.units {
                    proof {
                        lemma_slots_prefix(self.slots@, i as int + 1, asset@);
                        assert(contribution(self.slots@[i as int], asset@) == e.available@ + e.frozen@);
                        assert(slots_total(t, asset@) > i128::MAX);
                    }
                    return None;
                }
                acc = acc + e.available.units + e.frozen.units;
                assert(contribution(self.slots@[i as int], asset@) == e.available@ + e.frozen@);
            } else {
                assert(contribution(self.slots@[i as int], asset@) == 0);
            }
            assert(acc == slots_total(t, asset@));
            i = i + 1;
        }
        assert(self.slots@.take(i as int) =~= self.slots@);
        Some(Decimal::from_units(acc))
    }

    /// Applies a trade: the buyer gives `quote_amount` of frozen quote and
    /// receives `quantity` of available base; the seller gives `quantity`
    /// of frozen base and receives `quote_amount` of available quote.
    /// Taker and maker are buyer and seller when the taker buys, the other
    /// way round otherwise. All four changes happen, or none.
    pub fn settle_trade(&mut self, trade: &Trade, market: &MarketPair) -> (r: Result<()>)
        requires
            old(self).wf(),
        ensures
            final(self).wf(),
            r is Ok <==> settle_allowed(*old(self), *trade, *market),
            trade.quantity@ < 0 || trade.quote_amount@ < 0 ==> r matches Err(OpenmatchError::InvalidOrder { .. }),
            trade.quantity@ >= 0 && trade.quote_amount@ >= 0 ==> ((r matches Err(
                OpenmatchError::InsufficientFrozen,
            )) <==> !frozen_covers(*old(self), *trade, *market)),
            trade.quantity@ >= 0 && trade.quote_amount@ >= 0
                && frozen_covers(*old(self), *trade, *market) && !settle_allowed(
                *old(self),
                *trade,
                *market,
            ) ==> r matches Err(OpenmatchError::SettlementFailed { .. }),
            r is Ok ==> transfers_applied(*old(self), *final(self), *trade, *market),
            forall|a: Seq<char>| #[trigger] final(self).asset_total(a) == old(self).asset_total(a),
            r is Err ==> final(self)@ == old(self)@,
    {
        let (buyer, seller) = match trade.taker_side {
            OrderSide::Buy => (trade.taker_user_id, trade.maker_user_id),
            OrderSide::Sell => (trade.maker_user_id, trade.taker_user_id),
        };
        let base = &market.base;
        let quote = &market.quote;
        let same = buyer.0 == seller.0 && *base == *quote;
        let qty = trade.quantity.units;
        let amt = trade.quote_amount.units;
        if qty < 0 || amt < 0 {
            return Err(OpenmatchError::InvalidOrder { reason: String::from_str("Trade amounts must be non-negative") });
        }
        let buyer_quote = self.lookup(&buyer, quote);
        let seller_base = self.lookup(&seller, base);
        if buyer_quote.frozen.units < amt || seller_base.frozen.units < qty {
            return Err(OpenmatchError::InsufficientFrozen);
        }
        if same && buyer_quote.frozen.units - amt < qty {
            return Err(OpenmatchError::InsufficientFrozen);
        }
        let buyer_base = self.lookup(&buyer, base);
        let seller_quote = self.lookup(&seller, quote);
        if buyer_base.available.units > i128::MAX - qty || seller_quote.available.units
            > i128::MAX - amt {
            return Err(OpenmatchError::SettlementFailed { reason: String::from_str("Settlement overflows a balance") });
        }
        if same && buyer_base.available.units + qty > i128::MAX - amt {
            return Err(OpenmatchError::SettlementFailed { reason: String::from_str("Settlement overflows a balance") });
        }
        proof {
            self.lemma_nonnegative((buyer.0, quote@));
            self.lemma_nonnegative((buyer.0, base@));
            self.lemma_nonnegative((seller.0, quote@));
            self.lemma_nonnegative((seller.0, base@));
        }
        let ghost s0 = *self;
        self.shift(&buyer, quote, 0, -amt);
        let ghost s1 = *self;
        assert(s1.balance_at((buyer.0, base@)) == if (buyer.0, base@) == (buyer.0, quote@) { entry_of(s0.balance_at((buyer.0, base@)).available@, s0.balance_at((buyer.0, base@)).frozen@ - amt) } else { s0.balance_at((buyer.0, base@)) });
        self.shift(&buyer, base, qty, 0);
        let ghost s2 = *self;
        assert(s2.balance_at((seller.0, base@)) == if (seller.0, base@) == (buyer.0, base@) { entry_of(s1.balance_at((seller.0, base@)).available@ + qty, s1.balance_at((seller.0, base@)).frozen@) } else { s1.balance_at((seller.0, base@)) });
        assert(s1.balance_at((seller.0, base@)) == if (seller.0, base@) == (buyer.0, quote@) { entry_of(s0.balance_at((seller.0, base@)).available@, s0.balance_at((seller.0, base@)).frozen@ - amt) } else { s0.balance_at((seller.0, base@)) });
        self.shift(&seller, base, 0, -qty);
        let ghost s3 = *self;
        assert(s3.balance_at((seller.0, quote@)) == if (seller.0, quote@) == (seller.0, base@) { entry_of(s2.balance_at((seller.0, quote@)).available@, s2.balance_at((seller.0, quote@)).frozen@ - qty) } else { s2.balance_at((seller.0, quote@)) });
        assert(s2.balance_at((seller.0, quote@)) == if (seller.0, quote@) == (buyer.0, base@) { entry_of(s1.balance_at((seller.0, quote@)).available@ + qty, s1.balance_at((seller.0, quote@)).frozen@) } else { s1.balance_at((seller.0, quote@)) });
        assert(s1.balance_at((seller.0, quote@)) == if (seller.0, quote@) == (buyer.0, quote@) { entry_of(s0.balance_at((seller.0, quote@)).available@, s0.balance_at((seller.0, quote@)).frozen@ - amt) } else { s0.balance_at((seller.0, quote@)) });
        self.shift(&seller, quote, amt, 0);
        proof {
            assert forall|k: LedgerKey| #![trigger self.balance_at(k)]
                self.balance_at(k).available@ == s0.balance_at(k).available@ + (if k == (
                buyer.0, base@) {
                    qty as int
                } else {
                    0
                }) + (if k == (seller.0, quote@) {
                    amt as int
                } else {
                    0
                }) && self.balance_at(k).frozen@ == s0.balance_at(k).frozen@ - (if k == (
                buyer.0, quote@) {
                    amt as int
                } else {
                    0
                }) - (if k == (seller.0, base@) {
                    qty as int
                } else {
                    0
                }) by {
                assert(s1.balance_at(k) == if k == (buyer.0, quote@) { entry_of(s0.balance_at(k).available@, s0.balance_at(k).frozen@ - amt) } else { s0.balance_at(k) });
                assert(s2.balance_at(k) == if k == (buyer.0, base@) { entry_of(s1.balance_at(k).available@ + qty, s1.balance_at(k).frozen@) } else { s1.balance_at(k) });
                assert(s3.balance_at(k) == if k == (seller.0, base@) { entry_of(s2.balance_at(k).available@, s2.balance_at(k).frozen@ - qty) } else { s2.balance_at(k) });
            }
        }
        Ok(())
    }

    /// The assets `user_id` holds an entry in, with their balances.
    pub fn user_balances(&self, user_id: &UserId) -> (r: Vec<(String, BalanceEntry)>)
        requires
            self.wf(),
        ensures
            forall|i: int|
                0 <= i < r@.len() ==> self@.contains_key((user_id.0, #[trigger] r@[i].0@))
                    && self@[(user_id.0, r@[i].0@)] == r@[i].1,
            forall|a: Seq<char>|
                self@.contains_key((user_id.0, a)) ==> exists|i: int|
                    0 <= i < r@.len() && #[trigger] r@[i].0@ == a,
    {
        let mut out: Vec<(String, BalanceEntry)> = Vec::new();
        let mut i: usize = 0;
        while i < self.slots.len()
            invariant
                self.wf(),
                i <= self.slots@.len(),
                forall|j: int|
                    0 <= j < out@.len() ==> self@.contains_key((user_id.0, #[trigger] out@[j].0@))
                        && self@[(user_id.0, out@[j].0@)] == out@[j].1,
                forall|j: int|
                    0 <= j < i && self.slots@[j].user.0 == user_id.0 ==> exists|m: int|
                        0 <= m < out@.len() && #[trigger] out@[m].0@ == self.slots@[j].asset@,
            decreases self.slots@.len() - i,
        {
            let ghost old_out = out@;
            if self.slots[i].user.0 == user_id.0 {
                assert(self.balances@.contains_key(key_of(self.slots@[i as int])));
                out.push((self.slots[i].asset.clone(), self.slots[i].entry));
                assert(out@[out@.len() - 1].0@ == self.slots@[i as int].asset@);
            }
            proof {
                assert forall|j: int|
                    0 <= j < i + 1 && self.slots@[j].user.0 == user_id.0 implies exists|m: int|
                        0 <= m < out@.len() && #[trigger] out@[m].0@ == self.slots@[j].asset@ by {
                    if j < i {
                        let m = choose|m: int|
                            0 <= m < old_out.len() && #[trigger] old_out[m].0@ == self.slots@[j].asset@;
                        assert(out@[m] == old_out[m]);
                    } else {
                        assert(out@[out@.len() - 1].0@ == self.slots@[i as int].asset@);
                    }
                }
            }
            i = i + 1;
        }
        proof {
            assert forall|a: Seq<char>|
                self@.contains_key((user_id.0, a)) implies exists|m: int|
                    0 <= m < out@.len() && #[trigger] out@[m].0@ == a by {
                let j = choose|j: int|
                    0 <= j < self.slots@.len() && key_of(self.slots@[j]) == (user_id.0, a);
                assert(self.slots@[j].user.0 == user_id.0);
            }
        }
        out
    }

    /// Every asset's total held over all users, one entry per asset that
    /// has an entry.
    pub fn asset_totals(&self) -> (r: Vec<(String, Decimal)>)
        requires
            self.wf(),
            forall|a: Seq<char>| #[trigger] self.asset_total(a) <= i128::MAX,
        ensures
            keys_unique(r@),
            amounts_nonneg(r@),
            forall|a: Seq<char>| #[trigger] amount_of(r@, a) == self.asset_total(a),
    {
        let mut out: Vec<(String, Decimal)> = Vec::new();
        let mut i: usize = 0;
        while i < self.slots.len()
            invariant
                self.wf(),
                forall|a: Seq<char>| #[trigger] self.asset_total(a) <= i128::MAX,
                i <= self.slots@.len(),
                keys_unique(out@),
                amounts_nonneg(out@),
                forall|a: Seq<char>| #[trigger] amount_of(out@, a) == slots_total(self.slots@.take(i as int), a),
            decreases self.slots@.len() - i,
        {
            let ghost t = self.slots@.take(i as int + 1);
            proof {
                assert(t.drop_last() =~= self.slots@.take(i as int));
                assert(t.last() == self.slots@[i as int]);
                lemma_slots_prefix(self.slots@, i as int + 1, self.slots@[i as int].asset@);
                lemma_slots_prefix(self.slots@, i as int, self.slots@[i as int].asset@);
                let a = self.slots@[i as int].asset@;
                assert(slots_total(t, a) == slots_total(self.slots@.take(i as int), a) + contribution(self.slots@[i as int], a));
                assert(contribution(self.slots@[i as int], a) == self.slots@[i as int].entry.available@ + self.slots@[i as int].entry.frozen@);
                assert(slots_total(self.slots@, a) == self.asset_total(a));
            }
            let e = self.slots[i].entry;
            let held = Decimal::from_units(e.available.units + e.frozen.units);
            add_amount(&mut out, &self.slots[i].asset, held);
            proof {
                assert forall|a: Seq<char>| #[trigger] amount_of(out@, a) == slots_total(t, a) by {}
            }
            i = i + 1;
        }
        assert(self.slots@.take(i as int) =~= self.slots@);
        out
    }

    /// Number of entries in the ledger.
    pub closed spec fn entry_total(&self) -> nat {
        self.slots@.len()
    }

    /// Number of entries in the ledger.
    pub fn entry_count(&self) -> (r: usize)
        ensures
            r == self.entry_total(),
    {
        self.slots.len()
    }
}

/// The buying user of a trade.
pub open spec fn buyer_of(t: Trade) -> UserId {
    match t.taker_side {
        OrderSide::Buy => t.taker_user_id,
        OrderSide::Sell => t.maker_user_id,
    }
}

/// The selling user of a trade.
pub open spec fn seller_of(t: Trade) -> UserId {
    match t.taker_side {
        OrderSide::Buy => t.maker_user_id,
        OrderSide::Sell => t.taker_user_id,
    }
}

/// The buyer's frozen quote covers the quote amount and the seller's frozen
/// base covers the quantity; when both are one balance (one user on a
/// market whose base is its quote), it covers their sum.
pub open spec fn frozen_covers(l: BalanceManager, t: Trade, m: MarketPair) -> bool {
    &&& l.balance_at((buyer_of(t).0, m.quote@)).frozen@ >= t.quote_amount@
    &&& l.balance_at((seller_of(t).0, m.base@)).frozen@ >= t.quantity@
    &&& (buyer_of(t).0, m.quote@) == (seller_of(t).0, m.base@) ==> l.balance_at(
        (buyer_of(t).0, m.quote@),
    ).frozen@ >= t.quote_amount@ + t.quantity@
}

/// `after` is `before` with the trade's four transfers applied: the buyer's
/// frozen quote falls by the quote amount and its available base rises by
/// the quantity; the seller's frozen base falls by the quantity and its
/// available quote rises by the quote amount. Every other balance is
/// unchanged.
pub open spec fn transfers_applied(before: BalanceManager, after: BalanceManager, t: Trade, m: MarketPair) -> bool {
    forall|k: LedgerKey|
        #![trigger after.balance_at(k)]
        after.balance_at(k).available@ == before.balance_at(k).available@ + (if k == (
        buyer_of(t).0, m.base@) {
            t.quantity@
        } else {
            0
        }) + (if k == (seller_of(t).0, m.quote@) {
            t.quote_amount@
        } else {
            0
        }) && after.balance_at(k).frozen@ == before.balance_at(k).frozen@ - (if k == (
        buyer_of(t).0, m.quote@) {
            t.quote_amount@
        } else {
            0
        }) - (if k == (seller_of(t).0, m.base@) {
            t.quantity@
        } else {
            0
        })
}

/// When settling `t` in `m` succeeds: the amounts are non-negative, the
/// frozen funds cover them, and no credited balance leaves the
/// representable range.
pub open spec fn settle_allowed(l: BalanceManager, t: Trade, m: MarketPair) -> bool {
    &&& t.quantity@ >= 0
    &&& t.quote_amount@ >= 0
    &&& frozen_covers(l, t, m)
    &&& l.balance_at((buyer_of(t).0, m.base@)).available@ + t.quantity@ <= i128::MAX
    &&& l.balance_at((seller_of(t).0, m.quote@)).available@ + t.quote_amount@ <= i128::MAX
    &&& (buyer_of(t).0, m.base@) == (seller_of(t).0, m.quote@) ==> l.balance_at(
        (buyer_of(t).0, m.base@),
    ).available@ + t.quantity@ + t.quote_amount@ <= i128::MAX
}


proof fn lemma_slots_prefix(s: Seq<Slot>, i: int, a: Seq<char>)
    requires
        0 <= i <= s.len(),
        forall|j: int| 0 <= j < s.len() ==> (#[trigger] s[j]).entry.available@ >= 0 && s[j].entry.frozen@ >= 0,
    ensures
        0 <= slots_total(s.take(i), a) <= slots_total(s, a),
    decreases s.len() - i,
{
    if i < s.len() {
        lemma_slots_prefix(s, i + 1, a);
        assert(s.take(i + 1).drop_last() =~= s.take(i));
        assert(s.take(i + 1).last() == s[i]);
        assert(slots_total(s.take(i + 1), a) == slots_total(s.take(i), a) + contribution(s[i], a));
        assert(s[i].entry.available@ >= 0 && s[i].entry.frozen@ >= 0);
        assert forall|j: int| 0 <= j < s.take(i).len() implies (#[trigger] s.take(i)[j]).entry.available@ >= 0 && s.take(i)[j].entry.frozen@ >= 0 by {
            assert(s.take(i)[j] == s[j]);
        }
        lemma_slots_nonneg(s.take(i), a);
    } else {
        assert(s.take(i) =~= s);
        lemma_slots_nonneg(s, a);
    }
}

proof fn lemma_slot_within_total(s: Seq<Slot>, i: int, a: Seq<char>)
    requires
        0 <= i < s.len(),
        s[i].asset@ == a,
        forall|j: int| 0 <= j < s.len() ==> (#[trigger] s[j]).entry.available@ >= 0 && s[j].entry.frozen@ >= 0,
    ensures
        s[i].entry.available@ + s[i].entry.frozen@ <= slots_total(s, a),
    decreases s.len(),
{
    assert(s.last() == s[s.len() - 1]);
    assert forall|j: int| 0 <= j < s.drop_last().len() implies (#[trigger] s.drop_last()[j]).entry.available@ >= 0 && s.drop_last()[j].entry.frozen@ >= 0 by {
        assert(s.drop_last()[j] == s[j]);
    }
    if i == s.len() - 1 {
        lemma_slots_nonneg(s.drop_last(), a);
    } else {
        assert(s.drop_last()[i] == s[i]);
        lemma_slot_within_total(s.drop_last(), i, a);
    }
}

proof fn lemma_slots_nonneg(s: Seq<Slot>, a: Seq<char>)
    requires
        forall|j: int| 0 <= j < s.len() ==> (#[trigger] s[j]).entry.available@ >= 0 && s[j].entry.frozen@ >= 0,
    ensures
        slots_total(s, a) >= 0,
    decreases s.len(),
{
    if s.len() > 0 {
        assert(s.last() == s[s.len() - 1]);
        lemma_slots_nonneg(s.drop_last(), a);
    }
}

/// The balance at key `k` of a ledger view (zero when absent).
pub open spec fn balance_in(m: Map<LedgerKey, BalanceEntry>, k: LedgerKey) -> BalanceEntry {
    if m.contains_key(k) {
        m[k]
    } else {
        zero_entry()
    }
}

/// The view after moving the balance at `k` by `da` available and `df`
/// frozen units.
pub open spec fn moved(m: Map<LedgerKey, BalanceEntry>, k: LedgerKey, da: int, df: int) -> Map<LedgerKey, BalanceEntry> {
    m.insert(k, entry_of(balance_in(m, k).available@ + da, balance_in(m, k).frozen@ + df))
}

/// Freezing an amount and then unfreezing it restores the balance.
pub proof fn lemma_freeze_unfreeze_restores(m: Map<LedgerKey, BalanceEntry>, k: LedgerKey, x: int)
    requires
        x >= 0,
        i128::MIN <= balance_in(m, k).available@ - x,
        balance_in(m, k).frozen@ + x <= i128::MAX,
    ensures
        balance_in(moved(moved(m, k, -x, x), k, x, -x), k) == balance_in(m, k),
        forall|j: LedgerKey| j != k ==> balance_in(moved(moved(m, k, -x, x), k, x, -x), j) == balance_in(m, j),
{
    let b = balance_in(m, k);
    let m1 = moved(m, k, -x, x);
    assert(balance_in(m1, k) == entry_of(b.available@ - x, b.frozen@ + x));
    assert(balance_in(m1, k).available@ == b.available@ - x);
    assert(balance_in(m1, k).frozen@ == b.frozen@ + x);
    assert(entry_of(b.available@, b.frozen@) == b);
}

/// Depositing an amount and then withdrawing it restores the balance.
pub proof fn lemma_deposit_withdraw_restores(m: Map<LedgerKey, BalanceEntry>, k: LedgerKey, x: int)
    requires
        x >= 0,
        balance_in(m, k).available@ + x <= i128::MAX,
    ensures
        balance_in(moved(moved(m, k, x, 0), k, -x, 0), k) == balance_in(m, k),
        forall|j: LedgerKey| j != k ==> balance_in(moved(moved(m, k, x, 0), k, -x, 0), j) == balance_in(m, j),
{
    let b = balance_in(m, k);
    let m1 = moved(m, k, x, 0);
    assert(balance_in(m1, k).available@ == b.available@ + x);
    assert(balance_in(m1, k).frozen@ == b.frozen@);
    assert(entry_of(b.available@, b.frozen@) == b);
}

/// The entry with `available` and `frozen` given in units.
pub open spec fn entry_of(available: int, frozen: int) -> BalanceEntry {
    BalanceEntry { available: Decimal { units: available as i128 }, frozen: Decimal { units: frozen as i128 } }
}

} // verus!
