//! The fungible side of the ledger: a map from account to balance together
//! with the running total supply. The central invariant is that the total
//! supply always equals the sum of all balance entries; mint and burn adjust
//! both together, and internal transfers never touch the total.

use vstd::prelude::*;

use crate::errors::LedgerError;
use crate::guard::checked_add;

verus! {

/// The sum of the amounts of all entries.
pub open spec fn sum_of(s: Seq<(u64, u64)>) -> int
    decreases s.len(),
{
    if s.len() == 0 {
        0
    } else {
        sum_of(s.drop_last()) + s.last().1
    }
}

/// The balance recorded for `a`; an absent account has balance zero.
pub open spec fn balance_in(s: Seq<(u64, u64)>, a: u64) -> u64
    decreases s.len(),
{
    if s.len() == 0 {
        0
    } else if s.last().0 == a {
        s.last().1
    } else {
        balance_in(s.drop_last(), a)
    }
}

/// No two entries share an account.
pub open spec fn accounts_distinct(s: Seq<(u64, u64)>) -> bool {
    forall|i: int, j: int| 0 <= i < j < s.len() ==> s[i].0 != s[j].0
}

proof fn lemma_sum_nonneg(s: Seq<(u64, u64)>)
    ensures
        sum_of(s) >= 0,
    decreases s.len(),
{
    if s.len() > 0 {
        lemma_sum_nonneg(s.drop_last());
    }
}

proof fn lemma_balance_le_sum(s: Seq<(u64, u64)>, a: u64)
    ensures
        balance_in(s, a) <= sum_of(s),
    decreases s.len(),
{
    if s.len() > 0 {
        lemma_balance_le_sum(s.drop_last(), a);
        lemma_sum_nonneg(s.drop_last());
    }
}

proof fn lemma_pair_le_sum(s: Seq<(u64, u64)>, a: u64, b: u64)
    requires
        a != b,
    ensures
        balance_in(s, a) + balance_in(s, b) <= sum_of(s),
    decreases s.len(),
{
    if s.len() > 0 {
        lemma_pair_le_sum(s.drop_last(), a, b);
        if s.last().0 == a {
            lemma_balance_le_sum(s.drop_last(), b);
        } else if s.last().0 == b {
            lemma_balance_le_sum(s.drop_last(), a);
        }
    }
}

proof fn lemma_balance_at_index(s: Seq<(u64, u64)>, i: int)
    requires
        accounts_distinct(s),
        0 <= i < s.len(),
    ensures
        balance_in(s, s[i].0) == s[i].1,
    decreases s.len(),
{
    if i < s.len() - 1 {
        assert(accounts_distinct(s.drop_last()));
        assert(s.drop_last()[i] == s[i]);
        lemma_balance_at_index(s.drop_last(), i);
    }
}

proof fn lemma_balance_absent(s: Seq<(u64, u64)>, a: u64)
    requires
        forall|j: int| 0 <= j < s.len() ==> s[j].0 != a,
    ensures
        balance_in(s, a) == 0,
    decreases s.len(),
{
    if s.len() > 0 {
        lemma_balance_absent(s.drop_last(), a);
    }
}

/// Overwriting the amount at index `i` keeps the accounts distinct, shifts
/// the sum by the difference, and changes only that account's balance.
proof fn lemma_update_value(s: Seq<(u64, u64)>, i: int, v: u64)
    requires
        accounts_distinct(s),
        0 <= i < s.len(),
    ensures
        accounts_distinct(s.update(i, (s[i].0, v))),
        sum_of(s.update(i, (s[i].0, v))) == sum_of(s) - s[i].1 + v,
        forall|a: u64|
            balance_in(s.update(i, (s[i].0, v)), a) == if a == s[i].0 {
                v
            } else {
                balance_in(s, a)
            },
    decreases s.len(),
{
    let t = s.update(i, (s[i].0, v));
    if i == s.len() - 1 {
        assert(t.drop_last() =~= s.drop_last());
        assert forall|a: u64|
            balance_in(t, a) == (if a == s[i].0 {
                v
            } else {
                balance_in(s, a)
            }) by {
            if a != s[i].0 {
                assert(balance_in(t, a) == balance_in(t.drop_last(), a));
                assert(balance_in(s, a) == balance_in(s.drop_last(), a));
            }
        }
    } else {
        assert(accounts_distinct(s.drop_last()));
        assert(s.drop_last()[i] == s[i]);
        lemma_update_value(s.drop_last(), i, v);
        assert(t.drop_last() =~= s.drop_last().update(i, (s[i].0, v)));
        assert(t.last() == s.last());
        assert forall|a: u64|
            balance_in(t, a) == (if a == s[i].0 {
                v
            } else {
                balance_in(s, a)
            }) by {
            if s.last().0 == a {
                assert(a != s[i].0);
            } else {
                assert(balance_in(t, a) == balance_in(t.drop_last(), a));
                assert(balance_in(s, a) == balance_in(s.drop_last(), a));
            }
        }
    }
}

/// Appending an entry for a fresh account keeps the accounts distinct, adds
/// its amount to the sum, and changes only that account's balance.
proof fn lemma_push_value(s: Seq<(u64, u64)>, k: u64, v: u64)
    requires
        accounts_distinct(s),
        forall|j: int| 0 <= j < s.len() ==> s[j].0 != k,
    ensures
        accounts_distinct(s.push((k, v))),
        sum_of(s.push((k, v))) == sum_of(s) + v,
        forall|a: u64|
            balance_in(s.push((k, v)), a) == if a == k {
                v
            } else {
                balance_in(s, a)
            },
{
    let t = s.push((k, v));
    assert(t.drop_last() =~= s);
    assert(forall|i: int, j: int| 0 <= i < j < t.len() ==> t[i].0 != t[j].0) by {
        assert(forall|i: int| 0 <= i < s.len() ==> t[i] == s[i]);
    }
}

/// The total supply equals the sum of all balance entries. Every operation
/// requires and re-establishes `wf`, which carries this equality, so it
/// holds after any sequence of mint, transfer and burn calls.
pub proof fn lemma_supply_is_sum_of_entries(l: BalanceLedger)
    requires
        l.wf(),
    ensures
        l.spec_total() == sum_of(l.entries@),
        forall|a: u64| #[trigger] l.balance_of(a) <= l.spec_total(),
{
    assert forall|a: u64| #[trigger] l.balance_of(a) <= l.spec_total() by {
        lemma_balance_le_sum(l.entries@, a);
    }
}

/// The fungible value store: per-account balances plus the total supply.
pub struct BalanceLedger {
    /// `(account, amount)` pairs, one per account that has ever been minted
    /// to; accounts are unique.
    pub entries: Vec<(u64, u64)>,
    /// The total supply, kept equal to the sum of all entries.
    pub total: u64,
}

impl BalanceLedger {
    /// The balance of account `a`; zero when no entry exists.
    pub open spec fn balance_of(self, a: u64) -> u64 {
        balance_in(self.entries@, a)
    }

    /// The recorded total supply.
    pub open spec fn spec_total(self) -> u64 {
        self.total
    }

    /// Well-formedness: accounts are unique and the total supply equals the
    /// sum of all balance entries.
    pub open spec fn wf(self) -> bool {
        &&& accounts_distinct(self.entries@)
        &&& self.total == sum_of(self.entries@)
    }

    /// The two ledgers hold exactly the same entries and total.
    pub open spec fn eq_state(self, other: BalanceLedger) -> bool {
        self.entries@ == other.entries@ && self.total == other.total
    }

    /// An empty ledger: no balances, zero supply.
    pub fn new() -> (l: BalanceLedger)
        ensures
            l.wf(),
            l.spec_total() == 0,
            forall|a: u64| l.balance_of(a) == 0,
    {
        BalanceLedger { entries: Vec::new(), total: 0 }
    }

    /// The index of account `a`'s entry, if one exists.
    fn find_index(&self, a: u64) -> (r: Option<usize>)
        ensures
            match r {
                Some(i) => i < self.entries@.len() && self.entries@[i as int].0 == a,
                None => forall|j: int| 0 <= j < self.entries@.len() ==> self.entries@[j].0 != a,
            },
    {
        let mut i: usize = 0;
        while i < self.entries.len()
            invariant
                i <= self.entries@.len(),
                forall|j: int| 0 <= j < i ==> self.entries@[j].0 != a,
            decreases self.entries@.len() - i,
        {
            if self.entries[i].0 == a {
                return Some(i);
            }
            i = i + 1;
        }
        None
    }

    /// Reads the balance of `a`.
    pub fn balance(&self, a: u64) -> (r: u64)
        requires
            accounts_distinct(self.entries@),
        ensures
            r == self.balance_of(a),
    {
        match self.find_index(a) {
            Some(i) => {
                proof {
                    lemma_balance_at_index(self.entries@, i as int);
                }
                self.entries[i].1
            },
            None => {
                proof {
                    lemma_balance_absent(self.entries@, a);
                }
                0
            },
        }
    }

    /// Reads the total supply.
    pub fn total(&self) -> (r: u64)
        ensures
            r == self.spec_total(),
    {
        self.total
    }

    /// Creates `amount` new units for `account`: the account's balance and
    /// the total supply both grow by `amount`, or nothing changes at all.
    pub fn mint(&mut self, account: u64, amount: u64) -> (r: Result<(), LedgerError>)
        requires
            old(self).wf(),
        ensures
            final(self).wf(),
            old(self).spec_total() + amount <= u64::MAX ==> {
                &&& r == Ok::<(), LedgerError>(())
                &&& final(self).balance_of(account) == old(self).balance_of(account) + amount
                &&& forall|a: u64|
                    a != account ==> final(self).balance_of(a) == old(self).balance_of(a)
                &&& final(self).spec_total() == old(self).spec_total() + amount
            },
            old(self).spec_total() + amount > u64::MAX ==> {
                &&& r == Err::<(), LedgerError>(LedgerError::Overflow)
                &&& final(self).eq_state(*old(self))
            },
    {
        let b = self.balance(account);
        proof {
            lemma_balance_le_sum(self.entries@, account);
        }
        let nb = match checked_add(b, amount) {
            Ok(v) => v,
            Err(e) => {
                return Err(e);
            },
        };
        let nt = match checked_add(self.total, amount) {
            Ok(v) => v,
            Err(e) => {
                return Err(e);
            },
        };
        match self.find_index(account) {
            Some(i) => {
                proof {
                    lemma_balance_at_index(self.entries@, i as int);
                    lemma_update_value(self.entries@, i as int, nb);
                }
                self.entries[i] = (account, nb);
            },
            None => {
                proof {
                    lemma_balance_absent(self.entries@, account);
                    lemma_push_value(self.entries@, account, nb);
                }
                self.entries.push((account, nb));
            },
        }
        self.total = nt;
        Ok(())
    }

    /// Moves `amount` from `from` to `to`. The sender must hold strictly more
    /// than `amount`; the total supply never changes.
    pub fn transfer(&mut self, from: u64, to: u64, amount: u64) -> (r: Result<(), LedgerError>)
        requires
            old(self).wf(),
        ensures
            final(self).wf(),
            old(self).balance_of(from) > amount ==> {
                &&& r == Ok::<(), LedgerError>(())
                &&& forall|a: u64|
                    final(self).balance_of(a) as int == old(self).balance_of(a) as int - (
                    if a == from {
                        amount as int
                    } else {
                        0
                    }) + (if a == to {
                        amount as int
                    } else {
                        0
                    })
                &&& final(self).spec_total() == old(self).spec_total()
            },
            old(self).balance_of(from) <= amount ==> {
                &&& r == Err::<(), LedgerError>(LedgerError::InsufficientBalance)
                &&& final(self).eq_state(*old(self))
            },
    {
        let bf = self.balance(from);
        if bf <= amount {
            return Err(LedgerError::InsufficientBalance);
        }
        let i = match self.find_index(from) {
            Some(i) => i,
            None => {
                proof {
                    lemma_balance_absent(self.entries@, from);
                    assert(false);
                }
                return Err(LedgerError::InsufficientBalance);
            },
        };
        let nbf = bf - amount;
        proof {
            lemma_balance_at_index(self.entries@, i as int);
            if from != to {
                lemma_pair_le_sum(self.entries@, from, to);
            }
            lemma_update_value(self.entries@, i as int, nbf);
        }
        self.entries[i] = (from, nbf);
        let bt = self.balance(to);
        let nbt = bt + amount;
        match self.find_index(to) {
            Some(j) => {
                proof {
                    lemma_balance_at_index(self.entries@, j as int);
                    lemma_update_value(self.entries@, j as int, nbt);
                }
                self.entries[j] = (to, nbt);
            },
            None => {
                proof {
                    lemma_balance_absent(self.entries@, to);
                    lemma_push_value(self.entries@, to, nbt);
                }
                self.entries.push((to, nbt));
            },
        }
        Ok(())
    }

    /// Destroys `amount` units held by `account`: its balance and the total
    /// supply both shrink by `amount`, or nothing changes at all.
    pub fn burn(&mut self, account: u64, amount: u64) -> (r: Result<(), LedgerError>)
        requires
            old(self).wf(),
        ensures
            final(self).wf(),
            old(self).balance_of(account) >= amount ==> {
                &&& r == Ok::<(), LedgerError>(())
                &&& final(self).balance_of(account) == old(self).balance_of(account) - amount
                &&& forall|a: u64|
                    a != account ==> final(self).balance_of(a) == old(self).balance_of(a)
                &&& final(self).spec_total() == old(self).spec_total() - amount
            },
            old(self).balance_of(account) < amount ==> {
                &&& r == Err::<(), LedgerError>(LedgerError::InsufficientBalance)
                &&& final(self).eq_state(*old(self))
            },
    {
        let b = self.balance(account);
        if b < amount {
            return Err(LedgerError::InsufficientBalance);
        }
        proof {
            lemma_balance_le_sum(self.entries@, account);
        }
        match self.find_index(account) {
            Some(i) => {
                proof {
                    lemma_balance_at_index(self.entries@, i as int);
                    lemma_update_value(self.entries@, i as int, (b - amount) as u64);
                }
                self.entries[i] = (account, b - amount);
                self.total = self.total - amount;
            },
            None => {
                proof {
                    lemma_balance_absent(self.entries@, account);
                }
            },
        }
        Ok(())
    }
}

} // verus!
