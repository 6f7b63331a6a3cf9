//! Currency ledger: free and reserved balances per account, with the
//! reserve / unreserve / transfer primitives that settle the currency side
//! of asset creation, breeding, and transfer. A transfer here is always of
//! the "allow death" kind: it may drain the sender completely.

use vstd::pervasive::VecAdditionalExecFns;
use vstd::prelude::*;

verus! {

/// A currency-layer failure. Callers propagate these verbatim.
#[derive(Clone, Copy, Debug, PartialEq, Eq, Structural)]
pub enum LedgerError {
    /// The free balance cannot cover the requested amount.
    InsufficientBalance,
    /// Crediting the recipient would overflow its balance.
    Overflow,
}

/// One account's balances. The invariant `free + reserved <= u64::MAX`
/// (part of `Ledger::wf`) keeps every move between the two fields exact.
#[derive(Clone, Copy, Debug)]
pub struct AccountBalance {
    pub account: u64,
    pub free: u64,
    pub reserved: u64,
}

/// No two entries record the same account.
spec fn unique_accounts(s: Seq<AccountBalance>) -> bool {
    forall|i: int, j: int|
        0 <= i < s.len() && 0 <= j < s.len() && i != j ==> s[i].account != s[j].account
}

/// The entry recorded for `account`, scanning from the most recent.
spec fn entry_in(s: Seq<AccountBalance>, account: u64) -> Option<AccountBalance>
    decreases s.len(),
{
    if s.len() == 0 {
        None
    } else if s.last().account == account {
        Some(s.last())
    } else {
        entry_in(s.drop_last(), account)
    }
}

proof fn lemma_entry_found(s: Seq<AccountBalance>, i: int)
    requires
        unique_accounts(s),
        0 <= i < s.len(),
    ensures
        entry_in(s, s[i].account) == Some(s[i]),
    decreases s.len(),
{
    if i == s.len() - 1 {
        assert(s.last() == s[i]);
    } else {
        assert(s.last().account != s[i].account);
        assert(s.drop_last()[i] == s[i]);
        lemma_entry_found(s.drop_last(), i);
    }
}

proof fn lemma_entry_absent(s: Seq<AccountBalance>, account: u64)
    requires
        forall|i: int| 0 <= i < s.len() ==> s[i].account != account,
    ensures
        entry_in(s, account) is None,
    decreases s.len(),
{
    if s.len() > 0 {
        lemma_entry_absent(s.drop_last(), account);
    }
}

proof fn lemma_entry_update(s: Seq<AccountBalance>, i: int, v: AccountBalance)
    requires
        unique_accounts(s),
        0 <= i < s.len(),
        v.account == s[i].account,
    ensures
        unique_accounts(s.update(i, v)),
        forall|a: u64|
            entry_in(s.update(i, v), a) == if a == v.account {
                Some(v)
            } else {
                entry_in(s, a)
            },
    decreases s.len(),
{
    let t = s.update(i, v);
    if i == s.len() - 1 {
        assert(t.last() == v);
        assert(t.drop_last() =~= s.drop_last());
        assert forall|a: u64|
            entry_in(t, a) == (if a == v.account {
                Some(v)
            } else {
                entry_in(s, a)
            }) by {
            if a == v.account {
                assert(entry_in(t, a) == Some(t.last()));
            } else {
                assert(entry_in(t, a) == entry_in(t.drop_last(), a));
                assert(entry_in(s, a) == entry_in(s.drop_last(), a));
            }
        }
    } else {
        assert(t.last() == s.last());
        assert(t.drop_last() =~= s.drop_last().update(i, v));
        assert(s.drop_last()[i] == s[i]);
        lemma_entry_update(s.drop_last(), i, v);
        assert(s.last().account != v.account);
        assert forall|a: u64|
            entry_in(t, a) == (if a == v.account {
                Some(v)
            } else {
                entry_in(s, a)
            }) by {
            if a == s.last().account {
                assert(entry_in(t, a) == Some(t.last()));
                assert(entry_in(s, a) == Some(s.last()));
            } else {
                assert(entry_in(t, a) == entry_in(t.drop_last(), a));
                assert(entry_in(s, a) == entry_in(s.drop_last(), a));
                assert(entry_in(t.drop_last(), a) == (if a == v.account {
                    Some(v)
                } else {
                    entry_in(s.drop_last(), a)
                }));
            }
        }
    }
}

proof fn lemma_entry_member(s: Seq<AccountBalance>, account: u64)
    ensures
        match entry_in(s, account) {
            Some(e) => exists|i: int| 0 <= i < s.len() && s[i] == e,
            None => true,
        },
    decreases s.len(),
{
    if s.len() > 0 {
        if s.last().account == account {
            assert(s[s.len() - 1] == s.last());
        } else {
            lemma_entry_member(s.drop_last(), account);
            if entry_in(s.drop_last(), account) is Some {
                let e = entry_in(s.drop_last(), account)->Some_0;
                let i = choose|i: int| 0 <= i < s.drop_last().len() && s.drop_last()[i] == e;
                assert(s[i] == e);
            }
        }
    }
}

proof fn lemma_entry_push(s: Seq<AccountBalance>, e: AccountBalance)
    requires
        forall|i: int| 0 <= i < s.len() ==> s[i].account != e.account,
    ensures
        unique_accounts(s) ==> unique_accounts(s.push(e)),
        forall|a: u64|
            entry_in(s.push(e), a) == if a == e.account {
                Some(e)
            } else {
                entry_in(s, a)
            },
{
    assert(s.push(e).drop_last() =~= s);
    assert(s.push(e).last() == e);
    if unique_accounts(s) {
        assert forall|i: int, j: int|
            0 <= i < s.push(e).len() && 0 <= j < s.push(e).len() && i != j implies s.push(e)[i].account
            != s.push(e)[j].account by {
            if i < s.len() && j < s.len() {
                assert(s.push(e)[i] == s[i]);
                assert(s.push(e)[j] == s[j]);
            }
        }
    }
}

/// The account-to-balances ledger.
pub struct Ledger {
    entries: Vec<AccountBalance>,
}

impl Ledger {
    /// Every account named at most once, and each account's two balances
    /// together fit in the balance type.
    pub closed spec fn wf(self) -> bool {
        &&& unique_accounts(self.entries@)
        &&& forall|i: int|
            0 <= i < self.entries@.len() ==> #[trigger] self.entries@[i].free
                + self.entries@[i].reserved <= u64::MAX
    }

    /// The free balance of `account` (zero if the account has no entry).
    pub closed spec fn free_of(self, account: u64) -> u64 {
        match entry_in(self.entries@, account) {
            Some(e) => e.free,
            None => 0,
        }
    }

    /// The reserved balance of `account` (zero if the account has no entry).
    pub closed spec fn reserved_of(self, account: u64) -> u64 {
        match entry_in(self.entries@, account) {
            Some(e) => e.reserved,
            None => 0,
        }
    }

    /// An empty ledger: every balance zero.
    pub fn new() -> (r: Ledger)
        ensures
            r.wf(),
            forall|a: u64| r.free_of(a) == 0 && r.reserved_of(a) == 0,
    {
        let r = Ledger { entries: Vec::new() };
        proof {
            assert forall|a: u64| r.free_of(a) == 0 && r.reserved_of(a) == 0 by {
                assert(entry_in(r.entries@, a) is None);
            }
        }
        r
    }

    /// The position of `account`'s entry, if any.
    fn find(&self, account: u64) -> (r: Option<usize>)
        ensures
            match r {
                Some(i) => i < self.entries@.len() && self.entries@[i as int].account == account,
                None => forall|i: int|
                    0 <= i < self.entries@.len() ==> self.entries@[i].account != account,
            },
    {
        let mut k: usize = 0;
        while k < self.entries.len()
            invariant
                k <= self.entries@.len(),
                forall|i: int| 0 <= i < k ==> self.entries@[i].account != account,
            decreases self.entries@.len() - k,
        {
            if self.entries[k].account == account {
                return Some(k);
            }
            k += 1;
        }
        None
    }

    /// The free balance of `account`.
    pub fn free_balance(&self, account: u64) -> (r: u64)
        requires
            self.wf(),
        ensures
            r == self.free_of(account),
    {
        match self.find(account) {
            Some(i) => {
                proof {
                    lemma_entry_found(self.entries@, i as int);
                }
                self.entries[i].free
            },
            None => {
                proof {
                    lemma_entry_absent(self.entries@, account);
                }
                0
            },
        }
    }

    /// The reserved balance of `account`.
    pub fn reserved_balance(&self, account: u64) -> (r: u64)
        requires
            self.wf(),
        ensures
            r == self.reserved_of(account),
    {
        match self.find(account) {
            Some(i) => {
                proof {
                    lemma_entry_found(self.entries@, i as int);
                }
                self.entries[i].reserved
            },
            None => {
                proof {
                    lemma_entry_absent(self.entries@, account);
                }
                0
            },
        }
    }

    /// Give `account` a free balance of `amount` and no reserve, creating
    /// or overwriting its entry. Genesis setup; not reachable from the
    /// call surface.
    pub fn endow(&mut self, account: u64, amount: u64)
        requires
            old(self).wf(),
        ensures
            final(self).wf(),
            final(self).free_of(account) == amount,
            final(self).reserved_of(account) == 0,
            forall|b: u64|
                b != account ==> final(self).free_of(b) == old(self).free_of(b) && final(self).reserved_of(b) == old(self).reserved_of(b),
    {
        let v = AccountBalance { account, free: amount, reserved: 0 };
        match self.find(account) {
            Some(i) => {
                proof {
                    lemma_entry_update(self.entries@, i as int, v);
                }
                self.entries.set(i, v);
            },
            None => {
                proof {
                    lemma_entry_push(self.entries@, v);
                }
                self.entries.push(v);
            },
        }
    }

    /// Move `amount` from `account`'s free balance into its reserve.
    /// Fails, mutating nothing, when the free balance cannot cover it.
    pub fn reserve(&mut self, account: u64, amount: u64) -> (r: Result<(), LedgerError>)
        requires
            old(self).wf(),
        ensures
            final(self).wf(),
            r is Ok <==> amount <= old(self).free_of(account),
            r is Ok ==> {
                &&& final(self).free_of(account) == old(self).free_of(account) - amount
                &&& final(self).reserved_of(account) == old(self).reserved_of(account) + amount
                &&& forall|b: u64|
                    b != account ==> final(self).free_of(b) == old(self).free_of(b) && final(self).reserved_of(b) == old(self).reserved_of(b)
            },
            r is Err ==> *final(self) == *old(self) && r == Err::<(), LedgerError>(
                LedgerError::InsufficientBalance,
            ),
    {
        match self.find(account) {
            Some(i) => {
                proof {
                    lemma_entry_found(self.entries@, i as int);
                }
                let e = self.entries[i];
                if amount <= e.free {
                    let v = AccountBalance {
                        account,
                        free: e.free - amount,
                        reserved: e.reserved + amount,
                    };
                    proof {
                        lemma_entry_update(self.entries@, i as int, v);
                    }
                    self.entries.set(i, v);
                    Ok(())
                } else {
                    Err(LedgerError::InsufficientBalance)
                }
            },
            None => {
                proof {
                    lemma_entry_absent(self.entries@, account);
                }
                if amount == 0 {
                    Ok(())
                } else {
                    Err(LedgerError::InsufficientBalance)
                }
            },
        }
    }

    /// Move back into `account`'s free balance as much of `amount` as its
    /// reserve holds, and return how much moved. Never fails.
    pub fn unreserve(&mut self, account: u64, amount: u64) -> (moved: u64)
        requires
            old(self).wf(),
        ensures
            final(self).wf(),
            moved == if amount <= old(self).reserved_of(account) {
                amount
            } else {
                old(self).reserved_of(account)
            },
            final(self).reserved_of(account) == old(self).reserved_of(account) - moved,
            final(self).free_of(account) == old(self).free_of(account) + moved,
            forall|b: u64|
                b != account ==> final(self).free_of(b) == old(self).free_of(b) && final(self).reserved_of(b) == old(self).reserved_of(b),
    {
        match self.find(account) {
            Some(i) => {
                proof {
                    lemma_entry_found(self.entries@, i as int);
                }
                let e = self.entries[i];
                let moved = if amount <= e.reserved {
                    amount
                } else {
                    e.reserved
                };
                let v = AccountBalance {
                    account,
                    free: e.free + moved,
                    reserved: e.reserved - moved,
                };
                proof {
                    lemma_entry_update(self.entries@, i as int, v);
                }
                self.entries.set(i, v);
                moved
            },
            None => {
                proof {
                    lemma_entry_absent(self.entries@, account);
                }
                0
            },
        }
    }

    /// Move `amount` of free balance from `from` to `to`, allowed to drain
    /// `from` completely. Fails, mutating nothing, when `from`'s free
    /// balance cannot cover it, or when crediting `to` would overflow.
    pub fn transfer(&mut self, from: u64, to: u64, amount: u64) -> (r: Result<(), LedgerError>)
        requires
            old(self).wf(),
        ensures
            final(self).wf(),
            r is Ok <==> amount <= old(self).free_of(from) && (from == to || amount == 0
                || old(self).free_of(to) + old(self).reserved_of(to) + amount <= u64::MAX),
            r is Ok && from != to ==> {
                &&& final(self).free_of(from) == old(self).free_of(from) - amount
                &&& final(self).free_of(to) == old(self).free_of(to) + amount
                &&& final(self).reserved_of(from) == old(self).reserved_of(from)
                &&& final(self).reserved_of(to) == old(self).reserved_of(to)
                &&& forall|b: u64|
                    b != from && b != to ==> final(self).free_of(b) == old(self).free_of(b)
                        && final(self).reserved_of(b) == old(self).reserved_of(b)
            },
            r is Ok && from == to ==> *final(self) == *old(self),
            r is Err ==> *final(self) == *old(self) && r == Err::<(), LedgerError>(
                if amount <= old(self).free_of(from) {
                    LedgerError::Overflow
                } else {
                    LedgerError::InsufficientBalance
                },
            ),
    {
        let from_free = self.free_balance(from);
        if amount > from_free {
            return Err(LedgerError::InsufficientBalance);
        }
        if from == to || amount == 0 {
            return Ok(());
        }
        let to_free = self.free_balance(to);
        let to_reserved = self.reserved_balance(to);
        proof {
            lemma_entry_member(self.entries@, to);
            assert(to_free + to_reserved <= u64::MAX);
        }
        if amount > u64::MAX - to_free - to_reserved {
            return Err(LedgerError::Overflow);
        }
        match self.find(from) {
            Some(i) => {
                proof {
                    lemma_entry_found(self.entries@, i as int);
                }
                let e = self.entries[i];
                let v = AccountBalance { account: from, free: e.free - amount, reserved: e.reserved };
                proof {
                    lemma_entry_update(self.entries@, i as int, v);
                }
                self.entries.set(i, v);
            },
            None => {
                proof {
                    lemma_entry_absent(self.entries@, from);
                    assert(false);
                }
            },
        }
        match self.find(to) {
            Some(j) => {
                proof {
                    lemma_entry_found(self.entries@, j as int);
                }
                let e = self.entries[j];
                let v = AccountBalance { account: to, free: e.free + amount, reserved: e.reserved };
                proof {
                    lemma_entry_update(self.entries@, j as int, v);
                }
                self.entries.set(j, v);
            },
            None => {
                let v = AccountBalance { account: to, free: amount, reserved: 0 };
                proof {
                    lemma_entry_absent(self.entries@, to);
                    lemma_entry_push(self.entries@, v);
                }
                self.entries.push(v);
            },
        }
        Ok(())
    }
}

} // verus!
