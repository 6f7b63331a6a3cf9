//! A token-balance contract: a total supply, a balance map and an
//! allowance map, with constant-size transfer / approve / mint / burn
//! operations and an event log.
//!
//! The standing invariant is that the balances always sum to the total
//! supply, which is what makes every credit free of overflow.

use crate::kv_seq::{
    lemma_lookup_absent, lemma_lookup_found, lemma_lookup_le_sum, lemma_lookup_push,
    lemma_lookup_update, lemma_sum_nonneg, lemma_sum_push, lemma_sum_update, lookup, sum_values,
    unique_keys,
};
use vstd::pervasive::VecAdditionalExecFns;
use vstd::prelude::*;

verus! {

/// A token-contract failure.
#[derive(Clone, Copy, Debug, PartialEq, Eq, Structural)]
pub enum Error {
    /// The sender's balance cannot cover the transferred value.
    InsufficientBalance,
    /// The spender's allowance cannot cover the transferred value.
    AllowanceNotEnough,
}

/// Event: `value` tokens moved from `from` to `to`.
#[derive(Clone, Copy, Debug, PartialEq, Eq, Structural)]
pub struct Transfer {
    pub from: u64,
    pub to: u64,
    pub value: u128,
}

/// Event: `owner` allowed `spender` to spend up to `value` tokens.
#[derive(Clone, Copy, Debug, PartialEq, Eq, Structural)]
pub struct Approval {
    pub owner: u64,
    pub spender: u64,
    pub value: u128,
}

/// Event: `who` minted `value` tokens to `to`.
#[derive(Clone, Copy, Debug, PartialEq, Eq, Structural)]
pub struct Mint {
    pub who: u64,
    pub to: u64,
    pub value: u128,
}

/// Event: `who` burned `value` tokens held by `to`.
#[derive(Clone, Copy, Debug, PartialEq, Eq, Structural)]
pub struct Burn {
    pub who: u64,
    pub to: u64,
    pub value: u128,
}

/// One entry of the contract's event log.
#[derive(Clone, Copy, Debug, PartialEq, Eq, Structural)]
pub enum Erc20Event {
    Transfer(Transfer),
    Approval(Approval),
    Mint(Mint),
    Burn(Burn),
}

/// The token contract's storage.
pub struct Erc20 {
    total_supply: u128,
    balances: Vec<(u64, u128)>,
    allowance: Vec<((u64, u64), u128)>,
    events: Vec<Erc20Event>,
}

impl Erc20 {
    /// The total supply of tokens.
    pub closed spec fn spec_total_supply(self) -> u128 {
        self.total_supply
    }

    /// The balance held by `owner` (zero without an entry).
    pub closed spec fn spec_balance_of(self, owner: u64) -> u128 {
        match lookup(self.balances@, owner) {
            Some(v) => v,
            None => 0,
        }
    }

    /// What `spender` may still spend on behalf of `owner` (zero without an
    /// entry).
    pub closed spec fn spec_allowance(self, owner: u64, spender: u64) -> u128 {
        match lookup(self.allowance@, (owner, spender)) {
            Some(v) => v,
            None => 0,
        }
    }

    /// The event log.
    pub closed spec fn log(self) -> Seq<Erc20Event> {
        self.events@
    }

    /// Both maps hold each key at most once.
    spec fn keys_ok(self) -> bool {
        &&& unique_keys(self.balances@)
        &&& unique_keys(self.allowance@)
    }

    /// Well-formedness: unique keys, and the balances sum to the total
    /// supply.
    pub closed spec fn wf(self) -> bool {
        &&& self.keys_ok()
        &&& sum_values(self.balances@) == self.total_supply as int
    }

    /// A fresh contract: the caller holds the whole initial supply.
    pub fn new(caller: u64, initial_supply: u128) -> (r: Erc20)
        ensures
            r.wf(),
            r.spec_total_supply() == initial_supply,
            r.spec_balance_of(caller) == initial_supply,
            forall|a: u64| a != caller ==> r.spec_balance_of(a) == 0,
            forall|o: u64, s: u64| r.spec_allowance(o, s) == 0,
            r.log() =~= Seq::<Erc20Event>::empty(),
    {
        let mut balances: Vec<(u64, u128)> = Vec::new();
        proof {
            lemma_lookup_push(balances@, (caller, initial_supply));
            lemma_sum_push(balances@, (caller, initial_supply));
        }
        balances.push((caller, initial_supply));
        let r = Erc20 { total_supply: initial_supply, balances, allowance: Vec::new(), events: Vec::new() };
        proof {
            assert forall|a: u64| a != caller implies r.spec_balance_of(a) == 0 by {}
            assert forall|o: u64, s: u64| r.spec_allowance(o, s) == 0 by {
                lemma_lookup_absent(r.allowance@, (o, s));
            }
        }
        r
    }

    /// The total supply.
    pub fn total_supply(&self) -> (r: u128)
        ensures
            r == self.spec_total_supply(),
    {
        self.total_supply
    }

    /// The balance of `owner`.
    pub fn balance_of(&self, owner: u64) -> (r: u128)
        requires
            self.wf(),
        ensures
            r == self.spec_balance_of(owner),
    {
        self.get_balance_or_zero(&owner)
    }

    /// The allowance of `spender` on `owner`'s tokens.
    pub fn allowance(&self, owner: u64, spender: u64) -> (r: u128)
        requires
            self.wf(),
        ensures
            r == self.spec_allowance(owner, spender),
    {
        self.get_allowance_or_zero(&owner, &spender)
    }

    /// The event log, oldest first.
    pub fn events(&self) -> (r: &Vec<Erc20Event>)
        ensures
            r@ == self.log(),
    {
        &self.events
    }

    /// Move `value` tokens from the caller `who` to `to`.
    pub fn transfer(&mut self, who: u64, to: u64, value: u128) -> (r: Result<(), Error>)
        requires
            old(self).wf(),
        ensures
            final(self).wf(),
            final(self).spec_total_supply() == old(self).spec_total_supply(),
            r is Ok <==> value <= old(self).spec_balance_of(who),
            r is Ok ==> {
                &&& final(self).spec_balance_of(who) == if who == to {
                    old(self).spec_balance_of(who)
                } else {
                    (old(self).spec_balance_of(who) - value) as u128
                }
                &&& final(self).spec_balance_of(to) == if who == to {
                    old(self).spec_balance_of(to)
                } else {
                    (old(self).spec_balance_of(to) + value) as u128
                }
                &&& (forall|b: u64|
                    b != who && b != to ==> final(self).spec_balance_of(b) == old(
                        self,
                    ).spec_balance_of(b))
                &&& (forall|o: u64, s: u64|
                    final(self).spec_allowance(o, s) == old(self).spec_allowance(o, s))
                &&& final(self).log() == old(self).log().push(
                    Erc20Event::Transfer(Transfer { from: who, to, value }),
                )
            },
            r is Err ==> *final(self) == *old(self) && r == Err::<(), Error>(
                Error::InsufficientBalance,
            ),
    {
        self.do_transfer(who, to, value)
    }

    /// Set the allowance of `spender` on the caller `owner`'s tokens.
    pub fn approve(&mut self, owner: u64, spender: u64, value: u128) -> (r: Result<(), Error>)
        requires
            old(self).wf(),
        ensures
            final(self).wf(),
            r is Ok,
            final(self).spec_total_supply() == old(self).spec_total_supply(),
            final(self).spec_allowance(owner, spender) == value,
            forall|o: u64, s: u64|
                !(o == owner && s == spender) ==> final(self).spec_allowance(o, s) == old(
                    self,
                ).spec_allowance(o, s),
            forall|b: u64| final(self).spec_balance_of(b) == old(self).spec_balance_of(b),
            final(self).log() == old(self).log().push(
                Erc20Event::Approval(Approval { owner, spender, value }),
            ),
    {
        self.set_allowance(owner, spender, value);
        self.events.push(Erc20Event::Approval(Approval { owner, spender, value }));
        Ok(())
    }

    /// Move `value` tokens from `from` to `to` on the caller `spender`'s
    /// allowance, and reduce the allowance by the value moved.
    pub fn transfer_from(&mut self, spender: u64, from: u64, to: u64, value: u128) -> (r: Result<
        (),
        Error,
    >)
        requires
            old(self).wf(),
        ensures
            final(self).wf(),
            final(self).spec_total_supply() == old(self).spec_total_supply(),
            r is Ok <==> (value <= old(self).spec_allowance(from, spender) && value <= old(
                self,
            ).spec_balance_of(from)),
            r is Ok ==> {
                &&& final(self).spec_balance_of(from) == if from == to {
                    old(self).spec_balance_of(from)
                } else {
                    (old(self).spec_balance_of(from) - value) as u128
                }
                &&& final(self).spec_balance_of(to) == if from == to {
                    old(self).spec_balance_of(to)
                } else {
                    (old(self).spec_balance_of(to) + value) as u128
                }
                &&& (forall|b: u64|
                    b != from && b != to ==> final(self).spec_balance_of(b) == old(
                        self,
                    ).spec_balance_of(b))
                &&& final(self).spec_allowance(from, spender) == old(self).spec_allowance(
                    from,
                    spender,
                ) - value
                &&& (forall|o: u64, s: u64|
                    !(o == from && s == spender) ==> final(self).spec_allowance(o, s) == old(
                        self,
                    ).spec_allowance(o, s))
                &&& final(self).log() == old(self).log().push(
                    Erc20Event::Transfer(Transfer { from, to, value }),
                )
            },
            r is Err ==> *final(self) == *old(self) && r == Err::<(), Error>(
                if value <= old(self).spec_allowance(from, spender) {
                    Error::InsufficientBalance
                } else {
                    Error::AllowanceNotEnough
                },
            ),
    {
        let allowance = self.get_allowance_or_zero(&from, &spender);
        if allowance < value {
            return Err(Error::AllowanceNotEnough);
        }
        match self.do_transfer(from, to, value) {
            Ok(_) => {},
            Err(e) => {
                return Err(e);
            },
        }
        self.set_allowance(from, spender, allowance - value);
        Ok(())
    }

    /// Mint `value` tokens to `to`, growing the total supply. `who` is the
    /// caller, recorded in the event.
    pub fn mint(&mut self, who: u64, to: u64, value: u128) -> (r: Result<(), Error>)
        requires
            old(self).wf(),
            old(self).spec_total_supply() + value <= u128::MAX,
        ensures
            final(self).wf(),
            r is Ok,
            final(self).spec_total_supply() == old(self).spec_total_supply() + value,
            final(self).spec_balance_of(to) == old(self).spec_balance_of(to) + value,
            forall|b: u64| b != to ==> final(self).spec_balance_of(b) == old(self).spec_balance_of(b),
            forall|o: u64, s: u64|
                final(self).spec_allowance(o, s) == old(self).spec_allowance(o, s),
            final(self).log() == old(self).log().push(Erc20Event::Mint(Mint { who, to, value })),
    {
        proof {
            lemma_lookup_le_sum(self.balances@, to);
            lemma_sum_nonneg(self.balances@);
        }
        let to_balance = self.get_balance_or_zero(&to);
        self.set_balance(to, to_balance + value);
        self.total_supply = self.total_supply + value;
        self.events.push(Erc20Event::Mint(Mint { who, to, value }));
        Ok(())
    }

    /// Burn `value` of the tokens held by `to`, shrinking the total
    /// supply. `who` is the caller, recorded in the event. The value must
    /// not exceed the held balance.
    pub fn burn(&mut self, who: u64, to: u64, value: u128) -> (r: Result<(), Error>)
        requires
            old(self).wf(),
            value <= old(self).spec_balance_of(to),
        ensures
            final(self).wf(),
            r is Ok,
            final(self).spec_total_supply() == old(self).spec_total_supply() - value,
            final(self).spec_balance_of(to) == old(self).spec_balance_of(to) - value,
            forall|b: u64| b != to ==> final(self).spec_balance_of(b) == old(self).spec_balance_of(b),
            forall|o: u64, s: u64|
                final(self).spec_allowance(o, s) == old(self).spec_allowance(o, s),
            final(self).log() == old(self).log().push(Erc20Event::Burn(Burn { who, to, value })),
    {
        proof {
            lemma_lookup_le_sum(self.balances@, to);
            lemma_sum_nonneg(self.balances@);
        }
        let to_balance = self.get_balance_or_zero(&to);
        self.set_balance(to, to_balance - value);
        self.total_supply = self.total_supply - value;
        self.events.push(Erc20Event::Burn(Burn { who, to, value }));
        Ok(())
    }

    /// The balance-moving core shared by `transfer` and `transfer_from`.
    fn do_transfer(&mut self, from: u64, to: u64, value: u128) -> (r: Result<(), Error>)
        requires
            old(self).wf(),
        ensures
            final(self).wf(),
            final(self).spec_total_supply() == old(self).spec_total_supply(),
            r is Ok <==> value <= old(self).spec_balance_of(from),
            r is Ok ==> {
                &&& final(self).spec_balance_of(from) == if from == to {
                    old(self).spec_balance_of(from)
                } else {
                    (old(self).spec_balance_of(from) - value) as u128
                }
                &&& final(self).spec_balance_of(to) == if from == to {
                    old(self).spec_balance_of(to)
                } else {
                    (old(self).spec_balance_of(to) + value) as u128
                }
                &&& (forall|b: u64|
                    b != from && b != to ==> final(self).spec_balance_of(b) == old(
                        self,
                    ).spec_balance_of(b))
                &&& (forall|o: u64, s: u64|
                    final(self).spec_allowance(o, s) == old(self).spec_allowance(o, s))
                &&& final(self).log() == old(self).log().push(
                    Erc20Event::Transfer(Transfer { from, to, value }),
                )
            },
            r is Err ==> *final(self) == *old(self) && r == Err::<(), Error>(
                Error::InsufficientBalance,
            ),
    {
        let from_balance = self.get_balance_or_zero(&from);
        if from_balance < value {
            return Err(Error::InsufficientBalance);
        }
        proof {
            lemma_lookup_le_sum(self.balances@, from);
        }
        self.set_balance(from, from_balance - value);
        proof {
            lemma_lookup_le_sum(self.balances@, to);
            lemma_sum_nonneg(self.balances@);
        }
        let to_balance = self.get_balance_or_zero(&to);
        self.set_balance(to, to_balance + value);
        self.events.push(Erc20Event::Transfer(Transfer { from, to, value }));
        Ok(())
    }

    /// Record `value` as `account`'s balance, creating or overwriting its
    /// entry, and shift the balance sum accordingly.
    fn set_balance(&mut self, account: u64, value: u128)
        requires
            old(self).keys_ok(),
        ensures
            final(self).keys_ok(),
            final(self).spec_balance_of(account) == value,
            forall|b: u64|
                b != account ==> final(self).spec_balance_of(b) == old(self).spec_balance_of(b),
            sum_values(final(self).balances@) == sum_values(old(self).balances@) - old(
                self,
            ).spec_balance_of(account) + value,
            final(self).allowance@ == old(self).allowance@,
            final(self).total_supply == old(self).total_supply,
            final(self).events@ == old(self).events@,
    {
        match self.find_balance(account) {
            Some(i) => {
                proof {
                    lemma_lookup_found(self.balances@, i as int);
                    lemma_lookup_update(self.balances@, i as int, (account, value));
                    lemma_sum_update(self.balances@, i as int, (account, value));
                }
                self.balances.set(i, (account, value));
            },
            None => {
                proof {
                    lemma_lookup_absent(self.balances@, account);
                    lemma_lookup_push(self.balances@, (account, value));
                    lemma_sum_push(self.balances@, (account, value));
                }
                self.balances.push((account, value));
            },
        }
    }

    /// Record `value` as the allowance of `spender` on `owner`'s tokens.
    fn set_allowance(&mut self, owner: u64, spender: u64, value: u128)
        requires
            old(self).keys_ok(),
        ensures
            final(self).keys_ok(),
            final(self).spec_allowance(owner, spender) == value,
            forall|o: u64, s: u64|
                !(o == owner && s == spender) ==> final(self).spec_allowance(o, s) == old(
                    self,
                ).spec_allowance(o, s),
            final(self).balances@ == old(self).balances@,
            final(self).total_supply == old(self).total_supply,
            final(self).events@ == old(self).events@,
    {
        match self.find_allowance(owner, spender) {
            Some(i) => {
                proof {
                    lemma_lookup_found(self.allowance@, i as int);
                    lemma_lookup_update(self.allowance@, i as int, ((owner, spender), value));
                }
                self.allowance.set(i, ((owner, spender), value));
            },
            None => {
                proof {
                    lemma_lookup_absent(self.allowance@, (owner, spender));
                    lemma_lookup_push(self.allowance@, ((owner, spender), value));
                }
                self.allowance.push(((owner, spender), value));
            },
        }
    }

    /// The position of `account`'s balance entry, if any.
    fn find_balance(&self, account: u64) -> (r: Option<usize>)
        ensures
            match r {
                Some(i) => i < self.balances@.len() && self.balances@[i as int].0 == account,
                None => forall|i: int|
                    0 <= i < self.balances@.len() ==> self.balances@[i].0 != account,
            },
    {
        let mut k: usize = 0;
        while k < self.balances.len()
            invariant
                k <= self.balances@.len(),
                forall|i: int| 0 <= i < k ==> self.balances@[i].0 != account,
            decreases self.balances@.len() - k,
        {
            if self.balances[k].0 == account {
                return Some(k);
            }
            k += 1;
        }
        None
    }

    /// The position of the `(owner, spender)` allowance entry, if any.
    fn find_allowance(&self, owner: u64, spender: u64) -> (r: Option<usize>)
        ensures
            match r {
                Some(i) => i < self.allowance@.len() && self.allowance@[i as int].0 == (
                    owner,
                    spender,
                ),
                None => forall|i: int|
                    0 <= i < self.allowance@.len() ==> self.allowance@[i].0 != (owner, spender),
            },
    {
        let mut k: usize = 0;
        while k < self.allowance.len()
            invariant
                k <= self.allowance@.len(),
                forall|i: int| 0 <= i < k ==> self.allowance@[i].0 != (owner, spender),
            decreases self.allowance@.len() - k,
        {
            let key = self.allowance[k].0;
            if key.0 == owner && key.1 == spender {
                assert(self.allowance@[k as int].0 == (owner, spender));
                return Some(k);
            }
            k += 1;
        }
        None
    }

    /// The balance of `account`, defaulting to zero.
    fn get_balance_or_zero(&self, account: &u64) -> (r: u128)
        requires
            self.keys_ok(),
        ensures
            r == self.spec_balance_of(*account),
    {
        match self.find_balance(*account) {
            Some(i) => {
                proof {
                    lemma_lookup_found(self.balances@, i as int);
                }
                self.balances[i].1
            },
            None => {
                proof {
                    lemma_lookup_absent(self.balances@, *account);
                }
                0
            },
        }
    }

    /// The allowance of `spender` on `owner`'s tokens, defaulting to zero.
    fn get_allowance_or_zero(&self, owner: &u64, spender: &u64) -> (r: u128)
        requires
            self.keys_ok(),
        ensures
            r == self.spec_allowance(*owner, *spender),
    {
        match self.find_allowance(*owner, *spender) {
            Some(i) => {
                proof {
                    lemma_lookup_found(self.allowance@, i as int);
                }
                self.allowance[i].1
            },
            None => {
                proof {
                    lemma_lookup_absent(self.allowance@, (*owner, *spender));
                }
                0
            },
        }
    }
}

} // verus!
