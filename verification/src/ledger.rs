//! The token ledger: account balances plus the running total supply.
//!
//! The ledger's well-formedness invariant is the conservation law: the sum
//! of all balances equals the total supply, and account keys are unique.
//! `transfer_from` moves value without changing the sum; `mint` is the only
//! operation that increases it.

use vstd::prelude::*;

use crate::authority::AuthorityStore;
use crate::errors::CoreError;
use crate::errors::TransferError;

verus! {

/// An account: an owner principal plus an optional sub-identifier.
#[derive(Clone, Copy, PartialEq, Eq, Hash, Structural, Debug)]
pub struct Account {
    pub owner: u64,
    pub subaccount: Option<u64>,
}

/// Arguments of the caller-relative transfer operation.
///
/// `fee`, `memo` and `created_at_time` exist for fee policy and
/// idempotent deduplication; the minimal behaviour verified here is the
/// atomic debit/credit of `amount`, which ignores them.
pub struct TransferArgs {
    pub from_subaccount: Option<u64>,
    pub to: Account,
    pub amount: u64,
    pub fee: Option<u64>,
    pub memo: Option<Vec<u8>>,
    pub created_at_time: Option<u64>,
}

/// One ledger entry: an account and its balance.
#[derive(Clone, Copy, PartialEq, Eq, Structural, Debug)]
pub struct LedgerEntry {
    pub account: Account,
    pub amount: u64,
}

/// The account under which a caller-relative transfer debits the caller.
pub open spec fn account_of(owner: u64, subaccount: Option<u64>) -> Account {
    Account { owner, subaccount }
}

/// Every account appears at most once.
pub open spec fn keys_distinct(s: Seq<LedgerEntry>) -> bool {
    forall|i: int, j: int| 0 <= i < j < s.len() ==> s[i].account != s[j].account
}

/// The sum of all balances recorded in `s`.
pub open spec fn sum_amounts(s: Seq<LedgerEntry>) -> int
    decreases s.len(),
{
    if s.len() == 0 {
        0
    } else {
        s[0].amount + sum_amounts(s.drop_first())
    }
}

/// The balance of `a` in `s`: the amount of the first entry for `a`, or 0.
pub open spec fn balance_in(s: Seq<LedgerEntry>, a: Account) -> nat
    decreases s.len(),
{
    if s.len() == 0 {
        0
    } else if s[0].account == a {
        s[0].amount as nat
    } else {
        balance_in(s.drop_first(), a)
    }
}

/// Balance sums are never negative.
pub proof fn lemma_sum_nonneg(s: Seq<LedgerEntry>)
    ensures
        sum_amounts(s) >= 0,
    decreases s.len(),
{
    if s.len() > 0 {
        lemma_sum_nonneg(s.drop_first());
    }
}

/// The first entry for `a` gives the balance of `a`.
pub proof fn lemma_balance_first_match(s: Seq<LedgerEntry>, a: Account, i: int)
    requires
        0 <= i < s.len(),
        s[i].account == a,
        forall|j: int| 0 <= j < i ==> s[j].account != a,
    ensures
        balance_in(s, a) == s[i].amount as nat,
    decreases s.len(),
{
    if i > 0 {
        lemma_balance_first_match(s.drop_first(), a, i - 1);
    }
}

/// An account with no entry has balance 0.
pub proof fn lemma_balance_absent(s: Seq<LedgerEntry>, a: Account)
    requires
        forall|j: int| 0 <= j < s.len() ==> s[j].account != a,
    ensures
        balance_in(s, a) == 0,
    decreases s.len(),
{
    if s.len() > 0 {
        lemma_balance_absent(s.drop_first(), a);
    }
}

/// No single balance exceeds the sum of all balances.
pub proof fn lemma_balance_le_sum(s: Seq<LedgerEntry>, a: Account)
    ensures
        balance_in(s, a) <= sum_amounts(s),
    decreases s.len(),
{
    if s.len() == 0 {
    } else if s[0].account == a {
        lemma_sum_nonneg(s.drop_first());
    } else {
        lemma_balance_le_sum(s.drop_first(), a);
    }
}

/// Updating the amount at `i` moves the sum by the difference.
proof fn lemma_sum_update(s: Seq<LedgerEntry>, i: int, e: LedgerEntry)
    requires
        0 <= i < s.len(),
    ensures
        sum_amounts(s.update(i, e)) == sum_amounts(s) - s[i].amount + e.amount,
    decreases s.len(),
{
    let s2 = s.update(i, e);
    if i == 0 {
        assert(s2.drop_first() =~= s.drop_first());
    } else {
        assert(s2.drop_first() =~= s.drop_first().update(i - 1, e));
        lemma_sum_update(s.drop_first(), i - 1, e);
    }
}

/// Updating entry `i` without changing its account leaves every other
/// account's balance as it was.
proof fn lemma_balance_update_other(s: Seq<LedgerEntry>, i: int, e: LedgerEntry, b: Account)
    requires
        0 <= i < s.len(),
        e.account == s[i].account,
        b != e.account,
    ensures
        balance_in(s.update(i, e), b) == balance_in(s, b),
    decreases s.len(),
{
    let s2 = s.update(i, e);
    if i == 0 {
        assert(s2.drop_first() =~= s.drop_first());
    } else {
        assert(s2.drop_first() =~= s.drop_first().update(i - 1, e));
        lemma_balance_update_other(s.drop_first(), i - 1, e, b);
    }
}

/// Appending an entry adds its amount to the sum.
proof fn lemma_sum_push(s: Seq<LedgerEntry>, e: LedgerEntry)
    ensures
        sum_amounts(s.push(e)) == sum_amounts(s) + e.amount,
    decreases s.len(),
{
    let p = s.push(e);
    assert(p.len() == s.len() + 1);
    assert(p[s.len() as int] == e);
    if s.len() == 0 {
        assert(p.drop_first() =~= Seq::<LedgerEntry>::empty());
        assert(sum_amounts(p.drop_first()) == 0);
        assert(sum_amounts(p) == p[0].amount + sum_amounts(p.drop_first()));
        assert(p[0] == e);
    } else {
        assert(p[0] == s[0]);
        assert(p.drop_first() =~= s.drop_first().push(e));
        lemma_sum_push(s.drop_first(), e);
        assert(sum_amounts(p) == p[0].amount + sum_amounts(p.drop_first()));
        assert(sum_amounts(s) == s[0].amount + sum_amounts(s.drop_first()));
    }
}

/// Appending an entry leaves every other account's balance as it was.
proof fn lemma_balance_push_other(s: Seq<LedgerEntry>, e: LedgerEntry, b: Account)
    requires
        b != e.account,
    ensures
        balance_in(s.push(e), b) == balance_in(s, b),
    decreases s.len(),
{
    let p = s.push(e);
    assert(p.len() == s.len() + 1);
    assert(p[s.len() as int] == e);
    if s.len() == 0 {
        assert(p.drop_first() =~= Seq::<LedgerEntry>::empty());
        assert(p[0] == e);
        assert(balance_in(p, b) == balance_in(p.drop_first(), b));
    } else {
        assert(p[0] == s[0]);
        assert(p.drop_first() =~= s.drop_first().push(e));
        lemma_balance_push_other(s.drop_first(), e, b);
        assert(balance_in(p, b) == if p[0].account == b { p[0].amount as nat } else { balance_in(p.drop_first(), b) });
        assert(balance_in(s, b) == if s[0].account == b { s[0].amount as nat } else { balance_in(s.drop_first(), b) });
    }
}

/// The ledger: all account balances plus the running total supply.
pub struct Ledger {
    pub entries: Vec<LedgerEntry>,
    pub supply: u64,
}

impl Ledger {
    /// Conservation invariant: unique account keys, and the balances sum
    /// exactly to the total supply.
    pub open spec fn wf(self) -> bool {
        &&& keys_distinct(self.entries@)
        &&& sum_amounts(self.entries@) == self.supply as int
    }

    /// The balance of `a`; 0 for an account never seen.
    pub open spec fn spec_balance(self, a: Account) -> nat {
        balance_in(self.entries@, a)
    }

    /// The ledger as a total balance map (0 for accounts never seen).
    pub open spec fn balances(self) -> Map<Account, nat> {
        Map::total(|a: Account| balance_in(self.entries@, a))
    }

    /// An empty ledger: no accounts, supply 0.
    pub fn new() -> (ledger: Ledger)
        ensures
            ledger.wf(),
            ledger.supply == 0,
            forall|a: Account| ledger.spec_balance(a) == 0,
    {
        Ledger { entries: Vec::new(), supply: 0 }
    }

    /// The index of the (first) entry for `account`, if any.
    fn find_entry(&self, account: &Account) -> (r: Option<usize>)
        ensures
            match r {
                Some(i) => i < self.entries@.len() && self.entries@[i as int].account == *account
                    && (forall|j: int| 0 <= j < i ==> self.entries@[j].account != *account),
                None => forall|j: int|
                    0 <= j < self.entries@.len() ==> self.entries@[j].account != *account,
            },
    {
        let mut i: usize = 0;
        while i < self.entries.len()
            invariant
                i <= self.entries@.len(),
                forall|j: int| 0 <= j < i ==> self.entries@[j].account != *account,
            decreases self.entries@.len() - i,
        {
            if self.entries[i].account == *account {
                return Some(i);
            }
            i = i + 1;
        }
        None
    }

    /// The balance of `account`; 0 for an unknown account, never an error.
    pub fn balance_of(&self, account: &Account) -> (r: u64)
        ensures
            r as nat == self.spec_balance(*account),
    {
        match self.find_entry(account) {
            Some(i) => {
                proof {
                    lemma_balance_first_match(self.entries@, *account, i as int);
                }
                self.entries[i].amount
            },
            None => {
                proof {
                    lemma_balance_absent(self.entries@, *account);
                }
                0
            },
        }
    }

    /// The running mint total.
    pub fn total_supply(&self) -> (r: u64)
        ensures
            r == self.supply,
    {
        self.supply
    }

    /// Sets the balance of `account` to `value`, keeping keys unique and
    /// moving the balance sum by exactly the difference.
    fn set_balance(&mut self, account: &Account, value: u64)
        requires
            keys_distinct(old(self).entries@),
        ensures
            keys_distinct(final(self).entries@),
            final(self).supply == old(self).supply,
            final(self).spec_balance(*account) == value,
            forall|b: Account| b != *account ==> final(self).spec_balance(b) == old(
                self,
            ).spec_balance(b),
            sum_amounts(final(self).entries@) == sum_amounts(old(self).entries@) - old(
                self,
            ).spec_balance(*account) + value,
    {
        let entry = LedgerEntry { account: *account, amount: value };
        match self.find_entry(account) {
            Some(i) => {
                proof {
                    lemma_balance_first_match(self.entries@, *account, i as int);
                    lemma_sum_update(self.entries@, i as int, entry);
                    assert forall|b: Account| b != *account implies balance_in(
                        self.entries@.update(i as int, entry),
                        b,
                    ) == balance_in(self.entries@, b) by {
                        lemma_balance_update_other(self.entries@, i as int, entry, b);
                    }
                    assert(keys_distinct(self.entries@.update(i as int, entry)));
                    lemma_balance_first_match(
                        self.entries@.update(i as int, entry),
                        *account,
                        i as int,
                    );
                }
                self.entries.set(i, entry);
            },
            None => {
                proof {
                    lemma_balance_absent(self.entries@, *account);
                    lemma_sum_push(self.entries@, entry);
                    assert forall|b: Account| b != *account implies balance_in(
                        self.entries@.push(entry),
                        b,
                    ) == balance_in(self.entries@, b) by {
                        lemma_balance_push_other(self.entries@, entry, b);
                    }
                    assert(keys_distinct(self.entries@.push(entry)));
                    lemma_balance_first_match(
                        self.entries@.push(entry),
                        *account,
                        self.entries@.len() as int,
                    );
                }
                self.entries.push(entry);
            },
        }
    }

    /// Moves `amount` from `from` to `to` atomically: the debit happens
    /// only if `from` holds at least `amount`, and then the credit always
    /// follows in the same call.  The supply never changes.
    pub fn transfer_from(&mut self, from: Account, to: Account, amount: u64) -> (r: Result<
        u64,
        TransferError,
    >)
        requires
            old(self).wf(),
        ensures
            final(self).wf(),
            final(self).supply == old(self).supply,
            old(self).spec_balance(from) < amount ==> (r == Err::<u64, TransferError>(
                TransferError::InsufficientFunds { balance: old(self).spec_balance(from) as u64 },
            ) && *final(self) == *old(self)),
            old(self).spec_balance(from) >= amount ==> {
                &&& r == Ok::<u64, TransferError>(0u64)
                &&& (from == to ==> forall|b: Account|
                    final(self).spec_balance(b) == old(self).spec_balance(b))
                &&& (from != to ==> {
                    &&& final(self).spec_balance(from) == old(self).spec_balance(from) - amount
                    &&& final(self).spec_balance(to) == old(self).spec_balance(to) + amount
                    &&& forall|b: Account|
                        b != from && b != to ==> final(self).spec_balance(b) == old(
                            self,
                        ).spec_balance(b)
                })
            },
    {
        let from_balance = self.balance_of(&from);
        if from_balance < amount {
            return Err(TransferError::InsufficientFunds { balance: from_balance });
        }
        self.set_balance(&from, from_balance - amount);
        let to_balance = self.balance_of(&to);
        proof {
            lemma_balance_le_sum(self.entries@, to);
        }
        self.set_balance(&to, to_balance + amount);
        Ok(0)
    }

    /// Caller-relative transfer: debits the caller's account (with the
    /// given subaccount) and credits `args.to` with `args.amount`.
    pub fn transfer(&mut self, caller: u64, args: TransferArgs) -> (r: Result<u64, TransferError>)
        requires
            old(self).wf(),
        ensures
            final(self).wf(),
            final(self).supply == old(self).supply,
            ({
                let from = account_of(caller, args.from_subaccount);
                &&& (old(self).spec_balance(from) < args.amount ==> (r == Err::<u64, TransferError>(
                    TransferError::InsufficientFunds {
                        balance: old(self).spec_balance(from) as u64,
                    },
                ) && *final(self) == *old(self)))
                &&& (old(self).spec_balance(from) >= args.amount ==> {
                    &&& r == Ok::<u64, TransferError>(0u64)
                    &&& (from == args.to ==> forall|b: Account|
                        final(self).spec_balance(b) == old(self).spec_balance(b))
                    &&& (from != args.to ==> {
                        &&& final(self).spec_balance(from) == old(self).spec_balance(from)
                            - args.amount
                        &&& final(self).spec_balance(args.to) == old(self).spec_balance(args.to)
                            + args.amount
                        &&& forall|b: Account|
                            b != from && b != args.to ==> final(self).spec_balance(b) == old(
                                self,
                            ).spec_balance(b)
                    })
                })
            }),
    {
        let from = Account { owner: caller, subaccount: args.from_subaccount };
        self.transfer_from(from, args.to, args.amount)
    }

    /// Mints `amount` into `to`, increasing the supply by the same amount.
    /// Only a member of the authority store may mint.
    pub fn mint(
        &mut self,
        authority: &AuthorityStore,
        caller: u64,
        to: Account,
        amount: u64,
    ) -> (r: Result<(), CoreError>)
        requires
            old(self).wf(),
        ensures
            final(self).wf(),
            !authority.spec_is_admin(caller) ==> (r == Err::<(), CoreError>(
                CoreError::NotAuthorized,
            ) && *final(self) == *old(self)),
            authority.spec_is_admin(caller) && old(self).supply + amount > u64::MAX ==> (r
                == Err::<(), CoreError>(CoreError::Overflow) && *final(self) == *old(self)),
            authority.spec_is_admin(caller) && old(self).supply + amount <= u64::MAX ==> {
                &&& r == Ok::<(), CoreError>(())
                &&& final(self).supply == old(self).supply + amount
                &&& final(self).spec_balance(to) == old(self).spec_balance(to) + amount
                &&& forall|b: Account|
                    b != to ==> final(self).spec_balance(b) == old(self).spec_balance(b)
            },
    {
        if !authority.is_admin(caller) {
            return Err(CoreError::NotAuthorized);
        }
        if amount > u64::MAX - self.supply {
            return Err(CoreError::Overflow);
        }
        let to_balance = self.balance_of(&to);
        proof {
            lemma_balance_le_sum(self.entries@, to);
        }
        self.set_balance(&to, to_balance + amount);
        self.supply = self.supply + amount;
        Ok(())
    }
}

/// Conservation of value: in every well-formed ledger the total supply is
/// exactly the sum of all account balances (escrowed funds sit in ordinary
/// holding accounts, so they are part of that sum).  `transfer_from` keeps
/// both sides fixed and `mint` raises both by the same amount, so the law
/// holds after any sequence of transfers and mints.
pub proof fn lemma_conservation(ledger: Ledger)
    requires
        ledger.wf(),
    ensures
        sum_amounts(ledger.entries@) == ledger.supply as int,
{
}

} // verus!
