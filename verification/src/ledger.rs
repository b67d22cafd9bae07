use vstd::prelude::*;

use crate::error::Error;

verus! {

/// One account row: an account name and its token balance.
pub struct AccountEntry {
    pub id: String,
    pub balance: u128,
}

/// The account-balance store: a durable account-to-balance map with a total
/// supply. Generic public transfers are intentionally disabled; balances move
/// only through the internal `transfer` primitive that the credit engine and
/// the donation distributor call.
pub struct Ledger {
    pub accounts: Vec<AccountEntry>,
    pub total: u128,
}

/// No two rows name the same account.
pub open spec fn distinct_accounts(s: Seq<AccountEntry>) -> bool {
    forall|i: int, j: int| 0 <= i < j < s.len() ==> s[i].id@ != s[j].id@
}

/// The sum of all balances in `s`.
pub open spec fn spec_sum(s: Seq<AccountEntry>) -> int
    decreases s.len(),
{
    if s.len() == 0 {
        0
    } else {
        spec_sum(s.drop_last()) + s.last().balance
    }
}

/// Whether `a` names a registered account of `s`.
pub open spec fn spec_registered(s: Seq<AccountEntry>, a: Seq<char>) -> bool
    decreases s.len(),
{
    if s.len() == 0 {
        false
    } else {
        s.last().id@ == a || spec_registered(s.drop_last(), a)
    }
}

/// The balance of `a` in `s`; zero for an unregistered account.
pub open spec fn spec_balance(s: Seq<AccountEntry>, a: Seq<char>) -> u128
    decreases s.len(),
{
    if s.len() == 0 {
        0
    } else if s.last().id@ == a {
        s.last().balance
    } else {
        spec_balance(s.drop_last(), a)
    }
}

impl Ledger {
    /// Rows name distinct accounts and the recorded total supply is exactly
    /// the sum of all balances.
    pub open spec fn wf(&self) -> bool {
        &&& distinct_accounts(self.accounts@)
        &&& spec_sum(self.accounts@) == self.total
    }

    /// Whether `a` is a registered account.
    pub open spec fn spec_is_registered(&self, a: Seq<char>) -> bool {
        spec_registered(self.accounts@, a)
    }

    /// The balance of `a`; zero for an unregistered account.
    pub open spec fn spec_balance_of(&self, a: Seq<char>) -> u128 {
        spec_balance(self.accounts@, a)
    }

    /// An empty ledger: no accounts, no supply.
    pub fn new() -> (r: Ledger)
        ensures
            r.wf(),
            r.accounts@.len() == 0,
            r.total == 0,
    {
        Ledger { accounts: Vec::new(), total: 0 }
    }

    /// The position of account `a`, if registered.
    fn index_of(&self, a: &String) -> (r: Option<usize>)
        ensures
            match r {
                Some(i) => i < self.accounts@.len() && self.accounts@[i as int].id@ == a@,
                None => !self.spec_is_registered(a@),
            },
    {
        let n = self.accounts.len();
        let mut i: usize = 0;
        while i < n
            invariant
                n == self.accounts@.len(),
                i <= n,
                forall|j: int| 0 <= j < i ==> self.accounts@[j].id@ != a@,
            decreases n - i,
        {
            if self.accounts[i].id == *a {
                return Some(i);
            }
            i = i + 1;
        }
        proof {
            lemma_no_match_means_unregistered(self.accounts@, a@);
        }
        None
    }

    /// True exactly when `a` is a registered account.
    pub fn is_registered(&self, a: &String) -> (r: bool)
        ensures
            r == self.spec_is_registered(a@),
    {
        let idx = self.index_of(a);
        proof {
            if let Some(i) = idx {
                lemma_match_means_registered(self.accounts@, a@, i as int);
            }
        }
        idx.is_some()
    }

    /// The balance of `a`, zero when unregistered.
    pub fn balance_of(&self, a: &String) -> (r: u128)
        requires
            self.wf(),
        ensures
            r == self.spec_balance_of(a@),
    {
        match self.index_of(a) {
            Some(i) => {
                proof {
                    lemma_balance_at_index(self.accounts@, a@, i as int);
                }
                self.accounts[i].balance
            },
            None => {
                proof {
                    lemma_unregistered_balance_zero(self.accounts@, a@);
                }
                0
            },
        }
    }

    /// The total supply: the sum of all balances.
    pub fn total_supply(&self) -> (r: u128)
        ensures
            r == self.total,
    {
        self.total
    }

    /// Registers `a` with a zero balance; a no-op when already registered.
    pub fn register_account(&mut self, a: &String)
        requires
            old(self).wf(),
        ensures
            final(self).wf(),
            final(self).total == old(self).total,
            final(self).spec_is_registered(a@),
            forall|x: Seq<char>| final(self).spec_is_registered(x) == (
            old(self).spec_is_registered(x) || x == a@),
            forall|x: Seq<char>| final(self).spec_balance_of(x) == old(self).spec_balance_of(x),
    {
        match self.index_of(a) {
            Some(i) => {
                proof {
                    lemma_match_means_registered(self.accounts@, a@, i as int);
                }
            },
            None => {
                let ghost s0 = self.accounts@;
                let entry = AccountEntry { id: a.clone(), balance: 0 };
                self.accounts.push(entry);
                proof {
                    assert(self.accounts@.drop_last() =~= s0);
                    lemma_unregistered_balance_zero(s0, a@);
                    assert forall|x: Seq<char>|
                        self.spec_balance_of(x) == spec_balance(s0, x) by {
                        if x == a@ {
                            lemma_unregistered_balance_zero(s0, a@);
                        }
                    }
                    assert forall|i: int, j: int|
                        0 <= i < j < self.accounts@.len() implies self.accounts@[i].id@
                        != self.accounts@[j].id@ by {
                        if j == self.accounts@.len() - 1 {
                            lemma_match_means_registered(s0, s0[i].id@, i);
                        }
                    }
                }
            },
        }
    }

    /// Adds `amount` to the balance of `a` and to the total supply. Fails
    /// with `AccountingError` when `a` is unregistered or the total supply
    /// would overflow; a failed call changes nothing.
    pub fn deposit(&mut self, a: &String, amount: u128) -> (r: Result<(), Error>)
        requires
            old(self).wf(),
        ensures
            final(self).wf(),
            r is Ok <==> (old(self).spec_is_registered(a@) && old(self).total + amount
                <= u128::MAX),
            r is Err ==> r == Result::<(), Error>::Err(Error::AccountingError) && *final(self)
                == *old(self),
            r is Ok ==> {
                &&& final(self).total == old(self).total + amount
                &&& forall|x: Seq<char>|
                    final(self).spec_is_registered(x) == old(self).spec_is_registered(x)
                &&& forall|x: Seq<char>|
                    final(self).spec_balance_of(x) == if x == a@ {
                        old(self).spec_balance_of(x) + amount
                    } else {
                        old(self).spec_balance_of(x) as int
                    }
            },
    {
        match self.index_of(a) {
            Some(i) => {
                proof {
                    lemma_match_means_registered(self.accounts@, a@, i as int);
                    lemma_balance_at_index(self.accounts@, a@, i as int);
                    lemma_entry_le_sum(self.accounts@, i as int);
                }
                match self.total.checked_add(amount) {
                    Some(nt) => {
                        let ghost s0 = self.accounts@;
                        let nb = self.accounts[i].balance + amount;
                        let id = self.accounts[i].id.clone();
                        self.accounts[i] = AccountEntry { id, balance: nb };
                        self.total = nt;
                        proof {
                            lemma_sum_update(s0, i as int, (AccountEntry {
                                id: s0[i as int].id,
                                balance: nb,
                            }));
                            assert(self.accounts@ =~= s0.update(i as int, (AccountEntry {
                                id: s0[i as int].id,
                                balance: nb,
                            })));
                            assert forall|x: Seq<char>|
                                self.spec_is_registered(x) == spec_registered(s0, x) by {
                                lemma_update_entry(s0, i as int, nb, x);
                            }
                            assert forall|x: Seq<char>|
                                self.spec_balance_of(x) == (if x == a@ {
                                spec_balance(s0, x) + amount
                            } else {
                                spec_balance(s0, x) as int
                            }) by {
                                lemma_update_entry(s0, i as int, nb, x);
                                if x == a@ {
                                    lemma_balance_at_index(s0, a@, i as int);
                                }
                            }
                        }
                        Ok(())
                    },
                    None => Err(Error::AccountingError),
                }
            },
            None => Err(Error::AccountingError),
        }
    }
}

impl Ledger {
    /// Moves `amount` from `from` to `to`. This is the internal, privileged
    /// transfer primitive; it fails with `AccountingError` when the two
    /// accounts coincide, either is unregistered, or `from` cannot cover the
    /// amount. A failed call changes nothing; the total supply never changes.
    pub fn transfer(&mut self, from: &String, to: &String, amount: u128) -> (r: Result<(), Error>)
        requires
            old(self).wf(),
        ensures
            final(self).wf(),
            r is Ok <==> (from@ != to@ && old(self).spec_is_registered(from@) && old(
            self).spec_is_registered(to@) && old(self).spec_balance_of(from@) >= amount),
            r is Err ==> r == Result::<(), Error>::Err(Error::AccountingError) && *final(self)
                == *old(self),
            final(self).total == old(self).total,
            r is Ok ==> forall|x: Seq<char>|
                final(self).spec_is_registered(x) == old(self).spec_is_registered(x),
            r is Ok ==> forall|x: Seq<char>|
                final(self).spec_balance_of(x) == (if x == from@ {
                    old(self).spec_balance_of(x) - amount
                } else if x == to@ {
                    old(self).spec_balance_of(x) + amount
                } else {
                    old(self).spec_balance_of(x) as int
                }),
    {
        if *from == *to {
            return Err(Error::AccountingError);
        }
        let i = match self.index_of(from) {
            Some(i) => i,
            None => {
                return Err(Error::AccountingError);
            },
        };
        let j = match self.index_of(to) {
            Some(j) => j,
            None => {
                return Err(Error::AccountingError);
            },
        };
        proof {
            lemma_match_means_registered(self.accounts@, from@, i as int);
            lemma_match_means_registered(self.accounts@, to@, j as int);
            lemma_balance_at_index(self.accounts@, from@, i as int);
            lemma_balance_at_index(self.accounts@, to@, j as int);
            lemma_two_entries_le_sum(self.accounts@, i as int, j as int);
        }
        if self.accounts[i].balance < amount {
            return Err(Error::AccountingError);
        }
        let ghost s0 = self.accounts@;
        let nb_from = self.accounts[i].balance - amount;
        let id_from = self.accounts[i].id.clone();
        self.accounts[i] = AccountEntry { id: id_from, balance: nb_from };
        let ghost s1 = self.accounts@;
        let nb_to = self.accounts[j].balance + amount;
        let id_to = self.accounts[j].id.clone();
        self.accounts[j] = AccountEntry { id: id_to, balance: nb_to };
        proof {
            assert(s1 =~= s0.update(i as int, (AccountEntry {
                id: s0[i as int].id,
                balance: nb_from,
            })));
            assert(self.accounts@ =~= s1.update(j as int, (AccountEntry {
                id: s1[j as int].id,
                balance: nb_to,
            })));
            lemma_sum_update(s0, i as int, (AccountEntry {
                id: s0[i as int].id,
                balance: nb_from,
            }));
            lemma_sum_update(s1, j as int, (AccountEntry {
                id: s1[j as int].id,
                balance: nb_to,
            }));
            assert forall|x: Seq<char>|
                self.spec_is_registered(x) == spec_registered(s0, x) by {
                lemma_update_entry(s0, i as int, nb_from, x);
                lemma_update_entry(s1, j as int, nb_to, x);
            }
            assert forall|x: Seq<char>|
                self.spec_balance_of(x) == (if x == from@ {
                spec_balance(s0, x) - amount
            } else if x == to@ {
                spec_balance(s0, x) + amount
            } else {
                spec_balance(s0, x) as int
            }) by {
                lemma_update_entry(s0, i as int, nb_from, x);
                lemma_update_entry(s1, j as int, nb_to, x);
                if x == from@ {
                    lemma_balance_at_index(s0, from@, i as int);
                } else if x == to@ {
                    lemma_update_entry(s0, i as int, nb_from, to@);
                    lemma_balance_at_index(s1, to@, j as int);
                }
            }
        }
        Ok(())
    }
}

/// If no row names `a`, then `a` is unregistered.
proof fn lemma_no_match_means_unregistered(s: Seq<AccountEntry>, a: Seq<char>)
    requires
        forall|j: int| 0 <= j < s.len() ==> s[j].id@ != a,
    ensures
        !spec_registered(s, a),
    decreases s.len(),
{
    if s.len() > 0 {
        lemma_no_match_means_unregistered(s.drop_last(), a);
    }
}

/// If the row at `i` names `a`, then `a` is registered.
proof fn lemma_match_means_registered(s: Seq<AccountEntry>, a: Seq<char>, i: int)
    requires
        0 <= i < s.len(),
        s[i].id@ == a,
    ensures
        spec_registered(s, a),
    decreases s.len(),
{
    if i < s.len() - 1 {
        lemma_match_means_registered(s.drop_last(), a, i);
    }
}

/// An unregistered account has balance zero.
pub proof fn lemma_unregistered_balance_zero(s: Seq<AccountEntry>, a: Seq<char>)
    requires
        !spec_registered(s, a),
    ensures
        spec_balance(s, a) == 0,
    decreases s.len(),
{
    if s.len() > 0 {
        lemma_unregistered_balance_zero(s.drop_last(), a);
    }
}

/// With distinct accounts, the balance of the account named by row `i` is
/// that row's balance.
pub proof fn lemma_balance_at_index(s: Seq<AccountEntry>, a: Seq<char>, i: int)
    requires
        distinct_accounts(s),
        0 <= i < s.len(),
        s[i].id@ == a,
    ensures
        spec_registered(s, a),
        spec_balance(s, a) == s[i].balance,
    decreases s.len(),
{
    if i < s.len() - 1 {
        lemma_balance_at_index(s.drop_last(), a, i);
    }
}

/// Every single balance is at most the sum of all balances.
pub proof fn lemma_entry_le_sum(s: Seq<AccountEntry>, i: int)
    requires
        0 <= i < s.len(),
    ensures
        s[i].balance <= spec_sum(s),
    decreases s.len(),
{
    lemma_sum_nonneg(s.drop_last());
    if i < s.len() - 1 {
        lemma_entry_le_sum(s.drop_last(), i);
    }
}

/// A sum of balances is never negative.
pub proof fn lemma_sum_nonneg(s: Seq<AccountEntry>)
    ensures
        spec_sum(s) >= 0,
    decreases s.len(),
{
    if s.len() > 0 {
        lemma_sum_nonneg(s.drop_last());
    }
}

/// Any one account's balance is at most the sum of all balances.
pub proof fn lemma_balance_le_sum(s: Seq<AccountEntry>, a: Seq<char>)
    ensures
        spec_balance(s, a) <= spec_sum(s),
    decreases s.len(),
{
    if s.len() > 0 {
        lemma_sum_nonneg(s.drop_last());
        lemma_balance_le_sum(s.drop_last(), a);
    }
}

/// Two distinct balances together are at most the sum of all balances.
pub proof fn lemma_two_entries_le_sum(s: Seq<AccountEntry>, i: int, j: int)
    requires
        0 <= i < s.len(),
        0 <= j < s.len(),
        i != j,
    ensures
        s[i].balance + s[j].balance <= spec_sum(s),
    decreases s.len(),
{
    let lo = if i < j {
        i
    } else {
        j
    };
    let hi = if i < j {
        j
    } else {
        i
    };
    if hi == s.len() - 1 {
        lemma_entry_le_sum(s.drop_last(), lo);
    } else {
        lemma_two_entries_le_sum(s.drop_last(), i, j);
    }
}

/// Replacing the balance of row `i` changes the sum by the difference.
pub proof fn lemma_sum_update(s: Seq<AccountEntry>, i: int, e: AccountEntry)
    requires
        0 <= i < s.len(),
    ensures
        spec_sum(s.update(i, e)) == spec_sum(s) - s[i].balance + e.balance,
    decreases s.len(),
{
    if i == s.len() - 1 {
        assert(s.update(i, e).drop_last() =~= s.drop_last());
    } else {
        assert(s.update(i, e).drop_last() =~= s.drop_last().update(i, e));
        lemma_sum_update(s.drop_last(), i, e);
    }
}

/// Replacing the balance of row `i` (same account name) moves exactly that
/// account's balance and keeps registration and distinctness intact.
pub proof fn lemma_update_entry(s: Seq<AccountEntry>, i: int, nb: u128, x: Seq<char>)
    requires
        distinct_accounts(s),
        0 <= i < s.len(),
    ensures
        distinct_accounts(s.update(i, (AccountEntry { id: s[i].id, balance: nb }))),
        spec_registered(s.update(i, (AccountEntry { id: s[i].id, balance: nb })), x)
            == spec_registered(s, x),
        spec_balance(s.update(i, (AccountEntry { id: s[i].id, balance: nb })), x) == if x
            == s[i].id@ {
            nb
        } else {
            spec_balance(s, x)
        },
    decreases s.len(),
{
    let s2 = s.update(i, (AccountEntry { id: s[i].id, balance: nb }));
    if i == s.len() - 1 {
        assert(s2.drop_last() =~= s.drop_last());
        if x == s[i].id@ && spec_registered(s.drop_last(), x) {
            lemma_registered_has_index(s.drop_last(), x);
        }
        if x == s[i].id@ {
            lemma_no_dup_tail(s, x);
        }
    } else {
        assert(s2.drop_last() =~= s.drop_last().update(i, (AccountEntry {
            id: s[i].id,
            balance: nb,
        })));
        lemma_update_entry(s.drop_last(), i, nb, x);
    }
}

/// A registered account has a row naming it.
pub proof fn lemma_registered_has_index(s: Seq<AccountEntry>, a: Seq<char>)
    requires
        spec_registered(s, a),
    ensures
        exists|i: int| 0 <= i < s.len() && s[i].id@ == a,
    decreases s.len(),
{
    if s.last().id@ == a {
        assert(s[s.len() - 1].id@ == a);
    } else {
        lemma_registered_has_index(s.drop_last(), a);
        let i = choose|i: int| 0 <= i < s.drop_last().len() && s.drop_last()[i].id@ == a;
        assert(s[i].id@ == a);
    }
}

/// With distinct accounts, the account named by the last row is not
/// registered among the earlier rows.
pub proof fn lemma_no_dup_tail(s: Seq<AccountEntry>, a: Seq<char>)
    requires
        distinct_accounts(s),
        s.len() > 0,
        s.last().id@ == a,
    ensures
        !spec_registered(s.drop_last(), a),
        spec_balance(s, a) == s.last().balance,
{
    if spec_registered(s.drop_last(), a) {
        lemma_registered_has_index(s.drop_last(), a);
    }
}

} // verus!
