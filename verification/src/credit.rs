//! Per-key prepaid credit ledger with exactly-once deduction.
//!
//! The ledger holds one integer balance per API key.  `deduct_credit`
//! is the read-check-decrement step of the admission pipeline: it
//! fails with `NotFound` for an unknown key, with `NoCredit` when the
//! balance is not positive (and then changes nothing), and otherwise
//! decrements the balance by exactly one.  The whole step works on
//! `&mut self`, so two deductions for the same key can never interleave
//! and a balance of one can be spent only once.
//!
//! A deployment whose balances live in an external store drives the
//! same decision logic through [`StoreLookup`], [`deduct_decision`]
//! and [`deduct_commit`]; the store call itself stays outside this
//! crate.

use crate::errors::Error;
use vstd::prelude::*;

verus! {

/// What the ledger decides for a deduction from balance map `m`, key `k`.
pub open spec fn deduct_result(m: Map<Seq<char>, i32>, k: Seq<char>) -> Result<(), Error> {
    if !m.contains_key(k) {
        Err(Error::NotFound)
    } else if m[k] <= 0 {
        Err(Error::NoCredit)
    } else {
        Ok(())
    }
}

/// The balances after a deduction from balance map `m`, key `k`: one
/// less for `k` when the deduction succeeds, unchanged otherwise.
pub open spec fn deduct_state(m: Map<Seq<char>, i32>, k: Seq<char>) -> Map<Seq<char>, i32> {
    if m.contains_key(k) && m[k] > 0 {
        m.insert(k, (m[k] - 1) as i32)
    } else {
        m
    }
}

struct Account {
    key: String,
    credit: i32,
}

/// The in-memory balance table.  Its mathematical content is the map
/// from key to balance given by [`CreditLedger::view`].
pub struct CreditLedger {
    accounts: Vec<Account>,
}

spec fn accounts_map(s: Seq<Account>) -> Map<Seq<char>, i32>
    decreases s.len(),
{
    if s.len() == 0 {
        Map::empty()
    } else {
        accounts_map(s.drop_last()).insert(s.last().key@, s.last().credit)
    }
}

spec fn accounts_unique(s: Seq<Account>) -> bool {
    forall|i: int, j: int| 0 <= i < j < s.len() ==> s[i].key@ != s[j].key@
}

proof fn lemma_accounts_map_contains(s: Seq<Account>)
    ensures
        forall|k: Seq<char>|
            accounts_map(s).contains_key(k) <==> exists|i: int|
                0 <= i < s.len() && s[i].key@ == k,
    decreases s.len(),
{
    if s.len() > 0 {
        lemma_accounts_map_contains(s.drop_last());
        assert forall|k: Seq<char>| accounts_map(s).contains_key(k) implies exists|i: int|
            0 <= i < s.len() && s[i].key@ == k by {
            if k == s.last().key@ {
                assert(s[s.len() - 1].key@ == k);
            } else {
                assert(accounts_map(s.drop_last()).contains_key(k));
                let i = choose|i: int| 0 <= i < s.drop_last().len() && s.drop_last()[i].key@ == k;
                assert(s.drop_last()[i] == s[i]);
                assert(s[i].key@ == k);
            }
        }
        assert forall|k: Seq<char>|
            (exists|i: int| 0 <= i < s.len() && s[i].key@ == k) implies accounts_map(
            s,
        ).contains_key(k) by {
            let i = choose|i: int| 0 <= i < s.len() && s[i].key@ == k;
            if i < s.len() - 1 {
                assert(s.drop_last()[i] == s[i]);
                assert(0 <= i < s.drop_last().len() && s.drop_last()[i].key@ == k);
                assert(accounts_map(s.drop_last()).contains_key(k));
            } else {
                assert(k == s.last().key@);
            }
        }
    }
}

proof fn lemma_accounts_map_index(s: Seq<Account>, i: int)
    requires
        accounts_unique(s),
        0 <= i < s.len(),
    ensures
        accounts_map(s).contains_key(s[i].key@),
        accounts_map(s)[s[i].key@] == s[i].credit,
    decreases s.len(),
{
    if i == s.len() - 1 {
    } else {
        lemma_accounts_map_index(s.drop_last(), i);
        assert(s.drop_last()[i] == s[i]);
        assert(s.last().key@ != s[i].key@);
    }
}

proof fn lemma_accounts_map_update(s: Seq<Account>, i: int, c: i32)
    requires
        accounts_unique(s),
        0 <= i < s.len(),
    ensures
        accounts_map(s.update(i, Account { key: s[i].key, credit: c })) == accounts_map(s).insert(
            s[i].key@,
            c,
        ),
    decreases s.len(),
{
    let s2 = s.update(i, Account { key: s[i].key, credit: c });
    if i == s.len() - 1 {
        assert(s2.drop_last() =~= s.drop_last());
        assert(accounts_map(s2) =~= accounts_map(s).insert(s[i].key@, c));
    } else {
        lemma_accounts_map_update(s.drop_last(), i, c);
        assert(s2.drop_last() =~= s.drop_last().update(i, Account { key: s[i].key, credit: c }));
        assert(s2.last() == s.last());
        assert(s.last().key@ != s[i].key@);
        assert(accounts_map(s2) =~= accounts_map(s).insert(s[i].key@, c));
    }
}

impl CreditLedger {
    /// The map from key to balance.
    pub closed spec fn view(&self) -> Map<Seq<char>, i32> {
        accounts_map(self.accounts@)
    }

    /// Internal consistency: one account per key.
    pub closed spec fn wf(&self) -> bool {
        accounts_unique(self.accounts@)
    }

    /// A ledger with no accounts.
    pub fn new() -> (r: CreditLedger)
        ensures
            r.wf(),
            r@ == Map::<Seq<char>, i32>::empty(),
    {
        CreditLedger { accounts: Vec::new() }
    }

    /// The position of `key` in the table, if present.
    fn find_account(accounts: &Vec<Account>, key: &str) -> (r: Option<usize>)
        ensures
            match r {
                Some(i) => i < accounts@.len() && accounts@[i as int].key@ == key@,
                None => forall|i: int| 0 <= i < accounts@.len() ==> accounts@[i].key@ != key@,
            },
    {
        let mut idx: usize = 0;
        let n = accounts.len();
        while idx < n
            invariant
                n == accounts@.len(),
                idx <= n,
                forall|i: int| 0 <= i < idx ==> accounts@[i].key@ != key@,
            decreases n - idx,
        {
            if crate::strutil::str_eq(accounts[idx].key.as_str(), key) {
                return Some(idx);
            }
            idx += 1;
        }
        None
    }

    /// Opens an account for `key` with balance `initial`; reports
    /// whether the key was new.  An existing account is left alone.
    pub fn create_account(&mut self, key: &str, initial: i32) -> (created: bool)
        requires
            old(self).wf(),
        ensures
            final(self).wf(),
            created == !old(self)@.contains_key(key@),
            final(self)@ == if created {
                old(self)@.insert(key@, initial)
            } else {
                old(self)@
            },
    {
        proof {
            lemma_accounts_map_contains(self.accounts@);
        }
        if let Some(_idx) = Self::find_account(&self.accounts, key) {
            false
        } else {
            self.accounts.push(Account { key: key.to_owned(), credit: initial });
            proof {
                assert(self.accounts@.drop_last() =~= old(self).accounts@);
                assert(self@ =~= old(self)@.insert(key@, initial));
            }
            true
        }
    }

    /// The current balance for `key`, if the key has an account.
    pub fn find_balance(&self, key: &str) -> (r: Option<i32>)
        requires
            self.wf(),
        ensures
            r == if self@.contains_key(key@) {
                Some(self@[key@])
            } else {
                None::<i32>
            },
    {
        proof {
            lemma_accounts_map_contains(self.accounts@);
        }
        if let Some(idx) = Self::find_account(&self.accounts, key) {
            proof {
                lemma_accounts_map_index(self.accounts@, idx as int);
            }
            Some(self.accounts[idx].credit)
        } else {
            None
        }
    }

    /// Adds `amount` to the balance for `key`.  A missing key changes
    /// nothing and still succeeds; a sum outside the balance range is
    /// rejected without change.
    pub fn add_credit(&mut self, key: &str, amount: i32) -> (r: Result<(), Error>)
        requires
            old(self).wf(),
        ensures
            final(self).wf(),
            !old(self)@.contains_key(key@) ==> r == Ok::<(), Error>(()) && final(self)@ == old(
                self,
            )@,
            old(self)@.contains_key(key@) ==> {
                let sum = old(self)@[key@] + amount;
                if i32::MIN <= sum <= i32::MAX {
                    r == Ok::<(), Error>(()) && final(self)@ == old(self)@.insert(
                        key@,
                        sum as i32,
                    )
                } else {
                    r == Err::<(), Error>(Error::InvalidParameter) && final(self)@ == old(self)@
                }
            },
    {
        proof {
            lemma_accounts_map_contains(self.accounts@);
        }
        if let Some(idx) = Self::find_account(&self.accounts, key) {
            proof {
                lemma_accounts_map_index(self.accounts@, idx as int);
            }
            let cur = self.accounts[idx].credit;
            if let Some(sum) = cur.checked_add(amount) {
                proof {
                    lemma_accounts_map_update(self.accounts@, idx as int, sum);
                }
                self.accounts[idx] = Account { key: self.accounts[idx].key.clone(), credit: sum };
                Ok(())
            } else {
                Err(Error::InvalidParameter)
            }
        } else {
            Ok(())
        }
    }

    /// The store primitive behind deduction: decrements the balance
    /// for `key` exactly when it is positive, and reports whether it
    /// did.
    pub fn conditional_decrement(&mut self, key: &str) -> (decremented: bool)
        requires
            old(self).wf(),
        ensures
            final(self).wf(),
            decremented == (old(self)@.contains_key(key@) && old(self)@[key@] > 0),
            final(self)@ == deduct_state(old(self)@, key@),
    {
        proof {
            lemma_accounts_map_contains(self.accounts@);
        }
        if let Some(idx) = Self::find_account(&self.accounts, key) {
            proof {
                lemma_accounts_map_index(self.accounts@, idx as int);
            }
            let cur = self.accounts[idx].credit;
            if cur > 0 {
                proof {
                    lemma_accounts_map_update(self.accounts@, idx as int, (cur - 1) as i32);
                }
                self.accounts[idx] = Account {
                    key: self.accounts[idx].key.clone(),
                    credit: cur - 1,
                };
                true
            } else {
                false
            }
        } else {
            false
        }
    }

    /// The admission pipeline's deduction step: `NotFound` for an
    /// unknown key, `NoCredit` (and no change) for an exhausted
    /// balance, otherwise one unit deducted.
    pub fn deduct_credit(&mut self, key: &str) -> (r: Result<(), Error>)
        requires
            old(self).wf(),
        ensures
            final(self).wf(),
            r == deduct_result(old(self)@, key@),
            final(self)@ == deduct_state(old(self)@, key@),
    {
        match self.find_balance(key) {
            None => Err(Error::NotFound),
            Some(credit) => {
                if credit > 0 {
                    let decremented = self.conditional_decrement(key);
                    Ok(())
                } else {
                    Err(Error::NoCredit)
                }
            },
        }
    }
}

/// A balance of one can be spent exactly once: of two consecutive
/// deductions for the same key, the first succeeds and drops the
/// balance to zero, the second fails with `NoCredit` and changes
/// nothing.
pub proof fn lemma_no_double_spend(m: Map<Seq<char>, i32>, k: Seq<char>)
    requires
        m.contains_key(k),
        m[k] == 1,
    ensures
        deduct_result(m, k) == Ok::<(), Error>(()),
        deduct_state(m, k)[k] == 0,
        deduct_result(deduct_state(m, k), k) == Err::<(), Error>(Error::NoCredit),
        deduct_state(deduct_state(m, k), k) == deduct_state(m, k),
{
}

/// What the ledger rules say of a balance looked up in an external
/// store, before any decrement is attempted.
#[derive(Clone, Copy, Debug, PartialEq, Eq, Structural)]
pub enum StoreLookup {
    /// The store could not be reached (a transport failure, never a
    /// logical one).
    Unavailable,
    /// The store has no record for the key.
    Missing,
    /// The store holds this balance for the key.
    Balance(i32),
}

/// The deduction decision for an externally stored balance: transport
/// failure, unknown key and exhausted balance are told apart exactly
/// as the in-memory ledger tells them apart.
pub fn deduct_decision(lookup: &StoreLookup) -> (r: Result<(), Error>)
    ensures
        r == match *lookup {
            StoreLookup::Unavailable => Err::<(), Error>(Error::ConnectionFailed),
            StoreLookup::Missing => Err::<(), Error>(Error::NotFound),
            StoreLookup::Balance(b) => if b <= 0 {
                Err::<(), Error>(Error::NoCredit)
            } else {
                Ok::<(), Error>(())
            },
        },
{
    match *lookup {
        StoreLookup::Unavailable => Err(Error::ConnectionFailed),
        StoreLookup::Missing => Err(Error::NotFound),
        StoreLookup::Balance(b) => if b <= 0 {
            Err(Error::NoCredit)
        } else {
            Ok(())
        },
    }
}

/// The outcome of an external conditional decrement: a store that
/// reports no row decremented had no positive balance left, which is
/// `NoCredit`.
pub fn deduct_commit(decremented: bool) -> (r: Result<(), Error>)
    ensures
        r == if decremented {
            Ok::<(), Error>(())
        } else {
            Err::<(), Error>(Error::NoCredit)
        },
{
    if decremented {
        Ok(())
    } else {
        Err(Error::NoCredit)
    }
}

} // verus!
