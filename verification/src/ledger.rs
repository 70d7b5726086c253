//! Internal model of the native ledger: per-account free balances with a
//! single aggregate freeze per account, consumed by the engine through the
//! narrow inspect / set-freeze surface below.
//!
//! The model enforces that an account is never frozen beyond its free
//! balance and that the sum of all free balances (the issuance) fits in a
//! `u128`; both facts feed the engine's conservation proofs.

use vstd::prelude::*;

use crate::seq_facts::{distinct_keys, find_by, sum_by, lemma_find_by_first, lemma_find_by_none,
    lemma_find_by_some, lemma_find_by_push, lemma_find_by_unique, lemma_sum_by_push,
    lemma_sum_by_update, lemma_sum_by_nonneg, lemma_sum_by_concat, vec_update};

verus! {

/// One ledger account: its owner, free balance, and frozen amount.
#[derive(Clone, Copy, Debug, PartialEq, Eq, Structural)]
pub struct AccountRecord {
    /// The account owner.
    pub who: u64,
    /// The free balance of the account.
    pub free: u128,
    /// The amount of the free balance locked by the engine.
    pub frozen: u128,
}

/// The ledger: a flat list of accounts with pairwise distinct owners.
pub struct Ledger {
    /// Minimum balance an operation must leave untouched on an account.
    pub existential_deposit: u128,
    /// The accounts, keyed by owner.
    pub accounts: Vec<AccountRecord>,
}

/// Key function of the account list.
pub open spec fn acct_key() -> spec_fn(AccountRecord) -> u64 {
    |a: AccountRecord| a.who
}

/// Match on a given owner.
pub open spec fn acct_match(who: u64) -> spec_fn(AccountRecord) -> bool {
    |a: AccountRecord| a.who == who
}

/// The account of `who`, if any.
pub open spec fn acct_of(s: Seq<AccountRecord>, who: u64) -> Option<AccountRecord> {
    find_by(s, acct_match(who))
}

/// Free balance of `who`; zero for an absent account.
pub open spec fn free_of(s: Seq<AccountRecord>, who: u64) -> int {
    match acct_of(s, who) {
        Some(a) => a.free as int,
        None => 0,
    }
}

/// Frozen amount of `who`; zero for an absent account.
pub open spec fn frozen_of(s: Seq<AccountRecord>, who: u64) -> int {
    match acct_of(s, who) {
        Some(a) => a.frozen as int,
        None => 0,
    }
}

/// Weight function summing free balances.
pub open spec fn free_w() -> spec_fn(AccountRecord) -> int {
    |a: AccountRecord| a.free as int
}

/// Total issuance: the sum of all free balances.
pub open spec fn issuance_of(s: Seq<AccountRecord>) -> int {
    sum_by(s, free_w())
}

/// What `who` can spend: the free balance less whatever must stay put (the
/// frozen amount or the existential deposit, whichever is larger), floored
/// at zero.
pub open spec fn reducible_of(s: Seq<AccountRecord>, ed: u128, who: u64) -> int {
    let f = free_of(s, who);
    let fr = frozen_of(s, who);
    let untouchable = if fr > ed { fr } else { ed as int };
    if f > untouchable {
        f - untouchable
    } else {
        0
    }
}

impl Ledger {
    /// Owners are pairwise distinct, no account is frozen beyond its free
    /// balance, and the issuance fits in a `u128`.
    pub open spec fn wf(self) -> bool {
        &&& distinct_keys(self.accounts@, acct_key())
        &&& forall|i: int| 0 <= i < self.accounts@.len()
            ==> (#[trigger] self.accounts@[i]).frozen <= self.accounts@[i].free
        &&& issuance_of(self.accounts@) <= u128::MAX
    }

    /// An empty ledger.
    pub fn new(existential_deposit: u128) -> (r: Ledger)
        ensures
            r.wf(),
            r.existential_deposit == existential_deposit,
            r.accounts@ =~= Seq::<AccountRecord>::empty(),
    {
        Ledger { existential_deposit, accounts: Vec::new() }
    }

    /// Index of the account of `who`, if present.
    fn find_account(&self, who: u64) -> (r: Option<usize>)
        ensures
            (match r {
                Some(i) => i < self.accounts@.len() && self.accounts@[i as int].who == who
                    && acct_of(self.accounts@, who) == Some(self.accounts@[i as int]),
                None => acct_of(self.accounts@, who) is None
                    && forall|j: int| 0 <= j < self.accounts@.len()
                        ==> (#[trigger] self.accounts@[j]).who != who,
            }),
    {
        let s = Ghost(self.accounts@);
        let n = self.accounts.len();
        let mut i: usize = 0;
        while i < n
            invariant
                i <= n,
                n == s@.len(),
                s@ == self.accounts@,
                forall|j: int| 0 <= j < i ==> (#[trigger] s@[j]).who != who,
            decreases n - i,
        {
            if self.accounts[i].who == who {
                proof {
                    lemma_find_by_first(s@, acct_match(who), i as int);
                }
                return Some(i);
            }
            i += 1;
        }
        proof {
            lemma_find_by_none(s@, acct_match(who));
        }
        None
    }

    /// The total issuance as an executable value.
    pub fn total_issuance(&self) -> (r: u128)
        requires
            self.wf(),
        ensures
            r as int == issuance_of(self.accounts@),
    {
        let s = Ghost(self.accounts@);
        let n = self.accounts.len();
        let mut acc: u128 = 0;
        let mut i: usize = 0;
        proof {
            assert(s@.take(0) =~= Seq::<AccountRecord>::empty());
        }
        while i < n
            invariant
                i <= n,
                n == s@.len(),
                s@ == self.accounts@,
                self.wf(),
                acc as int == sum_by(s@.take(i as int), free_w()),
            decreases n - i,
        {
            proof {
                assert(s@.take(i as int).push(s@[i as int]) =~= s@.take(i + 1));
                lemma_sum_by_push(s@.take(i as int), free_w(), s@[i as int]);
                assert(s@.take(i + 1) + s@.skip(i + 1) =~= s@);
                lemma_sum_by_concat(s@.take(i + 1), s@.skip(i + 1), free_w());
                assert(forall|j: int| 0 <= j < s@.skip(i + 1).len()
                    ==> #[trigger] s@.skip(i + 1)[j] == s@[j + i + 1]);
                lemma_sum_by_nonneg(s@.skip(i + 1), free_w());
            }
            acc = acc + self.accounts[i].free;
            i += 1;
        }
        proof {
            assert(s@.take(n as int) =~= s@);
        }
        acc
    }

    /// Endow a fresh account with `amount`.  Returns `false`, changing
    /// nothing, if the account already exists or the issuance would
    /// overflow.
    pub fn set_balance(&mut self, who: u64, amount: u128) -> (r: bool)
        requires
            old(self).wf(),
        ensures
            final(self).wf(),
            final(self).existential_deposit == old(self).existential_deposit,
            r == (acct_of(old(self).accounts@, who) is None
                && issuance_of(old(self).accounts@) + amount <= u128::MAX),
            !r ==> *final(self) == *old(self),
            r ==> final(self).accounts@ == old(self).accounts@.push(
                AccountRecord { who, free: amount, frozen: 0 },
            ),
            free_of(final(self).accounts@, who) == (if r {
                amount as int
            } else {
                free_of(old(self).accounts@, who)
            }),
            frozen_of(final(self).accounts@, who) == frozen_of(old(self).accounts@, who),
            forall|w: u64| w != who ==> free_of(final(self).accounts@, w)
                == free_of(old(self).accounts@, w)
                && frozen_of(final(self).accounts@, w) == frozen_of(old(self).accounts@, w),
            issuance_of(final(self).accounts@)
                == issuance_of(old(self).accounts@) + (if r { amount as int } else { 0 }),
    {
        match self.find_account(who) {
            Some(_) => false,
            None => {
                let issuance = self.total_issuance();
                if amount > u128::MAX - issuance {
                    false
                } else {
                    let a = AccountRecord { who, free: amount, frozen: 0 };
                    self.accounts.push(a);
                    proof {
                        let s0 = old(self).accounts@;
                        lemma_sum_by_push(s0, free_w(), a);
                        assert forall|w: u64| acct_of(s0.push(a), w) == (if w == who {
                            Some(a)
                        } else {
                            acct_of(s0, w)
                        }) by {
                            lemma_find_by_push(s0, acct_match(w), a);
                        }
                        assert forall|i: int, j: int|
                            0 <= i < j < s0.push(a).len() implies
                            acct_key()(s0.push(a)[i]) != acct_key()(s0.push(a)[j]) by {
                            if j == s0.len() {
                                assert(s0.push(a)[i] == s0[i]);
                            }
                        }
                    }
                    true
                }
            },
        }
    }

    /// Free balance of `who`.
    pub fn free_balance(&self, who: u64) -> (r: u128)
        ensures
            r as int == free_of(self.accounts@, who),
    {
        match self.find_account(who) {
            Some(i) => self.accounts[i].free,
            None => 0,
        }
    }

    /// Frozen amount of `who`.
    pub fn balance_frozen(&self, who: u64) -> (r: u128)
        ensures
            r as int == frozen_of(self.accounts@, who),
    {
        match self.find_account(who) {
            Some(i) => self.accounts[i].frozen,
            None => 0,
        }
    }

    /// What `who` can still spend while preserving the account.
    pub fn reducible_balance(&self, who: u64) -> (r: u128)
        ensures
            r as int == reducible_of(self.accounts@, self.existential_deposit, who),
    {
        let ed = self.existential_deposit;
        match self.find_account(who) {
            Some(i) => {
                let a = self.accounts[i];
                let untouchable = if a.frozen > ed {
                    a.frozen
                } else {
                    ed
                };
                a.free.saturating_sub(untouchable)
            },
            None => 0,
        }
    }

    /// Set the aggregate freeze of `who` to exactly `amount`.
    ///
    /// The engine only ever freezes what the account can cover, so the
    /// requested amount must not exceed the free balance; for an absent
    /// account that balance is zero and only a zero freeze is permitted.
    pub fn set_freeze(&mut self, who: u64, amount: u128)
        requires
            old(self).wf(),
            amount as int <= free_of(old(self).accounts@, who),
        ensures
            final(self).wf(),
            final(self).existential_deposit == old(self).existential_deposit,
            frozen_of(final(self).accounts@, who) == amount,
            forall|w: u64| free_of(final(self).accounts@, w) == free_of(old(self).accounts@, w),
            forall|w: u64| w != who ==> frozen_of(final(self).accounts@, w)
                == frozen_of(old(self).accounts@, w),
            issuance_of(final(self).accounts@) == issuance_of(old(self).accounts@),
    {
        match self.find_account(who) {
            None => {
            },
            Some(i) => {
                let mut a = self.accounts[i];
                a.frozen = amount;
                vec_update(&mut self.accounts, i, a);
                proof {
                    let s0 = old(self).accounts@;
                    let s1 = self.accounts@;
                    lemma_sum_by_update(s0, i as int, free_w(), a);
                    assert forall|i2: int, j2: int|
                        0 <= i2 < j2 < s1.len() implies
                        acct_key()(s1[i2]) != acct_key()(s1[j2]) by {
                        assert(s1[i2].who == s0[i2].who && s1[j2].who == s0[j2].who);
                    }
                    assert forall|w: u64| acct_of(s1, w) == (if w == who {
                        Some(a)
                    } else {
                        acct_of(s0, w)
                    }) by {
                        lemma_acct_of_update(s0, i as int, a, w);
                    }
                }
            },
        }
    }
}

/// In a ledger where no account is frozen beyond its free balance, this
/// holds of every owner's totals.
pub proof fn lemma_frozen_le_free(s: Seq<AccountRecord>, who: u64)
    requires
        forall|i: int| 0 <= i < s.len() ==> (#[trigger] s[i]).frozen <= s[i].free,
    ensures
        frozen_of(s, who) <= free_of(s, who),
{
    lemma_find_by_some(s, acct_match(who));
    match acct_of(s, who) {
        Some(a) => {
            let i = choose|i: int| 0 <= i < s.len() && #[trigger] s[i] == a
                && acct_match(who)(a);
            assert(s[i].frozen <= s[i].free);
        },
        None => {},
    }
}

/// Effect of replacing the account at index `i` (keeping its owner) on the
/// lookup of an arbitrary owner `w`.
proof fn lemma_acct_of_update(s: Seq<AccountRecord>, i: int, a: AccountRecord, w: u64)
    requires
        distinct_keys(s, acct_key()),
        0 <= i < s.len(),
        a.who == s[i].who,
    ensures
        acct_of(s.update(i, a), w) == (if w == a.who {
            Some(a)
        } else {
            acct_of(s, w)
        }),
{
    let s1 = s.update(i, a);
    if w == a.who {
        assert forall|j: int| 0 <= j < s1.len() && j != i implies !acct_match(w)(s1[j]) by {
            assert(s1[j] == s[j]);
            assert(acct_key()(s[j]) != acct_key()(s[i]));
        }
        lemma_find_by_unique(s1, acct_match(w), i);
    } else {
        lemma_find_by_some(s, acct_match(w));
        match acct_of(s, w) {
            Some(x) => {
                let j = choose|j: int| 0 <= j < s.len() && #[trigger] s[j] == x
                    && acct_match(w)(x);
                assert(s[j].who == w);
                assert(j != i);
                assert forall|k: int| 0 <= k < s1.len() && k != j implies
                    !acct_match(w)(s1[k]) by {
                    if k == i {
                        assert(s1[k].who == a.who);
                    } else {
                        assert(s1[k] == s[k]);
                        assert(acct_key()(s[k]) != acct_key()(s[j]));
                    }
                }
                lemma_find_by_unique(s1, acct_match(w), j);
                assert(s1[j] == s[j]);
            },
            None => {
                lemma_find_by_none(s, acct_match(w));
                assert forall|k: int| 0 <= k < s1.len() implies !acct_match(w)(s1[k]) by {
                    if k == i {
                        assert(s1[k].who == a.who);
                    } else {
                        assert(s1[k] == s[k]);
                    }
                }
                lemma_find_by_none(s1, acct_match(w));
            },
        }
    }
}

} // verus!
