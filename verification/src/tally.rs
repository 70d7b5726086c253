//! Spec-level model of the vote ledger and the proposal store: lookups into
//! the two association sequences, the weighted sums behind holds and
//! tallies, and the lemmas describing how both react to the pointwise
//! edits the engine performs.

use vstd::prelude::*;

use crate::types::{ProposalData, VoteInfo, qcost};
use crate::ledger::{AccountRecord, free_w, issuance_of};
use crate::seq_facts::{distinct_keys, find_by, reject_by, sum_by, lemma_find_by_none,
    lemma_find_by_some, lemma_find_by_unique, lemma_sum_by_reject_zero,
    lemma_sum_by_reject_vanish, lemma_sum_by_split, lemma_sum_by_nonneg};
use crate::types::lemma_qcost_nonneg;

verus! {

/// One entry of the vote ledger: the voter and the vote.
pub type VoteEntry = (u64, VoteInfo);

/// One entry of the proposal store: the proposal id and the proposal.
pub type PropEntry = (u32, ProposalData);

/// Key of a vote entry: the `(voter, proposal)` pair.
pub open spec fn vote_key() -> spec_fn(VoteEntry) -> (u64, u32) {
    |e: VoteEntry| (e.0, e.1.proposal_id)
}

/// Match on a `(voter, proposal)` pair.
pub open spec fn vote_match(who: u64, id: u32) -> spec_fn(VoteEntry) -> bool {
    |e: VoteEntry| e.0 == who && e.1.proposal_id == id
}

/// Match on a voter, across all proposals.
pub open spec fn voter_match(who: u64) -> spec_fn(VoteEntry) -> bool {
    |e: VoteEntry| e.0 == who
}

/// The vote of `who` on proposal `id`, if any.
pub open spec fn vote_of(s: Seq<VoteEntry>, who: u64, id: u32) -> Option<VoteInfo> {
    match find_by(s, vote_match(who, id)) {
        Some(e) => Some(e.1),
        None => None,
    }
}

/// Weight of a vote entry towards the hold of `who`.
pub open spec fn hold_w(who: u64) -> spec_fn(VoteEntry) -> int {
    |e: VoteEntry| if e.0 == who {
        qcost(e.1.power)
    } else {
        0
    }
}

/// Weight of a vote entry towards the total tally of proposal `id`.
pub open spec fn total_w(id: u32) -> spec_fn(VoteEntry) -> int {
    |e: VoteEntry| if e.1.proposal_id == id {
        qcost(e.1.power)
    } else {
        0
    }
}

/// Weight of a vote entry towards the aye tally of proposal `id`.
pub open spec fn aye_w(id: u32) -> spec_fn(VoteEntry) -> int {
    |e: VoteEntry| if e.1.proposal_id == id && e.1.aye {
        qcost(e.1.power)
    } else {
        0
    }
}

/// Weight of a vote entry regardless of voter and proposal.
pub open spec fn cost_w() -> spec_fn(VoteEntry) -> int {
    |e: VoteEntry| qcost(e.1.power)
}

/// Sum of the quadratic costs of the votes of `who`: the hold backing them.
pub open spec fn hold_sum(s: Seq<VoteEntry>, who: u64) -> int {
    sum_by(s, hold_w(who))
}

/// Sum of the quadratic costs of all votes on proposal `id`.
pub open spec fn total_sum(s: Seq<VoteEntry>, id: u32) -> int {
    sum_by(s, total_w(id))
}

/// Sum of the quadratic costs of the aye votes on proposal `id`.
pub open spec fn aye_sum(s: Seq<VoteEntry>, id: u32) -> int {
    sum_by(s, aye_w(id))
}

/// Sum of the quadratic costs of every vote in the ledger.
pub open spec fn grand_sum(s: Seq<VoteEntry>) -> int {
    sum_by(s, cost_w())
}

/// The vote ledger without the votes of `who`, in order.
pub open spec fn votes_excluding(s: Seq<VoteEntry>, who: u64) -> Seq<VoteEntry> {
    reject_by(s, voter_match(who))
}

/// Key of a proposal entry.
pub open spec fn prop_key() -> spec_fn(PropEntry) -> u32 {
    |e: PropEntry| e.0
}

/// Match on a proposal id.
pub open spec fn prop_match(id: u32) -> spec_fn(PropEntry) -> bool {
    |e: PropEntry| e.0 == id
}

/// The proposal stored under `id`, if any.
pub open spec fn proposal_of(s: Seq<PropEntry>, id: u32) -> Option<ProposalData> {
    match find_by(s, prop_match(id)) {
        Some(e) => Some(e.1),
        None => None,
    }
}

/// Every weight used on vote entries is non-negative.
pub proof fn lemma_vote_weights_nonneg(s: Seq<VoteEntry>)
    ensures
        forall|i: int| 0 <= i < s.len() ==> {
            let e = #[trigger] s[i];
            0 <= qcost(e.1.power) <= u128::MAX
        },
{
    assert forall|i: int| 0 <= i < s.len() implies {
        let e = #[trigger] s[i];
        0 <= qcost(e.1.power) <= u128::MAX
    } by {
        lemma_qcost_nonneg(s[i].1.power);
    }
}

/// A vote entry of the sequence is found under its own key.
pub proof fn lemma_vote_lookup_at(s: Seq<VoteEntry>, i: int)
    requires
        distinct_keys(s, vote_key()),
        0 <= i < s.len(),
    ensures
        vote_of(s, s[i].0, s[i].1.proposal_id) == Some(s[i].1),
{
    let who = s[i].0;
    let id = s[i].1.proposal_id;
    assert forall|j: int| 0 <= j < s.len() && j != i implies !vote_match(who, id)(s[j]) by {
        if j < i {
            assert(vote_key()(s[j]) != vote_key()(s[i]));
        } else {
            assert(vote_key()(s[i]) != vote_key()(s[j]));
        }
    }
    lemma_find_by_unique(s, vote_match(who, id), i);
}

/// A pair matched by no entry has no vote.
pub proof fn lemma_vote_lookup_absent(s: Seq<VoteEntry>, who: u64, id: u32)
    requires
        forall|j: int| 0 <= j < s.len()
            ==> !((#[trigger] s[j]).0 == who && s[j].1.proposal_id == id),
    ensures
        vote_of(s, who, id) is None,
{
    lemma_find_by_none(s, vote_match(who, id));
}

/// Replacing the entry at `i` by one with the same key changes exactly that
/// key's lookup.
pub proof fn lemma_vote_lookup_update(s: Seq<VoteEntry>, i: int, e: VoteEntry)
    requires
        distinct_keys(s, vote_key()),
        0 <= i < s.len(),
        e.0 == s[i].0,
        e.1.proposal_id == s[i].1.proposal_id,
    ensures
        distinct_keys(s.update(i, e), vote_key()),
        forall|w: u64, id: u32| #[trigger] vote_of(s.update(i, e), w, id)
            == if w == e.0 && id == e.1.proposal_id {
                Some(e.1)
            } else {
                vote_of(s, w, id)
            },
{
    let s1 = s.update(i, e);
    assert forall|i2: int, j2: int| 0 <= i2 < j2 < s1.len() implies
        vote_key()(s1[i2]) != vote_key()(s1[j2]) by {
        assert(vote_key()(s1[i2]) == vote_key()(s[i2]));
        assert(vote_key()(s1[j2]) == vote_key()(s[j2]));
    }
    assert forall|w: u64, id: u32| #[trigger] vote_of(s1, w, id)
        == if w == e.0 && id == e.1.proposal_id {
            Some(e.1)
        } else {
            vote_of(s, w, id)
        } by {
        if w == e.0 && id == e.1.proposal_id {
            assert(s1[i] == e);
            lemma_vote_lookup_at(s1, i);
        } else {
            lemma_find_by_some(s, vote_match(w, id));
            match find_by(s, vote_match(w, id)) {
                Some(x) => {
                    let j = choose|j: int| 0 <= j < s.len() && #[trigger] s[j] == x
                        && vote_match(w, id)(x);
                    assert(j != i);
                    assert(s1[j] == s[j]);
                    lemma_vote_lookup_at(s1, j);
                },
                None => {
                    assert forall|k: int| 0 <= k < s1.len() implies
                        !vote_match(w, id)(s1[k]) by {
                        if k != i {
                            assert(s1[k] == s[k]);
                        }
                        lemma_find_by_none(s, vote_match(w, id));
                    }
                    lemma_find_by_none(s1, vote_match(w, id));
                },
            }
        }
    }
}

/// Removing the entry at `i` erases exactly that key's lookup.
pub proof fn lemma_vote_lookup_remove(s: Seq<VoteEntry>, i: int)
    requires
        distinct_keys(s, vote_key()),
        0 <= i < s.len(),
    ensures
        distinct_keys(s.remove(i), vote_key()),
        vote_of(s.remove(i), s[i].0, s[i].1.proposal_id) is None,
        forall|w: u64, id: u32| !(w == s[i].0 && id == s[i].1.proposal_id)
            ==> #[trigger] vote_of(s.remove(i), w, id) == vote_of(s, w, id),
{
    let s1 = s.remove(i);
    assert(forall|k: int| 0 <= k < i ==> #[trigger] s1[k] == s[k]);
    assert(forall|k: int| i <= k < s1.len() ==> #[trigger] s1[k] == s[k + 1]);
    assert forall|i2: int, j2: int| 0 <= i2 < j2 < s1.len() implies
        vote_key()(s1[i2]) != vote_key()(s1[j2]) by {
        let oi = if i2 < i { i2 } else { i2 + 1 };
        let oj = if j2 < i { j2 } else { j2 + 1 };
        assert(s1[i2] == s[oi] && s1[j2] == s[oj]);
        assert(vote_key()(s[oi]) != vote_key()(s[oj]));
    }
    assert forall|k: int| 0 <= k < s1.len() implies
        !vote_match(s[i].0, s[i].1.proposal_id)(s1[k]) by {
        let ok = if k < i { k } else { k + 1 };
        assert(s1[k] == s[ok]);
        if ok < i {
            assert(vote_key()(s[ok]) != vote_key()(s[i]));
        } else {
            assert(vote_key()(s[i]) != vote_key()(s[ok]));
        }
    }
    lemma_find_by_none(s1, vote_match(s[i].0, s[i].1.proposal_id));
    assert forall|w: u64, id: u32| !(w == s[i].0 && id == s[i].1.proposal_id) implies
        #[trigger] vote_of(s1, w, id) == vote_of(s, w, id) by {
        lemma_find_by_some(s, vote_match(w, id));
        match find_by(s, vote_match(w, id)) {
            Some(x) => {
                let j = choose|j: int| 0 <= j < s.len() && #[trigger] s[j] == x
                    && vote_match(w, id)(x);
                assert(j != i);
                let nj = if j < i { j } else { j - 1 };
                assert(s1[nj] == s[j]);
                lemma_vote_lookup_at(s1, nj);
            },
            None => {
                lemma_find_by_none(s, vote_match(w, id));
                assert forall|k: int| 0 <= k < s1.len() implies
                    !vote_match(w, id)(s1[k]) by {
                    let ok = if k < i { k } else { k + 1 };
                    assert(s1[k] == s[ok]);
                }
                lemma_find_by_none(s1, vote_match(w, id));
            },
        }
    }
}

/// Appending an entry under a fresh key adds exactly that key's lookup.
pub proof fn lemma_vote_lookup_push(s: Seq<VoteEntry>, e: VoteEntry)
    requires
        distinct_keys(s, vote_key()),
        vote_of(s, e.0, e.1.proposal_id) is None,
    ensures
        distinct_keys(s.push(e), vote_key()),
        vote_of(s.push(e), e.0, e.1.proposal_id) == Some(e.1),
        forall|w: u64, id: u32| !(w == e.0 && id == e.1.proposal_id)
            ==> #[trigger] vote_of(s.push(e), w, id) == vote_of(s, w, id),
{
    let s1 = s.push(e);
    lemma_find_by_none(s, vote_match(e.0, e.1.proposal_id));
    assert forall|i2: int, j2: int| 0 <= i2 < j2 < s1.len() implies
        vote_key()(s1[i2]) != vote_key()(s1[j2]) by {
        if j2 == s.len() {
            assert(s1[i2] == s[i2]);
            assert(s1[j2] == e);
            assert(!vote_match(e.0, e.1.proposal_id)(s[i2]));
        } else {
            assert(s1[i2] == s[i2] && s1[j2] == s[j2]);
        }
    }
    assert(s1[s.len() as int] == e);
    lemma_vote_lookup_at(s1, s.len() as int);
    assert forall|w: u64, id: u32| !(w == e.0 && id == e.1.proposal_id) implies
        #[trigger] vote_of(s1, w, id) == vote_of(s, w, id) by {
        crate::seq_facts::lemma_find_by_push(s, vote_match(w, id), e);
    }
}

/// A proposal entry of the sequence is found under its own id.
pub proof fn lemma_prop_lookup_at(s: Seq<PropEntry>, i: int)
    requires
        distinct_keys(s, prop_key()),
        0 <= i < s.len(),
    ensures
        proposal_of(s, s[i].0) == Some(s[i].1),
{
    let id = s[i].0;
    assert forall|j: int| 0 <= j < s.len() && j != i implies !prop_match(id)(s[j]) by {
        if j < i {
            assert(prop_key()(s[j]) != prop_key()(s[i]));
        } else {
            assert(prop_key()(s[i]) != prop_key()(s[j]));
        }
    }
    lemma_find_by_unique(s, prop_match(id), i);
}

/// An id matched by no entry stores no proposal.
pub proof fn lemma_prop_lookup_absent(s: Seq<PropEntry>, id: u32)
    requires
        forall|j: int| 0 <= j < s.len() ==> (#[trigger] s[j]).0 != id,
    ensures
        proposal_of(s, id) is None,
{
    lemma_find_by_none(s, prop_match(id));
}

/// Replacing the entry at `i` by one with the same id changes exactly that
/// id's lookup.
pub proof fn lemma_prop_lookup_update(s: Seq<PropEntry>, i: int, e: PropEntry)
    requires
        distinct_keys(s, prop_key()),
        0 <= i < s.len(),
        e.0 == s[i].0,
    ensures
        distinct_keys(s.update(i, e), prop_key()),
        forall|id: u32| #[trigger] proposal_of(s.update(i, e), id) == if id == e.0 {
            Some(e.1)
        } else {
            proposal_of(s, id)
        },
{
    let s1 = s.update(i, e);
    assert forall|i2: int, j2: int| 0 <= i2 < j2 < s1.len() implies
        prop_key()(s1[i2]) != prop_key()(s1[j2]) by {
        assert(prop_key()(s1[i2]) == prop_key()(s[i2]));
        assert(prop_key()(s1[j2]) == prop_key()(s[j2]));
    }
    assert forall|id: u32| #[trigger] proposal_of(s1, id) == if id == e.0 {
        Some(e.1)
    } else {
        proposal_of(s, id)
    } by {
        if id == e.0 {
            assert(s1[i] == e);
            lemma_prop_lookup_at(s1, i);
        } else {
            lemma_find_by_some(s, prop_match(id));
            match find_by(s, prop_match(id)) {
                Some(x) => {
                    let j = choose|j: int| 0 <= j < s.len() && #[trigger] s[j] == x
                        && prop_match(id)(x);
                    assert(j != i);
                    assert(s1[j] == s[j]);
                    lemma_prop_lookup_at(s1, j);
                },
                None => {
                    lemma_find_by_none(s, prop_match(id));
                    assert forall|k: int| 0 <= k < s1.len() implies !prop_match(id)(s1[k]) by {
                        if k != i {
                            assert(s1[k] == s[k]);
                        }
                    }
                    lemma_find_by_none(s1, prop_match(id));
                },
            }
        }
    }
}

/// Removing the entry at `i` erases exactly that id's lookup.
pub proof fn lemma_prop_lookup_remove(s: Seq<PropEntry>, i: int)
    requires
        distinct_keys(s, prop_key()),
        0 <= i < s.len(),
    ensures
        distinct_keys(s.remove(i), prop_key()),
        proposal_of(s.remove(i), s[i].0) is None,
        forall|id: u32| id != s[i].0
            ==> #[trigger] proposal_of(s.remove(i), id) == proposal_of(s, id),
{
    let s1 = s.remove(i);
    assert(forall|k: int| 0 <= k < i ==> #[trigger] s1[k] == s[k]);
    assert(forall|k: int| i <= k < s1.len() ==> #[trigger] s1[k] == s[k + 1]);
    assert forall|i2: int, j2: int| 0 <= i2 < j2 < s1.len() implies
        prop_key()(s1[i2]) != prop_key()(s1[j2]) by {
        let oi = if i2 < i { i2 } else { i2 + 1 };
        let oj = if j2 < i { j2 } else { j2 + 1 };
        assert(s1[i2] == s[oi] && s1[j2] == s[oj]);
        assert(prop_key()(s[oi]) != prop_key()(s[oj]));
    }
    assert forall|k: int| 0 <= k < s1.len() implies !prop_match(s[i].0)(s1[k]) by {
        let ok = if k < i { k } else { k + 1 };
        assert(s1[k] == s[ok]);
        if ok < i {
            assert(prop_key()(s[ok]) != prop_key()(s[i]));
        } else {
            assert(prop_key()(s[i]) != prop_key()(s[ok]));
        }
    }
    lemma_find_by_none(s1, prop_match(s[i].0));
    assert forall|id: u32| id != s[i].0 implies
        #[trigger] proposal_of(s1, id) == proposal_of(s, id) by {
        lemma_find_by_some(s, prop_match(id));
        match find_by(s, prop_match(id)) {
            Some(x) => {
                let j = choose|j: int| 0 <= j < s.len() && #[trigger] s[j] == x
                    && prop_match(id)(x);
                assert(j != i);
                let nj = if j < i { j } else { j - 1 };
                assert(s1[nj] == s[j]);
                lemma_prop_lookup_at(s1, nj);
            },
            None => {
                lemma_find_by_none(s, prop_match(id));
                assert forall|k: int| 0 <= k < s1.len() implies !prop_match(id)(s1[k]) by {
                    let ok = if k < i { k } else { k + 1 };
                    assert(s1[k] == s[ok]);
                }
                lemma_find_by_none(s1, prop_match(id));
            },
        }
    }
}

/// Appending an entry under a fresh id adds exactly that id's lookup.
pub proof fn lemma_prop_lookup_push(s: Seq<PropEntry>, e: PropEntry)
    requires
        distinct_keys(s, prop_key()),
        forall|j: int| 0 <= j < s.len() ==> (#[trigger] s[j]).0 != e.0,
    ensures
        distinct_keys(s.push(e), prop_key()),
        proposal_of(s.push(e), e.0) == Some(e.1),
        forall|id: u32| id != e.0
            ==> #[trigger] proposal_of(s.push(e), id) == proposal_of(s, id),
{
    let s1 = s.push(e);
    assert forall|i2: int, j2: int| 0 <= i2 < j2 < s1.len() implies
        prop_key()(s1[i2]) != prop_key()(s1[j2]) by {
        if j2 == s.len() {
            assert(s1[i2] == s[i2]);
            assert(s1[j2] == e);
        } else {
            assert(s1[i2] == s[i2] && s1[j2] == s[j2]);
        }
    }
    assert(s1[s.len() as int] == e);
    lemma_prop_lookup_at(s1, s.len() as int);
    assert forall|id: u32| id != e.0 implies
        #[trigger] proposal_of(s1, id) == proposal_of(s, id) by {
        crate::seq_facts::lemma_find_by_push(s, prop_match(id), e);
    }
}

/// Splitting the grand sum at the votes of one voter.
pub proof fn lemma_grand_split(s: Seq<VoteEntry>, who: u64)
    ensures
        grand_sum(s) == hold_sum(s, who) + grand_sum(votes_excluding(s, who)),
{
    lemma_sum_by_split(s, voter_match(who), cost_w(), hold_w(who));
}

/// The filtered ledger holds nothing for the voter taken out, and exactly
/// what the full one holds for everyone else.
pub proof fn lemma_excluding_holds(s: Seq<VoteEntry>, who: u64)
    ensures
        hold_sum(votes_excluding(s, who), who) == 0,
        forall|w: u64| w != who ==> #[trigger] hold_sum(votes_excluding(s, who), w)
            == hold_sum(s, w),
{
    lemma_sum_by_reject_zero(s, voter_match(who), hold_w(who));
    assert forall|w: u64| w != who implies #[trigger] hold_sum(votes_excluding(s, who), w)
        == hold_sum(s, w) by {
        lemma_sum_by_reject_vanish(s, voter_match(who), hold_w(w));
    }
}

/// While every voter's hold matches their frozen balance and no account is
/// frozen beyond its free balance, the grand sum of vote costs is bounded
/// by the issuance.
pub proof fn lemma_grand_le_issuance(s: Seq<VoteEntry>, accts: Seq<AccountRecord>)
    requires
        distinct_keys(accts, crate::ledger::acct_key()),
        forall|w: u64| #[trigger] hold_sum(s, w) == crate::ledger::frozen_of(accts, w),
        forall|i: int| 0 <= i < accts.len()
            ==> (#[trigger] accts[i]).frozen <= accts[i].free,
    ensures
        grand_sum(s) <= issuance_of(accts),
    decreases accts.len(),
{
    if accts.len() == 0 {
        assert forall|w: u64| #[trigger] hold_sum(s, w) == 0 by {
            assert(crate::ledger::acct_of(accts, w) is None);
        }
        lemma_grand_all_holds_zero(s);
    } else {
        let a = accts[0];
        let at = accts.drop_first();
        let st = votes_excluding(s, a.who);
        assert(forall|i: int| 0 <= i < at.len() ==> #[trigger] at[i] == accts[i + 1]);
        assert forall|i2: int, j2: int| 0 <= i2 < j2 < at.len() implies
            crate::ledger::acct_key()(at[i2]) != crate::ledger::acct_key()(at[j2]) by {
            assert(at[i2] == accts[i2 + 1] && at[j2] == accts[j2 + 1]);
        }
        lemma_excluding_holds(s, a.who);
        assert forall|w: u64| #[trigger] hold_sum(st, w)
            == crate::ledger::frozen_of(at, w) by {
            if w == a.who {
                assert forall|k: int| 0 <= k < at.len() implies
                    !crate::ledger::acct_match(w)(at[k]) by {
                    assert(at[k] == accts[k + 1]);
                    assert(crate::ledger::acct_key()(accts[0])
                        != crate::ledger::acct_key()(accts[k + 1]));
                }
                lemma_find_by_none(at, crate::ledger::acct_match(w));
            } else {
                assert(!crate::ledger::acct_match(w)(accts[0]));
                assert(crate::ledger::frozen_of(accts, w) == crate::ledger::frozen_of(at, w));
            }
        }
        lemma_grand_le_issuance(st, at);
        lemma_grand_split(s, a.who);
        assert(crate::ledger::acct_match(a.who)(accts[0]));
        assert(hold_sum(s, a.who) == a.frozen as int);
        assert(issuance_of(accts) == a.free as int + issuance_of(at));
    }
}

/// A ledger in which every voter holds nothing carries no cost at all.
proof fn lemma_grand_all_holds_zero(s: Seq<VoteEntry>)
    requires
        forall|w: u64| #[trigger] hold_sum(s, w) == 0,
    ensures
        grand_sum(s) == 0,
    decreases s.len(),
{
    if s.len() > 0 {
        let e = s[0];
        let t = s.drop_first();
        assert(forall|i: int| 0 <= i < t.len() ==> #[trigger] t[i] == s[i + 1]);
        lemma_vote_weights_nonneg(s);
        assert forall|w: u64| #[trigger] hold_sum(t, w) == 0 by {
            assert(hold_sum(s, w) == hold_w(w)(e) + hold_sum(t, w));
            assert forall|i: int| 0 <= i < t.len() implies hold_w(w)(#[trigger] t[i]) >= 0 by {
                lemma_qcost_nonneg(t[i].1.power);
            }
            lemma_sum_by_nonneg(t, hold_w(w));
            lemma_qcost_nonneg(e.1.power);
            assert(hold_w(w)(e) >= 0);
        }
        assert(hold_sum(s, e.0) == 0);
        assert(hold_w(e.0)(e) == qcost(e.1.power));
        lemma_sum_by_nonneg(t, hold_w(e.0));
        lemma_qcost_nonneg(e.1.power);
        assert(qcost(e.1.power) == 0);
        lemma_grand_all_holds_zero(t);
        assert(grand_sum(s) == cost_w()(e) + grand_sum(t));
    }
}

/// Weight of a vote entry towards the total tally of `id`, but only for
/// votes cast by `who`.
pub open spec fn voter_prop_w(who: u64, id: u32) -> spec_fn(VoteEntry) -> int {
    |e: VoteEntry| if e.0 == who && e.1.proposal_id == id {
        qcost(e.1.power)
    } else {
        0
    }
}

/// Like [`voter_prop_w`], restricted further to aye votes.
pub open spec fn voter_prop_aye_w(who: u64, id: u32) -> spec_fn(VoteEntry) -> int {
    |e: VoteEntry| if e.0 == who && e.1.proposal_id == id && e.1.aye {
        qcost(e.1.power)
    } else {
        0
    }
}

/// Taking the votes of one voter out lowers each proposal's sums by
/// exactly what that voter's vote on it contributed.
pub proof fn lemma_excluding_prop_sums(s: Seq<VoteEntry>, who: u64, id: u32)
    requires
        distinct_keys(s, vote_key()),
    ensures
        total_sum(votes_excluding(s, who), id) == total_sum(s, id)
            - (match vote_of(s, who, id) {
                Some(v) => qcost(v.power),
                None => 0,
            }),
        aye_sum(votes_excluding(s, who), id) == aye_sum(s, id)
            - (match vote_of(s, who, id) {
                Some(v) => if v.aye { qcost(v.power) } else { 0 },
                None => 0,
            }),
{
    lemma_sum_by_split(s, voter_match(who), total_w(id), voter_prop_w(who, id));
    lemma_sum_by_split(s, voter_match(who), aye_w(id), voter_prop_aye_w(who, id));
    lemma_find_by_some(s, vote_match(who, id));
    match find_by(s, vote_match(who, id)) {
        Some(x) => {
            let j = choose|j: int| 0 <= j < s.len() && #[trigger] s[j] == x
                && vote_match(who, id)(x);
            assert forall|k: int| 0 <= k < s.len() && k != j implies
                voter_prop_w(who, id)(#[trigger] s[k]) == 0
                && voter_prop_aye_w(who, id)(s[k]) == 0 by {
                if k < j {
                    assert(vote_key()(s[k]) != vote_key()(s[j]));
                } else {
                    assert(vote_key()(s[j]) != vote_key()(s[k]));
                }
            }
            crate::seq_facts::lemma_sum_by_single(s, j, voter_prop_w(who, id));
            crate::seq_facts::lemma_sum_by_single(s, j, voter_prop_aye_w(who, id));
        },
        None => {
            lemma_find_by_none(s, vote_match(who, id));
            assert forall|k: int| 0 <= k < s.len() implies
                voter_prop_w(who, id)(#[trigger] s[k]) == 0
                && voter_prop_aye_w(who, id)(s[k]) == 0 by {
            }
            crate::seq_facts::lemma_sum_by_zero(s, voter_prop_w(who, id));
            crate::seq_facts::lemma_sum_by_zero(s, voter_prop_aye_w(who, id));
        },
    }
}

/// The tally of one proposal never exceeds the grand sum.
pub proof fn lemma_total_le_grand(s: Seq<VoteEntry>, id: u32)
    ensures
        total_sum(s, id) <= grand_sum(s),
{
    assert forall|i: int| 0 <= i < s.len() implies
        total_w(id)(#[trigger] s[i]) <= cost_w()(s[i]) by {
        lemma_qcost_nonneg(s[i].1.power);
    }
    crate::seq_facts::lemma_sum_by_le(s, total_w(id), cost_w());
}

/// The aye tally of one proposal never exceeds its total tally.
pub proof fn lemma_aye_le_total(s: Seq<VoteEntry>, id: u32)
    ensures
        aye_sum(s, id) <= total_sum(s, id),
{
    assert forall|i: int| 0 <= i < s.len() implies
        aye_w(id)(#[trigger] s[i]) <= total_w(id)(s[i]) by {
        lemma_qcost_nonneg(s[i].1.power);
    }
    crate::seq_facts::lemma_sum_by_le(s, aye_w(id), total_w(id));
}

} // verus!
