//! The voting engine: voter registry, proposal store, vote ledger,
//! balance-hold accounting, and the event log, with the conservation and
//! tally invariants tied together in [`Pallet::wf`].

use vstd::prelude::*;

use crate::types::{Config, Error, Event, Origin, ProposalData, ProposalId, VoteInfo, qcost,
    quad_u128, sat_add_u128, sat_sub_0};
use crate::ledger::{Ledger, acct_of, free_of, frozen_of, issuance_of, reducible_of};
use crate::tally::{PropEntry, VoteEntry, aye_sum, aye_w, hold_sum, hold_w, prop_key,
    proposal_of, total_sum, total_w, vote_key, vote_of, votes_excluding, lemma_vote_lookup_push,
    lemma_vote_lookup_remove, lemma_vote_lookup_update, lemma_prop_lookup_update,
    lemma_grand_le_issuance, lemma_total_le_grand, lemma_aye_le_total, lemma_vote_lookup_at};
use crate::seq_facts::{distinct_keys, lemma_find_by_first, lemma_find_by_none, lemma_sum_by_zero,
    lemma_sum_by_push, lemma_sum_by_remove, lemma_sum_by_update, lemma_sum_by_lower,
    lemma_sum_by_nonneg};
use crate::types::{lemma_qcost_nonneg, lemma_qcost_mono};

verus! {

/// Both sides are absent, or both are present with the same elements.
pub open spec fn opt_list_eq(a: Option<Vec<u64>>, b: Option<Vec<u64>>) -> bool {
    &&& (a is Some) == (b is Some)
    &&& (a matches Some(x) ==> b matches Some(y) && x@ == y@)
}

/// Key function of the voter registry.
pub open spec fn reg_key() -> spec_fn(u64) -> u64 {
    |w: u64| w
}

/// The engine state: every map and counter of the system, owned by a
/// single persistence layer, initialised empty by [`Pallet::new`].
pub struct Pallet {
    /// The limits the engine was configured with.
    pub config: Config,
    /// The logical clock, advanced by the host via
    /// [`Pallet::set_block_number`].
    pub block_number: u64,
    /// The voters allowed to create proposals and vote.
    pub registered_voters: Vec<u64>,
    /// The id the next created proposal will get.
    pub next_proposal_id: ProposalId,
    /// All proposals staged or in progress, keyed by id.
    pub proposals: Vec<PropEntry>,
    /// All active votes, keyed by `(voter, proposal id)`.
    pub votes: Vec<VoteEntry>,
    /// The balance ledger backing the holds.
    pub ledger: Ledger,
    /// Everything the engine has announced, oldest first.
    pub events: Vec<Event>,
}

impl Pallet {
    /// Whether `who` may create proposals and vote.
    pub open spec fn spec_registered(self, who: u64) -> bool {
        self.registered_voters@.contains(who)
    }

    /// The stored proposal under `proposal_id`, if any.
    pub open spec fn spec_proposal(self, proposal_id: ProposalId) -> Option<ProposalData> {
        proposal_of(self.proposals@, proposal_id)
    }

    /// The active vote of `who` on `proposal_id`, if any.
    pub open spec fn spec_vote(self, who: u64, proposal_id: ProposalId) -> Option<VoteInfo> {
        vote_of(self.votes@, who, proposal_id)
    }

    /// The hold backing the votes of `who`: the sum of their quadratic
    /// costs.
    pub open spec fn held(self, who: u64) -> int {
        hold_sum(self.votes@, who)
    }

    /// Well-formedness: the registry, proposal store, and vote ledger are
    /// keyed uniquely; ids stay below the allocator; stored proposals obey
    /// the configured limits; active votes have positive power; every
    /// proposal's `total_weight` is exactly the sum of the costs of the
    /// votes on it; and every voter's frozen balance is exactly the hold
    /// backing their votes (conservation).
    pub open spec fn wf(self) -> bool {
        &&& self.ledger.wf()
        &&& distinct_keys(self.registered_voters@, reg_key())
        &&& distinct_keys(self.proposals@, prop_key())
        &&& distinct_keys(self.votes@, vote_key())
        &&& forall|i: int| 0 <= i < self.proposals@.len() ==> {
            let e = #[trigger] self.proposals@[i];
            &&& e.0 < self.next_proposal_id
            &&& e.1.wf(self.config)
            &&& e.1.ratio.1 as int == total_sum(self.votes@, e.0)
        }
        &&& forall|i: int| 0 <= i < self.votes@.len() ==> {
            let e = #[trigger] self.votes@[i];
            &&& e.1.power > 0
            &&& e.1.proposal_id < self.next_proposal_id
        }
        &&& forall|w: u64| #[trigger] hold_sum(self.votes@, w)
            == frozen_of(self.ledger.accounts@, w)
    }

    /// Whether every stored proposal's `aye_weight` is exactly the sum of
    /// the costs of the aye votes on it.  This holds as long as no voter
    /// has changed the direction of a standing vote; see
    /// [`crate::pallet::Pallet::lemma_tally_ordered`].
    pub open spec fn tally_exact(self) -> bool {
        forall|i: int| 0 <= i < self.proposals@.len() ==> {
            let e = #[trigger] self.proposals@[i];
            e.1.ratio.0 as int == aye_sum(self.votes@, e.0)
        }
    }

    /// An empty engine under the given limits, with an empty ledger whose
    /// accounts must keep `existential_deposit` untouched.
    pub fn new(config: Config, existential_deposit: u128) -> (r: Pallet)
        ensures
            r.wf(),
            r.tally_exact(),
            r.config == config,
            r.block_number == 0,
            r.registered_voters@ =~= Seq::<u64>::empty(),
            r.next_proposal_id == 0,
            r.proposals@ =~= Seq::<PropEntry>::empty(),
            r.votes@ =~= Seq::<VoteEntry>::empty(),
            r.ledger.existential_deposit == existential_deposit,
            r.ledger.accounts@ =~= Seq::<crate::ledger::AccountRecord>::empty(),
            r.events@ =~= Seq::<Event>::empty(),
    {
        let r = Pallet {
            config,
            block_number: 0,
            registered_voters: Vec::new(),
            next_proposal_id: 0,
            proposals: Vec::new(),
            votes: Vec::new(),
            ledger: Ledger::new(existential_deposit),
            events: Vec::new(),
        };
        proof {
            assert forall|w: u64| #[trigger] hold_sum(r.votes@, w)
                == frozen_of(r.ledger.accounts@, w) by {
                lemma_find_by_none(r.ledger.accounts@, crate::ledger::acct_match(w));
            }
        }
        r
    }

    /// Advance (or rewind) the logical clock.
    pub fn set_block_number(&mut self, n: u64)
        ensures
            final(self).wf() == old(self).wf(),
            final(self).tally_exact() == old(self).tally_exact(),
            final(self).block_number == n,
            final(self).config == old(self).config,
            final(self).registered_voters == old(self).registered_voters,
            final(self).next_proposal_id == old(self).next_proposal_id,
            final(self).proposals == old(self).proposals,
            final(self).votes == old(self).votes,
            final(self).ledger == old(self).ledger,
            final(self).events == old(self).events,
    {
        self.block_number = n;
    }

    /// Endow a fresh ledger account with `amount`.  Returns `false`,
    /// changing nothing, if the account already exists or the issuance
    /// would overflow.
    pub fn set_balance(&mut self, who: u64, amount: u128) -> (r: bool)
        requires
            old(self).wf(),
        ensures
            final(self).wf(),
            old(self).tally_exact() ==> final(self).tally_exact(),
            r == (acct_of(old(self).ledger.accounts@, who) is None
                && issuance_of(old(self).ledger.accounts@) + amount <= u128::MAX),
            !r ==> *final(self) == *old(self),
            final(self).config == old(self).config,
            final(self).block_number == old(self).block_number,
            final(self).registered_voters == old(self).registered_voters,
            final(self).next_proposal_id == old(self).next_proposal_id,
            final(self).proposals == old(self).proposals,
            final(self).votes == old(self).votes,
            final(self).events == old(self).events,
            final(self).ledger.existential_deposit == old(self).ledger.existential_deposit,
            free_of(final(self).ledger.accounts@, who) == (if r {
                amount as int
            } else {
                free_of(old(self).ledger.accounts@, who)
            }),
            forall|w: u64| w != who ==> free_of(final(self).ledger.accounts@, w)
                == free_of(old(self).ledger.accounts@, w),
            forall|w: u64| frozen_of(final(self).ledger.accounts@, w)
                == frozen_of(old(self).ledger.accounts@, w),
    {
        let r = self.ledger.set_balance(who, amount);
        proof {
            assert forall|w: u64| #[trigger] hold_sum(self.votes@, w)
                == frozen_of(self.ledger.accounts@, w) by {
                assert(hold_sum(old(self).votes@, w)
                    == frozen_of(old(self).ledger.accounts@, w));
            }
        }
        r
    }

    /// Free balance of `who` in the ledger.
    pub fn free_balance(&self, who: u64) -> (r: u128)
        ensures
            r as int == free_of(self.ledger.accounts@, who),
    {
        self.ledger.free_balance(who)
    }

    /// Amount of the balance of `who` currently frozen by the engine.
    pub fn balance_frozen(&self, who: u64) -> (r: u128)
        ensures
            r as int == frozen_of(self.ledger.accounts@, who),
    {
        self.ledger.balance_frozen(who)
    }

    /// Whether `who` is registered, in the shape of the stored unit
    /// payload.
    pub fn registered_voters(&self, who: u64) -> (r: Option<()>)
        ensures
            r == (if self.spec_registered(who) {
                Some(())
            } else {
                None::<()>
            }),
    {
        if contains_u64(&self.registered_voters, who) {
            Some(())
        } else {
            None
        }
    }

    /// The id the next created proposal will get.
    pub fn next_proposal_id(&self) -> (r: ProposalId)
        ensures
            r == self.next_proposal_id,
    {
        self.next_proposal_id
    }

    /// The stored proposal under `proposal_id`, if any.
    pub fn proposals(&self, proposal_id: ProposalId) -> (r: Option<&ProposalData>)
        ensures
            (match r {
                Some(p) => self.spec_proposal(proposal_id) == Some(*p),
                None => self.spec_proposal(proposal_id) is None,
            }),
    {
        match self.find_proposal(proposal_id) {
            Some(i) => Some(&self.proposals[i].1),
            None => None,
        }
    }

    /// The active vote of `who` on `proposal_id`, if any.
    pub fn votes(&self, who: u64, proposal_id: ProposalId) -> (r: Option<VoteInfo>)
        ensures
            r == self.spec_vote(who, proposal_id),
    {
        match self.find_vote(who, proposal_id) {
            Some(i) => Some(self.votes[i].1),
            None => None,
        }
    }

    /// The events announced so far, oldest first.
    pub fn events(&self) -> (r: &Vec<Event>)
        ensures
            r@ == self.events@,
    {
        &self.events
    }

    /// The quadratic cost of a vote of power `power`, saturating at the
    /// numeric maximum.
    pub fn calculate_quadratic_amount(power: u128) -> (r: u128)
        ensures
            r as int == qcost(power),
    {
        quad_u128(power)
    }

    /// Allocate the next proposal id, bumping the counter.  Exhausting the
    /// id space indicates systemic misuse and is left out by contract.
    pub fn get_next_proposal_id(&mut self) -> (r: ProposalId)
        requires
            old(self).wf(),
            old(self).next_proposal_id < u32::MAX,
        ensures
            final(self).wf(),
            old(self).tally_exact() ==> final(self).tally_exact(),
            r == old(self).next_proposal_id,
            final(self).next_proposal_id == old(self).next_proposal_id + 1,
            final(self).config == old(self).config,
            final(self).block_number == old(self).block_number,
            final(self).registered_voters == old(self).registered_voters,
            final(self).proposals == old(self).proposals,
            final(self).votes == old(self).votes,
            final(self).ledger == old(self).ledger,
            final(self).events == old(self).events,
    {
        let proposal_id = self.next_proposal_id;
        self.next_proposal_id = proposal_id + 1;
        proposal_id
    }

    /// Register `who` as a voter.  Administrative: only the root origin may
    /// call this.  Re-registering is not an error; it changes nothing but
    /// still announces the voter.
    pub fn register_voter(&mut self, origin: Origin, who: u64) -> (r: Result<(), Error>)
        requires
            old(self).wf(),
        ensures
            final(self).wf(),
            old(self).tally_exact() ==> final(self).tally_exact(),
            (origin matches Origin::Signed(_)) ==> r == Err::<(), Error>(Error::BadOrigin)
                && *final(self) == *old(self),
            origin == Origin::Root ==> ({
                &&& r == Ok::<(), Error>(())
                &&& forall|w: u64| final(self).spec_registered(w)
                    == (old(self).spec_registered(w) || w == who)
                &&& (old(self).spec_registered(who)
                    ==> final(self).registered_voters == old(self).registered_voters)
                &&& (!old(self).spec_registered(who) ==> final(self).registered_voters@
                    == old(self).registered_voters@.push(who))
                &&& final(self).config == old(self).config
                &&& final(self).block_number == old(self).block_number
                &&& final(self).next_proposal_id == old(self).next_proposal_id
                &&& final(self).proposals == old(self).proposals
                &&& final(self).votes == old(self).votes
                &&& final(self).ledger == old(self).ledger
                &&& final(self).events@ == old(self).events@.push(
                    Event::NewVoterRegistered { who },
                )
            }),
    {
        match origin {
            Origin::Signed(_) => Err(Error::BadOrigin),
            Origin::Root => {
                if !contains_u64(&self.registered_voters, who) {
                    self.registered_voters.push(who);
                    proof {
                        lemma_registry_push(old(self).registered_voters@, who);
                    }
                }
                self.events.push(Event::NewVoterRegistered { who });
                Ok(())
            },
        }
    }

    /// The outcome of the validation chain of [`Pallet::create_proposal`]:
    /// the first failing check, if any, in the order the operation tests
    /// them.
    pub open spec fn create_error(
        self,
        origin: Origin,
        start_block: u64,
        end_block: u64,
    ) -> Option<Error> {
        match origin {
            Origin::Root => Some(Error::BadOrigin),
            Origin::Signed(caller) => {
                let now = self.block_number;
                if !self.spec_registered(caller) {
                    Some(Error::VoterNotRegistered)
                } else if !(now <= start_block) {
                    Some(Error::ProposalCannotStartInThePast)
                } else if !(start_block < end_block) {
                    Some(Error::ProposalCannotFinishBeforeStarting)
                } else if start_block - now > self.config.proposal_delay_limit {
                    Some(Error::ProposalStartIsTooFarAway)
                } else if end_block - start_block < self.config.proposal_minimum_duration {
                    Some(Error::ProposalDurationIsTooShort)
                } else if end_block - start_block > self.config.proposal_maximum_duration {
                    Some(Error::ProposalDurationIsTooLong)
                } else {
                    None
                }
            },
        }
    }

    /// The validation chain shared by [`Pallet::cancel_proposal`] and
    /// [`Pallet::set_account_list`]: the proposal must exist, the caller
    /// must be the administrator or the creator, and the proposal must not
    /// have started.
    pub open spec fn pending_gate_error(self, origin: Origin, proposal_id: ProposalId)
        -> Option<Error> {
        match self.spec_proposal(proposal_id) {
            None => Some(Error::ProposalDoesNotExist),
            Some(p) => {
                let permitted = match origin {
                    Origin::Root => true,
                    Origin::Signed(c) => p.creator == c,
                };
                if !permitted {
                    Some(Error::OriginNoPermission)
                } else if p.start_block <= self.block_number {
                    Some(Error::ProposalHasAlreadyStarted)
                } else {
                    None
                }
            },
        }
    }

    /// The validation chain of [`Pallet::close_proposal`]: a registered
    /// signed caller, an existing proposal, and a clock at or past its end.
    pub open spec fn close_error(self, origin: Origin, proposal_id: ProposalId)
        -> Option<Error> {
        match origin {
            Origin::Root => Some(Error::BadOrigin),
            Origin::Signed(c) => {
                if !self.spec_registered(c) {
                    Some(Error::VoterNotRegistered)
                } else {
                    match self.spec_proposal(proposal_id) {
                        None => Some(Error::ProposalDoesNotExist),
                        Some(p) => {
                            if self.block_number < p.end_block {
                                Some(Error::ProposalHasNotEndedYet)
                            } else {
                                None
                            }
                        },
                    }
                }
            },
        }
    }

    /// Create a proposal.  The caller must be a registered voter; the
    /// window must start no earlier than now and no farther away than the
    /// configured delay, and its duration must lie within the configured
    /// bounds.  On success the proposal is stored under the next id with a
    /// zero tally.
    ///
    /// The payload and list sizes are bounded by construction in the
    /// caller, and the id space must not be exhausted.
    pub fn create_proposal(
        &mut self,
        origin: Origin,
        offchain_data: Vec<u8>,
        kind: crate::types::ProposalKind,
        account_list: Option<Vec<u64>>,
        start_block: u64,
        end_block: u64,
    ) -> (r: Result<(), Error>)
        requires
            old(self).wf(),
            old(self).next_proposal_id < u32::MAX,
            offchain_data@.len() <= old(self).config.proposal_offchain_data_limit,
            account_list matches Some(l) ==> l@.len() <= old(self).config.account_size_limit,
        ensures
            final(self).wf(),
            old(self).tally_exact() ==> final(self).tally_exact(),
            old(self).create_error(origin, start_block, end_block) matches Some(e)
                ==> r == Err::<(), Error>(e) && *final(self) == *old(self),
            old(self).create_error(origin, start_block, end_block) is None ==> (match origin {
                Origin::Root => false,
                Origin::Signed(caller) => {
                    let e = final(self).proposals@.last();
                    &&& r == Ok::<(), Error>(())
                    &&& final(self).proposals@ == old(self).proposals@.push(e)
                    &&& e.0 == old(self).next_proposal_id
                    &&& e.1.offchain_data@ == offchain_data@
                    &&& e.1.ratio == (0u128, 0u128)
                    &&& e.1.kind == kind
                    &&& e.1.creator == caller
                    &&& opt_list_eq(e.1.account_list, account_list)
                    &&& e.1.start_block == start_block
                    &&& e.1.end_block == end_block
                    &&& final(self).spec_proposal(old(self).next_proposal_id) == Some(e.1)
                    &&& forall|id: u32| id != old(self).next_proposal_id
                        ==> #[trigger] final(self).spec_proposal(id) == old(self).spec_proposal(id)
                    &&& final(self).next_proposal_id == old(self).next_proposal_id + 1
                    &&& final(self).config == old(self).config
                    &&& final(self).block_number == old(self).block_number
                    &&& final(self).registered_voters == old(self).registered_voters
                    &&& final(self).votes == old(self).votes
                    &&& final(self).ledger == old(self).ledger
                    &&& final(self).events@ == old(self).events@.push(Event::ProposalCreated {
                        proposal_id: old(self).next_proposal_id,
                        offchain_data,
                        creator: caller,
                        kind,
                        account_list,
                        start_block,
                        end_block,
                    })
                },
            }),
    {
        let caller = match origin {
            Origin::Root => {
                return Err(Error::BadOrigin);
            },
            Origin::Signed(c) => c,
        };
        if !contains_u64(&self.registered_voters, caller) {
            return Err(Error::VoterNotRegistered);
        }

        let current_block = self.block_number;
        if !(current_block <= start_block) {
            return Err(Error::ProposalCannotStartInThePast);
        }
        if !(start_block < end_block) {
            return Err(Error::ProposalCannotFinishBeforeStarting);
        }

        let duration = end_block - start_block;
        let buffer = start_block - current_block;
        if buffer > self.config.proposal_delay_limit as u64 {
            return Err(Error::ProposalStartIsTooFarAway);
        }
        if duration < self.config.proposal_minimum_duration as u64 {
            return Err(Error::ProposalDurationIsTooShort);
        }
        if duration > self.config.proposal_maximum_duration as u64 {
            return Err(Error::ProposalDurationIsTooLong);
        }

        let proposal_id = self.get_next_proposal_id();
        let proposal = ProposalData::new(
            clone_bytes(&offchain_data),
            kind,
            caller,
            clone_list(&account_list),
            start_block,
            end_block,
        );

        self.proposals.push((proposal_id, proposal));

        let event = Event::ProposalCreated {
            proposal_id,
            offchain_data,
            creator: caller,
            kind,
            account_list,
            start_block,
            end_block,
        };
        self.events.push(event);

        proof {
            let s0 = old(self).proposals@;
            let e = self.proposals@.last();
            assert(self.proposals@ == s0.push(e));
            assert forall|j: int| 0 <= j < s0.len() implies (#[trigger] s0[j]).0 != e.0 by {
                assert(s0[j].0 < old(self).next_proposal_id);
            }
            crate::tally::lemma_prop_lookup_push(s0, e);
            assert forall|j: int| 0 <= j < self.votes@.len() implies
                crate::tally::total_w(e.0)(#[trigger] self.votes@[j]) == 0
                && crate::tally::aye_w(e.0)(self.votes@[j]) == 0 by {
                assert(self.votes@[j].1.proposal_id < old(self).next_proposal_id);
            }
            lemma_sum_by_zero(self.votes@, crate::tally::total_w(e.0));
            lemma_sum_by_zero(self.votes@, crate::tally::aye_w(e.0));
            assert(forall|j: int| 0 <= j < s0.len() ==> #[trigger] self.proposals@[j] == s0[j]);
        }
        Ok(())
    }

    /// Cancel a pending proposal.  Only the administrator or the creator
    /// may cancel, and only before the proposal starts; the proposal
    /// leaves the store.
    pub fn cancel_proposal(&mut self, origin: Origin, proposal_id: ProposalId)
        -> (r: Result<(), Error>)
        requires
            old(self).wf(),
        ensures
            final(self).wf(),
            old(self).tally_exact() ==> final(self).tally_exact(),
            old(self).pending_gate_error(origin, proposal_id) matches Some(e)
                ==> r == Err::<(), Error>(e) && *final(self) == *old(self),
            old(self).pending_gate_error(origin, proposal_id) is None ==> ({
                &&& r == Ok::<(), Error>(())
                &&& final(self).spec_proposal(proposal_id) is None
                &&& forall|id: u32| id != proposal_id
                    ==> #[trigger] final(self).spec_proposal(id) == old(self).spec_proposal(id)
                &&& final(self).proposals@.len() == old(self).proposals@.len() - 1
                &&& final(self).config == old(self).config
                &&& final(self).block_number == old(self).block_number
                &&& final(self).registered_voters == old(self).registered_voters
                &&& final(self).next_proposal_id == old(self).next_proposal_id
                &&& final(self).votes == old(self).votes
                &&& final(self).ledger == old(self).ledger
                &&& final(self).events@ == old(self).events@.push(
                    Event::ProposalCancelled { proposal_id },
                )
            }),
    {
        let pi = match self.find_proposal(proposal_id) {
            None => {
                return Err(Error::ProposalDoesNotExist);
            },
            Some(i) => i,
        };
        let current_block = self.block_number;
        match origin {
            Origin::Root => {},
            Origin::Signed(c) => {
                if !self.proposals[pi].1.is_creator(&c) {
                    return Err(Error::OriginNoPermission);
                }
            },
        }
        if self.proposals[pi].1.has_started(&current_block) {
            return Err(Error::ProposalHasAlreadyStarted);
        }

        let _ = self.proposals.remove(pi);
        self.events.push(Event::ProposalCancelled { proposal_id });
        proof {
            self.lemma_after_proposal_removal(*old(self), pi as int);
        }
        Ok(())
    }

    /// Close a proposal whose end has been reached.  Any registered voter
    /// may trigger the closure; the proposal leaves the store and the
    /// final tally is announced.  Votes and holds are settled per voter
    /// through [`Pallet::claim`] afterwards.
    pub fn close_proposal(&mut self, origin: Origin, proposal_id: ProposalId)
        -> (r: Result<(), Error>)
        requires
            old(self).wf(),
        ensures
            final(self).wf(),
            old(self).tally_exact() ==> final(self).tally_exact(),
            old(self).close_error(origin, proposal_id) matches Some(e)
                ==> r == Err::<(), Error>(e) && *final(self) == *old(self),
            old(self).close_error(origin, proposal_id) is None ==> ({
                &&& r == Ok::<(), Error>(())
                &&& final(self).spec_proposal(proposal_id) is None
                &&& forall|id: u32| id != proposal_id
                    ==> #[trigger] final(self).spec_proposal(id) == old(self).spec_proposal(id)
                &&& final(self).proposals@.len() == old(self).proposals@.len() - 1
                &&& final(self).config == old(self).config
                &&& final(self).block_number == old(self).block_number
                &&& final(self).registered_voters == old(self).registered_voters
                &&& final(self).next_proposal_id == old(self).next_proposal_id
                &&& final(self).votes == old(self).votes
                &&& final(self).ledger == old(self).ledger
                &&& (old(self).spec_proposal(proposal_id) matches Some(p)
                    && final(self).events@ == old(self).events@.push(
                        Event::VoteCompleted { proposal_id, ratio: p.ratio },
                    ))
            }),
    {
        let caller = match origin {
            Origin::Root => {
                return Err(Error::BadOrigin);
            },
            Origin::Signed(c) => c,
        };
        if !contains_u64(&self.registered_voters, caller) {
            return Err(Error::VoterNotRegistered);
        }
        let pi = match self.find_proposal(proposal_id) {
            None => {
                return Err(Error::ProposalDoesNotExist);
            },
            Some(i) => i,
        };
        let current_block = self.block_number;
        if !self.proposals[pi].1.has_ended(&current_block) {
            return Err(Error::ProposalHasNotEndedYet);
        }

        let ratio = self.proposals[pi].1.ratio;
        let _ = self.proposals.remove(pi);
        self.events.push(Event::VoteCompleted { proposal_id, ratio });
        proof {
            self.lemma_after_proposal_removal(*old(self), pi as int);
        }
        Ok(())
    }

    /// Replace the account list of a pending proposal.  Only the
    /// administrator or the creator may do so, and only before the
    /// proposal starts.
    pub fn set_account_list(
        &mut self,
        origin: Origin,
        proposal_id: ProposalId,
        account_list: Option<Vec<u64>>,
    ) -> (r: Result<(), Error>)
        requires
            old(self).wf(),
            account_list matches Some(l) ==> l@.len() <= old(self).config.account_size_limit,
        ensures
            final(self).wf(),
            old(self).tally_exact() ==> final(self).tally_exact(),
            old(self).pending_gate_error(origin, proposal_id) matches Some(e)
                ==> r == Err::<(), Error>(e) && *final(self) == *old(self),
            old(self).pending_gate_error(origin, proposal_id) is None ==> ({
                &&& r == Ok::<(), Error>(())
                &&& (final(self).spec_proposal(proposal_id) matches Some(np)
                    && old(self).spec_proposal(proposal_id) matches Some(p)
                    && np.offchain_data == p.offchain_data
                    && np.ratio == p.ratio
                    && np.kind == p.kind
                    && np.creator == p.creator
                    && np.start_block == p.start_block
                    && np.end_block == p.end_block
                    && opt_list_eq(np.account_list, account_list))
                &&& forall|id: u32| id != proposal_id
                    ==> #[trigger] final(self).spec_proposal(id) == old(self).spec_proposal(id)
                &&& final(self).proposals@.len() == old(self).proposals@.len()
                &&& final(self).config == old(self).config
                &&& final(self).block_number == old(self).block_number
                &&& final(self).registered_voters == old(self).registered_voters
                &&& final(self).next_proposal_id == old(self).next_proposal_id
                &&& final(self).votes == old(self).votes
                &&& final(self).ledger == old(self).ledger
                &&& final(self).events@ == old(self).events@.push(
                    Event::AccountListSet { proposal_id, account_list },
                )
            }),
    {
        let pi = match self.find_proposal(proposal_id) {
            None => {
                return Err(Error::ProposalDoesNotExist);
            },
            Some(i) => i,
        };
        let current_block = self.block_number;
        match origin {
            Origin::Root => {},
            Origin::Signed(c) => {
                if !self.proposals[pi].1.is_creator(&c) {
                    return Err(Error::OriginNoPermission);
                }
            },
        }
        if self.proposals[pi].1.has_started(&current_block) {
            return Err(Error::ProposalHasAlreadyStarted);
        }

        let (eid, mut pd) = self.proposals.remove(pi);
        pd.account_list = clone_list(&account_list);
        self.proposals.insert(pi, (eid, pd));
        self.events.push(Event::AccountListSet { proposal_id, account_list });

        proof {
            let s0 = old(self).proposals@;
            let e = self.proposals@[pi as int];
            assert(s0.remove(pi as int).insert(pi as int, e) =~= s0.update(pi as int, e));
            crate::tally::lemma_prop_lookup_update(s0, pi as int, e);
            assert(forall|j: int| 0 <= j < self.proposals@.len() && j != pi
                ==> #[trigger] self.proposals@[j] == s0[j]);
        }
        Ok(())
    }

    /// After removing the proposal at index `pi` (and only touching the
    /// event log besides), the store keeps every other id and all
    /// invariants.
    proof fn lemma_after_proposal_removal(&self, prev: Pallet, pi: int)
        requires
            prev.wf(),
            0 <= pi < prev.proposals@.len(),
            self.proposals@ == prev.proposals@.remove(pi),
            self.config == prev.config,
            self.registered_voters == prev.registered_voters,
            self.next_proposal_id == prev.next_proposal_id,
            self.votes == prev.votes,
            self.ledger == prev.ledger,
        ensures
            self.wf(),
            prev.tally_exact() ==> self.tally_exact(),
            self.spec_proposal(prev.proposals@[pi].0) is None,
            forall|id: u32| id != prev.proposals@[pi].0
                ==> #[trigger] self.spec_proposal(id) == prev.spec_proposal(id),
    {
        let s0 = prev.proposals@;
        crate::tally::lemma_prop_lookup_remove(s0, pi);
        assert(forall|k: int| 0 <= k < pi ==> #[trigger] self.proposals@[k] == s0[k]);
        assert(forall|k: int| pi <= k < self.proposals@.len()
            ==> #[trigger] self.proposals@[k] == s0[k + 1]);
        assert forall|w: u64| #[trigger] hold_sum(self.votes@, w)
            == frozen_of(self.ledger.accounts@, w) by {
            assert(hold_sum(prev.votes@, w) == frozen_of(prev.ledger.accounts@, w));
        }
    }

    /// Whether the account list of `p` admits `caller`: for a `Public`
    /// proposal the list bans, for a `Private` proposal it allows.
    pub open spec fn vote_admitted(p: ProposalData, caller: u64) -> bool {
        match p.account_list {
            None => true,
            Some(l) => match p.kind {
                crate::types::ProposalKind::Public => !l@.contains(caller),
                crate::types::ProposalKind::Private => l@.contains(caller),
            },
        }
    }

    /// The validation chain of [`Pallet::vote`]: the first failing check,
    /// if any, in the order the operation tests them.
    pub open spec fn vote_error(
        self,
        origin: Origin,
        proposal_id: ProposalId,
        aye: bool,
        power: u128,
    ) -> Option<Error> {
        match origin {
            Origin::Root => Some(Error::BadOrigin),
            Origin::Signed(caller) => {
                if !self.spec_registered(caller) {
                    Some(Error::VoterNotRegistered)
                } else {
                    match self.spec_proposal(proposal_id) {
                        None => Some(Error::ProposalDoesNotExist),
                        Some(p) => {
                            if !(p.start_block <= self.block_number) {
                                Some(Error::ProposalHasNotStartedYet)
                            } else if p.end_block <= self.block_number {
                                Some(Error::ProposalHasAlreadyEnded)
                            } else if !Self::vote_admitted(p, caller) {
                                Some(Error::OriginNoPermission)
                            } else {
                                let prev = self.spec_vote(caller, proposal_id);
                                let prev_power = match prev {
                                    Some(v) => v.power,
                                    None => 0u128,
                                };
                                let increase = match prev {
                                    Some(v) => v.power < power,
                                    None => true,
                                };
                                if prev matches Some(v) && v.power == power && v.aye == aye {
                                    Some(Error::IdenticVote)
                                } else if increase && reducible_of(
                                    self.ledger.accounts@,
                                    self.ledger.existential_deposit,
                                    caller,
                                ) < sat_sub_0(qcost(power), qcost(prev_power)) {
                                    Some(Error::InsufficientBalance)
                                } else {
                                    None
                                }
                            }
                        },
                    }
                }
            },
        }
    }

    /// How a successful [`Pallet::vote`] call by `caller` relates the new
    /// state to the old one: the hold and the frozen balance move by the
    /// cost difference, the vote record is upserted (or dropped at zero
    /// power), the proposal's tally moves accordingly, and one event is
    /// announced.
    pub open spec fn vote_applied(
        pre: Pallet,
        post: Pallet,
        caller: u64,
        proposal_id: ProposalId,
        aye: bool,
        power: u128,
    ) -> bool {
        let prev = pre.spec_vote(caller, proposal_id);
        let prev_power = match prev {
            Some(v) => v.power,
            None => 0u128,
        };
        let delta_hold = qcost(power) - qcost(prev_power);
        &&& post.config == pre.config
        &&& post.block_number == pre.block_number
        &&& post.registered_voters == pre.registered_voters
        &&& post.next_proposal_id == pre.next_proposal_id
        &&& post.ledger.existential_deposit == pre.ledger.existential_deposit
        &&& forall|w: u64| free_of(post.ledger.accounts@, w)
            == free_of(pre.ledger.accounts@, w)
        &&& frozen_of(post.ledger.accounts@, caller)
            == frozen_of(pre.ledger.accounts@, caller) + delta_hold
        &&& forall|w: u64| w != caller ==> frozen_of(post.ledger.accounts@, w)
            == frozen_of(pre.ledger.accounts@, w)
        &&& (power == 0 ==> post.spec_vote(caller, proposal_id) is None
            && post.votes@.len() == pre.votes@.len() - (if prev is Some { 1int } else { 0 }))
        &&& (power != 0 ==> post.spec_vote(caller, proposal_id)
                == Some(VoteInfo { proposal_id, aye, power })
            && post.votes@.len() == pre.votes@.len() + (if prev is Some { 0int } else { 1 }))
        &&& forall|w: u64, id: u32| !(w == caller && id == proposal_id)
            ==> #[trigger] post.spec_vote(w, id) == pre.spec_vote(w, id)
        &&& forall|id: u32| id != proposal_id
            ==> #[trigger] post.spec_proposal(id) == pre.spec_proposal(id)
        &&& (pre.spec_proposal(proposal_id) matches Some(p)
            && post.spec_proposal(proposal_id) matches Some(np)
            && np.same_except_ratio(p)
            && np.ratio.1 as int == p.ratio.1 + delta_hold
            && np.ratio.0 as int == (if prev is None || prev_power < power {
                if aye {
                    sat_add_u128(p.ratio.0 as int, sat_sub_0(qcost(power), qcost(prev_power)))
                } else {
                    p.ratio.0 as int
                }
            } else {
                if aye {
                    sat_sub_0(p.ratio.0 as int, sat_sub_0(qcost(prev_power), qcost(power)))
                } else {
                    p.ratio.0 as int
                }
            }))
        &&& (power == 0 ==> post.events@ == pre.events@.push(
            Event::VoteDropped { proposal_id, voter: caller },
        ))
        &&& (power != 0 ==> post.events@ == pre.events@.push(
            Event::VoteAdded { proposal_id, voter: caller, aye, power },
        ))
    }

    /// Raise the freeze of `who` by the cost difference between `power`
    /// and `prev_power`, after checking the spendable balance covers it.
    /// Touches nothing but the ledger, and nothing at all on failure.
    fn freeze(&mut self, who: u64, prev_power: u128, power: u128) -> (r: Result<(), Error>)
        requires
            old(self).ledger.wf(),
        ensures
            final(self).ledger.wf(),
            final(self).config == old(self).config,
            final(self).block_number == old(self).block_number,
            final(self).registered_voters == old(self).registered_voters,
            final(self).next_proposal_id == old(self).next_proposal_id,
            final(self).proposals == old(self).proposals,
            final(self).votes == old(self).votes,
            final(self).events == old(self).events,
            final(self).ledger.existential_deposit == old(self).ledger.existential_deposit,
            ({
                let led = old(self).ledger;
                let additional = sat_sub_0(qcost(power), qcost(prev_power));
                if reducible_of(led.accounts@, led.existential_deposit, who) < additional {
                    r == Err::<(), Error>(Error::InsufficientBalance)
                        && *final(self) == *old(self)
                } else {
                    &&& r == Ok::<(), Error>(())
                    &&& frozen_of(final(self).ledger.accounts@, who)
                        == frozen_of(led.accounts@, who) + additional
                    &&& forall|w: u64| w != who ==> frozen_of(final(self).ledger.accounts@, w)
                        == frozen_of(led.accounts@, w)
                    &&& forall|w: u64| free_of(final(self).ledger.accounts@, w)
                        == free_of(led.accounts@, w)
                }
            }),
    {
        let current_frozen_balance = self.ledger.balance_frozen(who);
        let prev_amount = quad_u128(prev_power);
        let new_amount = quad_u128(power);
        let additional_amount = new_amount.saturating_sub(prev_amount);

        let available_balance = self.ledger.reducible_balance(who);
        if available_balance < additional_amount {
            return Err(Error::InsufficientBalance);
        }

        proof {
            crate::ledger::lemma_frozen_le_free(self.ledger.accounts@, who);
        }
        let new_freeze_amount = current_frozen_balance.saturating_add(additional_amount);
        self.ledger.set_freeze(who, new_freeze_amount);
        Ok(())
    }

    /// Lower the freeze of `who` by the cost difference between
    /// `prev_power` and `power`, flooring at zero.  Touches nothing but
    /// the ledger and never fails.
    fn unfreeze(&mut self, who: u64, prev_power: u128, power: u128)
        requires
            old(self).ledger.wf(),
        ensures
            final(self).ledger.wf(),
            final(self).config == old(self).config,
            final(self).block_number == old(self).block_number,
            final(self).registered_voters == old(self).registered_voters,
            final(self).next_proposal_id == old(self).next_proposal_id,
            final(self).proposals == old(self).proposals,
            final(self).votes == old(self).votes,
            final(self).events == old(self).events,
            final(self).ledger.existential_deposit == old(self).ledger.existential_deposit,
            frozen_of(final(self).ledger.accounts@, who) == sat_sub_0(
                frozen_of(old(self).ledger.accounts@, who),
                sat_sub_0(qcost(prev_power), qcost(power)),
            ),
            forall|w: u64| w != who ==> frozen_of(final(self).ledger.accounts@, w)
                == frozen_of(old(self).ledger.accounts@, w),
            forall|w: u64| free_of(final(self).ledger.accounts@, w)
                == free_of(old(self).ledger.accounts@, w),
    {
        let current_frozen_balance = self.ledger.balance_frozen(who);
        let prev_amount = quad_u128(prev_power);
        let new_amount = quad_u128(power);
        let extra_amount = prev_amount.saturating_sub(new_amount);

        proof {
            crate::ledger::lemma_frozen_le_free(self.ledger.accounts@, who);
        }
        let new_freeze_amount = current_frozen_balance.saturating_sub(extra_amount);
        self.ledger.set_freeze(who, new_freeze_amount);
    }

    /// Cast, adjust, or retract a vote on an open proposal.  The caller
    /// must be a registered voter admitted by the proposal's account
    /// list; the proposal must have started and not ended.  The cost
    /// difference against the standing vote is frozen or released, the
    /// tally moves by the same amount, and the record is upserted — or
    /// dropped when `power` is zero, which on a voter without a standing
    /// vote succeeds as a no-op that still announces the drop.
    pub fn vote(
        &mut self,
        origin: Origin,
        proposal_id: ProposalId,
        aye: bool,
        power: u128,
    ) -> (r: Result<(), Error>)
        requires
            old(self).wf(),
        ensures
            final(self).wf(),
            old(self).vote_error(origin, proposal_id, aye, power) matches Some(e)
                ==> r == Err::<(), Error>(e) && *final(self) == *old(self),
            old(self).vote_error(origin, proposal_id, aye, power) is None ==> (match origin {
                Origin::Root => false,
                Origin::Signed(caller) => r == Ok::<(), Error>(())
                    && Self::vote_applied(
                        *old(self),
                        *final(self),
                        caller,
                        proposal_id,
                        aye,
                        power,
                    ),
            }),
            (old(self).tally_exact() && (match origin {
                Origin::Root => true,
                Origin::Signed(caller) => match old(self).spec_vote(caller, proposal_id) {
                    Some(v) => v.aye == aye,
                    None => true,
                },
            })) ==> final(self).tally_exact(),
    {
        let caller = match origin {
            Origin::Root => {
                return Err(Error::BadOrigin);
            },
            Origin::Signed(c) => c,
        };
        if !contains_u64(&self.registered_voters, caller) {
            return Err(Error::VoterNotRegistered);
        }

        let current_block = self.block_number;
        let pi = match self.find_proposal(proposal_id) {
            None => {
                return Err(Error::ProposalDoesNotExist);
            },
            Some(i) => i,
        };
        if !self.proposals[pi].1.has_started(&current_block) {
            return Err(Error::ProposalHasNotStartedYet);
        }
        if self.proposals[pi].1.has_ended(&current_block) {
            return Err(Error::ProposalHasAlreadyEnded);
        }

        let admitted = match &self.proposals[pi].1.account_list {
            None => true,
            Some(list) => {
                let listed = contains_u64(list, caller);
                match self.proposals[pi].1.kind {
                    crate::types::ProposalKind::Public => !listed,
                    crate::types::ProposalKind::Private => listed,
                }
            },
        };
        if !admitted {
            return Err(Error::OriginNoPermission);
        }

        let vi_opt = self.find_vote(caller, proposal_id);
        let prev_power: u128;
        match vi_opt {
            Some(vi) => {
                let v = self.votes[vi].1;
                if v.power == power && v.aye == aye {
                    return Err(Error::IdenticVote);
                }
                prev_power = v.power;
                if v.power < power {
                    proof {
                        crate::types::lemma_qcost_mono(v.power, power);
                    }
                    match self.freeze(caller, v.power, power) {
                        Err(e) => {
                            return Err(e);
                        },
                        Ok(()) => {},
                    }
                    let (eid, mut pd) = self.proposals.remove(pi);
                    pd.add_ratio(aye, v.power, power);
                    self.proposals.insert(pi, (eid, pd));
                    proof {
                        assert(old(self).proposals@.remove(pi as int).insert(
                            pi as int,
                            self.proposals@[pi as int],
                        ) =~= old(self).proposals@.update(pi as int, self.proposals@[pi as int]));
                    }
                } else {
                    proof {
                        crate::types::lemma_qcost_mono(power, v.power);
                    }
                    self.unfreeze(caller, v.power, power);
                    let (eid, mut pd) = self.proposals.remove(pi);
                    pd.remove_ratio(aye, v.power, power);
                    self.proposals.insert(pi, (eid, pd));
                    proof {
                        assert(old(self).proposals@.remove(pi as int).insert(
                            pi as int,
                            self.proposals@[pi as int],
                        ) =~= old(self).proposals@.update(pi as int, self.proposals@[pi as int]));
                    }
                }
            },
            None => {
                prev_power = 0;
                proof {
                    crate::types::lemma_qcost_mono(0, power);
                }
                match self.freeze(caller, 0, power) {
                    Err(e) => {
                        return Err(e);
                    },
                    Ok(()) => {},
                }
                let (eid, mut pd) = self.proposals.remove(pi);
                pd.add_ratio(aye, 0, power);
                self.proposals.insert(pi, (eid, pd));
                proof {
                    assert(old(self).proposals@.remove(pi as int).insert(
                        pi as int,
                        self.proposals@[pi as int],
                    ) =~= old(self).proposals@.update(pi as int, self.proposals@[pi as int]));
                }
            },
        }

        if power == 0 {
            match vi_opt {
                Some(vi) => {
                    let _ = self.votes.remove(vi);
                },
                None => {},
            }
            self.events.push(Event::VoteDropped { proposal_id, voter: caller });
        } else {
            let nv = VoteInfo { proposal_id, aye, power };
            match vi_opt {
                Some(vi) => {
                    crate::seq_facts::vec_update(&mut self.votes, vi, (caller, nv));
                },
                None => {
                    self.votes.push((caller, nv));
                },
            }
            self.events.push(Event::VoteAdded { proposal_id, voter: caller, aye, power });
        }

        proof {
            let s0 = old(self).votes@;
            let l0 = old(self).ledger.accounts@;
            assert(hold_sum(s0, caller) == frozen_of(l0, caller));
            match vi_opt {
                Some(vi) => {
                    assert forall|k: int| 0 <= k < s0.len() implies
                        hold_w(caller)(#[trigger] s0[k]) >= 0 by {
                        lemma_qcost_nonneg(s0[k].1.power);
                    }
                    lemma_sum_by_lower(s0, vi as int, hold_w(caller));
                    lemma_qcost_nonneg(s0[vi as int].1.power);
                    lemma_qcost_nonneg(power);
                    if s0[vi as int].1.power < power {
                        lemma_qcost_mono(s0[vi as int].1.power, power);
                    } else {
                        lemma_qcost_mono(power, s0[vi as int].1.power);
                    }
                },
                None => {
                    lemma_qcost_mono(0, power);
                    lemma_qcost_nonneg(power);
                },
            }
            self.lemma_vote_success(*old(self), caller, proposal_id, aye, power, pi as int, vi_opt);
        }
        Ok(())
    }

    /// The validation chain of [`Pallet::claim`]: a registered signed
    /// caller, a proposal no longer in the store, and a standing vote of
    /// the caller on it.
    pub open spec fn claim_error(self, origin: Origin, proposal_id: ProposalId)
        -> Option<Error> {
        match origin {
            Origin::Root => Some(Error::BadOrigin),
            Origin::Signed(c) => {
                if !self.spec_registered(c) {
                    Some(Error::VoterNotRegistered)
                } else if self.spec_proposal(proposal_id) is Some {
                    Some(Error::ProposalNotClosed)
                } else if self.spec_vote(c, proposal_id) is None {
                    Some(Error::ClaimDoesNotExist)
                } else {
                    None
                }
            },
        }
    }

    /// Release the hold backing the caller's vote on a closed proposal.
    /// The vote record is deleted, the voter's frozen balance drops by the
    /// vote's full quadratic cost, and that amount is announced.
    pub fn claim(&mut self, origin: Origin, proposal_id: ProposalId) -> (r: Result<(), Error>)
        requires
            old(self).wf(),
        ensures
            final(self).wf(),
            old(self).tally_exact() ==> final(self).tally_exact(),
            old(self).claim_error(origin, proposal_id) matches Some(e)
                ==> r == Err::<(), Error>(e) && *final(self) == *old(self),
            old(self).claim_error(origin, proposal_id) is None ==> (match origin {
                Origin::Root => false,
                Origin::Signed(caller) => {
                    let v = old(self).spec_vote(caller, proposal_id);
                    &&& r == Ok::<(), Error>(())
                    &&& v is Some
                    &&& final(self).spec_vote(caller, proposal_id) is None
                    &&& forall|w: u64, id: u32| !(w == caller && id == proposal_id)
                        ==> #[trigger] final(self).spec_vote(w, id) == old(self).spec_vote(w, id)
                    &&& final(self).votes@.len() == old(self).votes@.len() - 1
                    &&& (v matches Some(vv)
                        && frozen_of(final(self).ledger.accounts@, caller)
                            == frozen_of(old(self).ledger.accounts@, caller) - qcost(vv.power)
                        && final(self).events@ == old(self).events@.push(
                            Event::BalanceClaimed {
                                who: caller,
                                amount: qcost(vv.power) as u128,
                            },
                        ))
                    &&& forall|w: u64| w != caller
                        ==> frozen_of(final(self).ledger.accounts@, w)
                            == frozen_of(old(self).ledger.accounts@, w)
                    &&& forall|w: u64| free_of(final(self).ledger.accounts@, w)
                        == free_of(old(self).ledger.accounts@, w)
                    &&& final(self).ledger.existential_deposit
                        == old(self).ledger.existential_deposit
                    &&& final(self).proposals == old(self).proposals
                    &&& final(self).registered_voters == old(self).registered_voters
                    &&& final(self).next_proposal_id == old(self).next_proposal_id
                    &&& final(self).config == old(self).config
                    &&& final(self).block_number == old(self).block_number
                },
            }),
    {
        let caller = match origin {
            Origin::Root => {
                return Err(Error::BadOrigin);
            },
            Origin::Signed(c) => c,
        };
        if !contains_u64(&self.registered_voters, caller) {
            return Err(Error::VoterNotRegistered);
        }
        match self.find_proposal(proposal_id) {
            Some(_) => {
                return Err(Error::ProposalNotClosed);
            },
            None => {},
        }
        let vi = match self.find_vote(caller, proposal_id) {
            None => {
                return Err(Error::ClaimDoesNotExist);
            },
            Some(i) => i,
        };

        let v = self.votes[vi].1;
        self.unfreeze(caller, v.power, 0);
        let _ = self.votes.remove(vi);
        let amount = quad_u128(v.power);
        self.events.push(Event::BalanceClaimed { who: caller, amount });

        proof {
            let s0 = old(self).votes@;
            let s1 = self.votes@;
            let p0 = self.proposals@;
            lemma_qcost_nonneg(v.power);
            assert(qcost(0) == 0);
            assert forall|k: int| 0 <= k < s0.len() implies
                hold_w(caller)(#[trigger] s0[k]) >= 0 by {
                lemma_qcost_nonneg(s0[k].1.power);
            }
            assert(hold_sum(s0, caller) == frozen_of(old(self).ledger.accounts@, caller));
            lemma_sum_by_lower(s0, vi as int, hold_w(caller));
            lemma_vote_lookup_remove(s0, vi as int);
            assert forall|w: u64| #[trigger] hold_sum(s1, w)
                == frozen_of(self.ledger.accounts@, w) by {
                lemma_sum_by_remove(s0, vi as int, hold_w(w));
                assert(hold_sum(s0, w) == frozen_of(old(self).ledger.accounts@, w));
            }
            assert forall|j: int| 0 <= j < p0.len() implies {
                let e = #[trigger] p0[j];
                e.1.ratio.1 as int == total_sum(s1, e.0)
            } by {
                lemma_sum_by_remove(s0, vi as int, total_w(p0[j].0));
                assert(p0[j].0 != proposal_id);
            }
            assert forall|k: int| 0 <= k < s1.len() implies {
                let e = #[trigger] s1[k];
                e.1.power > 0 && e.1.proposal_id < self.next_proposal_id
            } by {
                let ok = if k < vi as int { k } else { k + 1 };
                assert(s1[k] == s0[ok]);
            }
            if old(self).tally_exact() {
                assert forall|j: int| 0 <= j < p0.len() implies {
                    let e = #[trigger] p0[j];
                    e.1.ratio.0 as int == aye_sum(s1, e.0)
                } by {
                    lemma_sum_by_remove(s0, vi as int, aye_w(p0[j].0));
                    assert(p0[j].0 != proposal_id);
                }
            }
        }
        Ok(())
    }

    /// The permission rule of [`Pallet::unregister_voter`]: the
    /// administrator, or the voter unregistering themself.
    pub open spec fn unregister_error(self, origin: Origin, who: u64) -> Option<Error> {
        match origin {
            Origin::Root => None,
            Origin::Signed(c) => if c == who {
                None
            } else {
                Some(Error::OriginNoPermission)
            },
        }
    }

    /// Unregister `who`, cascading over every vote they still own: each
    /// vote's hold is released, its contribution to the proposal's tally
    /// is reversed, and the record is deleted; then `who` leaves the
    /// registry.  Callable by the administrator or by `who` themself.
    pub fn unregister_voter(&mut self, origin: Origin, who: u64) -> (r: Result<(), Error>)
        requires
            old(self).wf(),
        ensures
            final(self).wf(),
            old(self).tally_exact() ==> final(self).tally_exact(),
            old(self).unregister_error(origin, who) matches Some(e)
                ==> r == Err::<(), Error>(e) && *final(self) == *old(self),
            old(self).unregister_error(origin, who) is None ==> ({
                &&& r == Ok::<(), Error>(())
                &&& forall|w: u64| #[trigger] final(self).spec_registered(w)
                    == (old(self).spec_registered(w) && w != who)
                &&& final(self).votes@ == votes_excluding(old(self).votes@, who)
                &&& forall|id: u32| #[trigger] final(self).spec_vote(who, id) is None
                &&& forall|w: u64, id: u32| w != who
                    ==> #[trigger] final(self).spec_vote(w, id) == old(self).spec_vote(w, id)
                &&& frozen_of(final(self).ledger.accounts@, who) == 0
                &&& forall|w: u64| w != who ==> frozen_of(final(self).ledger.accounts@, w)
                    == frozen_of(old(self).ledger.accounts@, w)
                &&& forall|w: u64| free_of(final(self).ledger.accounts@, w)
                    == free_of(old(self).ledger.accounts@, w)
                &&& final(self).ledger.existential_deposit
                    == old(self).ledger.existential_deposit
                &&& final(self).proposals@.len() == old(self).proposals@.len()
                &&& forall|j: int| 0 <= j < old(self).proposals@.len() ==> ({
                    let e0 = #[trigger] old(self).proposals@[j];
                    let e1 = final(self).proposals@[j];
                    let contrib_total = (match vote_of(old(self).votes@, who, e0.0) {
                        Some(v) => qcost(v.power),
                        None => 0int,
                    });
                    let contrib_aye = (match vote_of(old(self).votes@, who, e0.0) {
                        Some(v) => if v.aye { qcost(v.power) } else { 0int },
                        None => 0int,
                    });
                    &&& e1.0 == e0.0
                    &&& e1.1.same_except_ratio(e0.1)
                    &&& e1.1.ratio.1 as int == e0.1.ratio.1 - contrib_total
                    &&& e1.1.ratio.0 as int == sat_sub_0(e0.1.ratio.0 as int, contrib_aye)
                })
                &&& final(self).config == old(self).config
                &&& final(self).block_number == old(self).block_number
                &&& final(self).next_proposal_id == old(self).next_proposal_id
                &&& final(self).events@ == old(self).events@.push(
                    Event::VoterUnregistered { who },
                )
            }),
    {
        match origin {
            Origin::Root => {},
            Origin::Signed(c) => {
                if c != who {
                    return Err(Error::OriginNoPermission);
                }
            },
        }

        let mut i: usize = 0;
        while i < self.votes.len()
            invariant
                old(self).wf(),
                self.wf(),
                i <= self.votes@.len(),
                forall|k: int| 0 <= k < i ==> (#[trigger] self.votes@[k]).0 != who,
                votes_excluding(self.votes@, who) == votes_excluding(old(self).votes@, who),
                forall|w: u64, id: u32| w != who ==> #[trigger] vote_of(self.votes@, w, id)
                    == vote_of(old(self).votes@, w, id),
                forall|id: u32| #[trigger] vote_of(self.votes@, who, id)
                    == vote_of(old(self).votes@, who, id)
                    || vote_of(self.votes@, who, id) is None,
                self.config == old(self).config,
                self.block_number == old(self).block_number,
                self.registered_voters == old(self).registered_voters,
                self.next_proposal_id == old(self).next_proposal_id,
                self.events == old(self).events,
                self.ledger.existential_deposit == old(self).ledger.existential_deposit,
                forall|w: u64| free_of(self.ledger.accounts@, w)
                    == free_of(old(self).ledger.accounts@, w),
                forall|w: u64| w != who ==> frozen_of(self.ledger.accounts@, w)
                    == frozen_of(old(self).ledger.accounts@, w),
                self.proposals@.len() == old(self).proposals@.len(),
                forall|j: int| 0 <= j < old(self).proposals@.len() ==> ({
                    let e0 = #[trigger] old(self).proposals@[j];
                    let e1 = self.proposals@[j];
                    &&& e1.0 == e0.0
                    &&& e1.1.same_except_ratio(e0.1)
                    &&& e1.1.ratio.0 as int == (if vote_of(self.votes@, who, e0.0) is Some
                            || vote_of(old(self).votes@, who, e0.0) is None {
                        e0.1.ratio.0 as int
                    } else {
                        sat_sub_0(
                            e0.1.ratio.0 as int,
                            (match vote_of(old(self).votes@, who, e0.0) {
                                Some(v) => if v.aye { qcost(v.power) } else { 0int },
                                None => 0int,
                            }),
                        )
                    })
                }),
                old(self).tally_exact() ==> self.tally_exact(),
            decreases self.votes@.len() - i,
        {
            if self.votes[i].0 == who {
                let v = self.votes[i].1;
                let prev = Ghost(*self);
                proof {
                    lemma_qcost_nonneg(v.power);
                    assert(qcost(0) == 0);
                    crate::tally::lemma_vote_lookup_at(self.votes@, i as int);
                    assert forall|k: int| 0 <= k < self.votes@.len() implies
                        hold_w(who)(#[trigger] self.votes@[k]) >= 0
                        && total_w(v.proposal_id)(self.votes@[k]) >= 0
                        && aye_w(v.proposal_id)(self.votes@[k]) >= 0 by {
                        lemma_qcost_nonneg(self.votes@[k].1.power);
                    }
                    lemma_sum_by_lower(self.votes@, i as int, hold_w(who));
                    lemma_sum_by_lower(self.votes@, i as int, total_w(v.proposal_id));
                    lemma_sum_by_lower(self.votes@, i as int, aye_w(v.proposal_id));
                    assert(hold_sum(self.votes@, who)
                        == frozen_of(self.ledger.accounts@, who));
                }
                self.unfreeze(who, v.power, 0);
                match self.find_proposal(v.proposal_id) {
                    Some(pi) => {
                        let (eid, mut pd) = self.proposals.remove(pi);
                        pd.remove_ratio(v.aye, v.power, 0);
                        self.proposals.insert(pi, (eid, pd));
                        proof {
                            assert(prev@.proposals@.remove(pi as int).insert(
                                pi as int,
                                self.proposals@[pi as int],
                            ) =~= prev@.proposals@.update(
                                pi as int,
                                self.proposals@[pi as int],
                            ));
                            crate::tally::lemma_prop_lookup_at(prev@.proposals@, pi as int);
                            lemma_prop_lookup_update(
                                prev@.proposals@,
                                pi as int,
                                self.proposals@[pi as int],
                            );
                        }
                    },
                    None => {},
                }
                let _ = self.votes.remove(i);
                proof {
                    let s_prev = prev@.votes@;
                    let s_now = self.votes@;
                    lemma_vote_lookup_remove(s_prev, i as int);
                    crate::seq_facts::lemma_reject_by_remove_match(
                        s_prev,
                        crate::tally::voter_match(who),
                        i as int,
                    );
                    assert forall|w: u64| #[trigger] hold_sum(s_now, w)
                        == frozen_of(self.ledger.accounts@, w) by {
                        lemma_sum_by_remove(s_prev, i as int, hold_w(w));
                        assert(hold_sum(s_prev, w) == frozen_of(prev@.ledger.accounts@, w));
                    }
                    assert forall|j: int| 0 <= j < self.proposals@.len() implies {
                        let e = #[trigger] self.proposals@[j];
                        &&& e.0 < self.next_proposal_id
                        &&& e.1.wf(self.config)
                        &&& e.1.ratio.1 as int == total_sum(s_now, e.0)
                    } by {
                        lemma_sum_by_remove(s_prev, i as int, total_w(self.proposals@[j].0));
                    }
                    assert forall|k: int| 0 <= k < s_now.len() implies {
                        let e = #[trigger] s_now[k];
                        e.1.power > 0 && e.1.proposal_id < self.next_proposal_id
                    } by {
                        let ok = if k < i as int { k } else { k + 1 };
                        assert(s_now[k] == s_prev[ok]);
                    }
                    assert forall|k: int| 0 <= k < i implies
                        (#[trigger] s_now[k]).0 != who by {
                        assert(s_now[k] == s_prev[k]);
                    }
                    if prev@.tally_exact() {
                        assert forall|j: int| 0 <= j < self.proposals@.len() implies {
                            let e = #[trigger] self.proposals@[j];
                            e.1.ratio.0 as int == aye_sum(s_now, e.0)
                        } by {
                            lemma_sum_by_remove(s_prev, i as int, aye_w(self.proposals@[j].0));
                        }
                    }
                }
            } else {
                i += 1;
            }
        }

        remove_u64(&mut self.registered_voters, who);
        self.events.push(Event::VoterUnregistered { who });

        proof {
            let s_end = self.votes@;
            let s0 = old(self).votes@;
            crate::seq_facts::lemma_reject_by_no_match(s_end, crate::tally::voter_match(who));
            assert(s_end == votes_excluding(s0, who));
            assert forall|id: u32| #[trigger] vote_of(s_end, who, id) is None by {
                crate::tally::lemma_vote_lookup_absent(s_end, who, id);
            }
            assert forall|k: int| 0 <= k < s_end.len() implies
                hold_w(who)(#[trigger] s_end[k]) == 0 by {
            }
            crate::seq_facts::lemma_sum_by_zero(s_end, hold_w(who));
            assert(frozen_of(self.ledger.accounts@, who) == 0) by {
                assert(hold_sum(s_end, who) == frozen_of(self.ledger.accounts@, who));
            }
            assert forall|j: int| 0 <= j < old(self).proposals@.len() implies ({
                let e0 = #[trigger] old(self).proposals@[j];
                let e1 = self.proposals@[j];
                let contrib_total = (match vote_of(s0, who, e0.0) {
                    Some(v) => qcost(v.power),
                    None => 0int,
                });
                &&& e1.1.ratio.1 as int == e0.1.ratio.1 - contrib_total
            }) by {
                let e0 = old(self).proposals@[j];
                crate::tally::lemma_excluding_prop_sums(s0, who, e0.0);
                assert(self.proposals@[j].1.ratio.1 as int == total_sum(s_end, e0.0));
                assert(e0.1.ratio.1 as int == total_sum(s0, e0.0));
            }
        }
        Ok(())
    }

    /// Everything a successful vote guarantees, proved from the pointwise
    /// edits the operation makes: conservation and the tallies move by the
    /// cost difference, and nothing else changes.
    #[verifier::rlimit(100)]
    proof fn lemma_vote_success(
        &self,
        prev: Pallet,
        caller: u64,
        proposal_id: ProposalId,
        aye: bool,
        power: u128,
        pi: int,
        vi_opt: Option<usize>,
    )
        requires
            prev.wf(),
            self.ledger.wf(),
            0 <= pi < prev.proposals@.len(),
            prev.proposals@[pi].0 == proposal_id,
            (match vi_opt {
                Some(vi) => (vi as int) < prev.votes@.len()
                    && prev.votes@[vi as int].0 == caller
                    && prev.votes@[vi as int].1.proposal_id == proposal_id
                    && prev.spec_vote(caller, proposal_id) == Some(prev.votes@[vi as int].1),
                None => prev.spec_vote(caller, proposal_id) is None,
            }),
            self.config == prev.config,
            self.block_number == prev.block_number,
            self.registered_voters == prev.registered_voters,
            self.next_proposal_id == prev.next_proposal_id,
            self.ledger.existential_deposit == prev.ledger.existential_deposit,
            forall|w: u64| free_of(self.ledger.accounts@, w)
                == free_of(prev.ledger.accounts@, w),
            ({
                let prev_power = (match vi_opt {
                    Some(vi) => prev.votes@[vi as int].1.power,
                    None => 0u128,
                });
                frozen_of(self.ledger.accounts@, caller)
                    == frozen_of(prev.ledger.accounts@, caller) + qcost(power)
                        - qcost(prev_power)
            }),
            forall|w: u64| w != caller ==> frozen_of(self.ledger.accounts@, w)
                == frozen_of(prev.ledger.accounts@, w),
            self.proposals@ == prev.proposals@.update(pi, self.proposals@[pi]),
            self.proposals@[pi].0 == proposal_id,
            self.proposals@[pi].1.same_except_ratio(prev.proposals@[pi].1),
            ({
                let prev_power = (match vi_opt {
                    Some(vi) => prev.votes@[vi as int].1.power,
                    None => 0u128,
                });
                let p_old = prev.proposals@[pi].1;
                let p_new = self.proposals@[pi].1;
                if (vi_opt is None) || prev_power < power {
                    p_new.ratio.1 as int == sat_add_u128(
                        p_old.ratio.1 as int,
                        sat_sub_0(qcost(power), qcost(prev_power)),
                    ) && p_new.ratio.0 as int == (if aye {
                        sat_add_u128(
                            p_old.ratio.0 as int,
                            sat_sub_0(qcost(power), qcost(prev_power)),
                        )
                    } else {
                        p_old.ratio.0 as int
                    })
                } else {
                    p_new.ratio.1 as int == sat_sub_0(
                        p_old.ratio.1 as int,
                        sat_sub_0(qcost(prev_power), qcost(power)),
                    ) && p_new.ratio.0 as int == (if aye {
                        sat_sub_0(
                            p_old.ratio.0 as int,
                            sat_sub_0(qcost(prev_power), qcost(power)),
                        )
                    } else {
                        p_old.ratio.0 as int
                    })
                }
            }),
            (match vi_opt {
                Some(vi) => if power == 0 {
                    self.votes@ == prev.votes@.remove(vi as int)
                } else {
                    self.votes@ == prev.votes@.update(
                        vi as int,
                        (caller, VoteInfo { proposal_id, aye, power }),
                    )
                },
                None => if power == 0 {
                    self.votes@ == prev.votes@
                } else {
                    self.votes@ == prev.votes@.push(
                        (caller, VoteInfo { proposal_id, aye, power }),
                    )
                },
            }),
            (power == 0 ==> self.events@ == prev.events@.push(
                Event::VoteDropped { proposal_id, voter: caller },
            )),
            (power != 0 ==> self.events@ == prev.events@.push(
                Event::VoteAdded { proposal_id, voter: caller, aye, power },
            )),
        ensures
            self.wf(),
            Self::vote_applied(prev, *self, caller, proposal_id, aye, power),
            (prev.tally_exact() && (match vi_opt {
                Some(vi) => prev.votes@[vi as int].1.aye == aye,
                None => true,
            })) ==> self.tally_exact(),
    {
        let s0 = prev.votes@;
        let s1 = self.votes@;
        let p0 = prev.proposals@;
        let p1 = self.proposals@;
        let l1 = self.ledger.accounts@;
        let nv = VoteInfo { proposal_id, aye, power };
        let ne = (caller, nv);
        let prev_power = (match vi_opt {
            Some(vi) => s0[vi as int].1.power,
            None => 0u128,
        });
        let increase = (vi_opt is None) || prev_power < power;
        let p_old = p0[pi].1;
        let p_new = p1[pi].1;
        let aw_old: int = (match vi_opt {
            Some(vi) => if s0[vi as int].1.aye {
                qcost(prev_power)
            } else {
                0
            },
            None => 0,
        });
        let aw_new: int = if power != 0 && aye {
            qcost(power)
        } else {
            0
        };

        lemma_qcost_nonneg(power);
        lemma_qcost_nonneg(prev_power);
        if increase {
            lemma_qcost_mono(prev_power, power);
        } else {
            lemma_qcost_mono(power, prev_power);
        }
        assert(qcost(0) == 0);

        // Pointwise non-negativity of all the weights on both ledgers.
        assert forall|k: int| 0 <= k < s0.len() implies
            hold_w(caller)(#[trigger] s0[k]) >= 0
            && total_w(proposal_id)(s0[k]) >= 0
            && aye_w(proposal_id)(s0[k]) >= 0 by {
            lemma_qcost_nonneg(s0[k].1.power);
        }

        // Per-weight deltas between the two vote ledgers.
        match vi_opt {
            Some(vi) => {
                let e_old = s0[vi as int];
                if power == 0 {
                    lemma_vote_lookup_remove(s0, vi as int);
                    assert forall|w: u64| #[trigger] hold_sum(s1, w) == hold_sum(s0, w)
                        + (if w == caller { qcost(power) - qcost(prev_power) } else { 0 }) by {
                        lemma_sum_by_remove(s0, vi as int, hold_w(w));
                    }
                    assert forall|id: u32| #[trigger] total_sum(s1, id) == total_sum(s0, id)
                        + (if id == proposal_id {
                            qcost(power) - qcost(prev_power)
                        } else {
                            0
                        }) by {
                        lemma_sum_by_remove(s0, vi as int, total_w(id));
                    }
                    assert forall|id: u32| id != proposal_id implies
                        #[trigger] aye_sum(s1, id) == aye_sum(s0, id) by {
                        lemma_sum_by_remove(s0, vi as int, aye_w(id));
                    }
                    assert(aye_sum(s1, proposal_id)
                        == aye_sum(s0, proposal_id) + aw_new - aw_old) by {
                        lemma_sum_by_remove(s0, vi as int, aye_w(proposal_id));
                    }
                    assert forall|k: int| 0 <= k < s1.len() implies {
                        let e = #[trigger] s1[k];
                        e.1.power > 0 && e.1.proposal_id < self.next_proposal_id
                    } by {
                        let ok = if k < vi as int { k } else { k + 1 };
                        assert(s1[k] == s0[ok]);
                    }
                } else {
                    lemma_vote_lookup_update(s0, vi as int, ne);
                    assert forall|w: u64| #[trigger] hold_sum(s1, w) == hold_sum(s0, w)
                        + (if w == caller { qcost(power) - qcost(prev_power) } else { 0 }) by {
                        lemma_sum_by_update(s0, vi as int, hold_w(w), ne);
                    }
                    assert forall|id: u32| #[trigger] total_sum(s1, id) == total_sum(s0, id)
                        + (if id == proposal_id {
                            qcost(power) - qcost(prev_power)
                        } else {
                            0
                        }) by {
                        lemma_sum_by_update(s0, vi as int, total_w(id), ne);
                    }
                    assert forall|id: u32| id != proposal_id implies
                        #[trigger] aye_sum(s1, id) == aye_sum(s0, id) by {
                        lemma_sum_by_update(s0, vi as int, aye_w(id), ne);
                    }
                    assert(aye_sum(s1, proposal_id)
                        == aye_sum(s0, proposal_id) + aw_new - aw_old) by {
                        lemma_sum_by_update(s0, vi as int, aye_w(proposal_id), ne);
                    }
                    assert forall|k: int| 0 <= k < s1.len() implies {
                        let e = #[trigger] s1[k];
                        e.1.power > 0 && e.1.proposal_id < self.next_proposal_id
                    } by {
                        if k != vi as int {
                            assert(s1[k] == s0[k]);
                        }
                    }
                }
                // Lower bounds of the old sums by the replaced entry.
                lemma_sum_by_lower(s0, vi as int, total_w(proposal_id));
                lemma_sum_by_lower(s0, vi as int, aye_w(proposal_id));
                assert(total_sum(s0, proposal_id) >= qcost(prev_power));
                assert(aye_sum(s0, proposal_id) >= aw_old);
            },
            None => {
                if power == 0 {
                    assert forall|w: u64| #[trigger] hold_sum(s1, w) == hold_sum(s0, w)
                        + (if w == caller { qcost(power) - qcost(prev_power) } else { 0 }) by {
                    }
                    assert forall|id: u32| #[trigger] total_sum(s1, id) == total_sum(s0, id)
                        + (if id == proposal_id {
                            qcost(power) - qcost(prev_power)
                        } else {
                            0
                        }) by {
                    }
                    assert(aye_sum(s1, proposal_id)
                        == aye_sum(s0, proposal_id) + aw_new - aw_old);
                } else {
                    lemma_vote_lookup_push(s0, ne);
                    assert forall|w: u64| #[trigger] hold_sum(s1, w) == hold_sum(s0, w)
                        + (if w == caller { qcost(power) - qcost(prev_power) } else { 0 }) by {
                        lemma_sum_by_push(s0, hold_w(w), ne);
                    }
                    assert forall|id: u32| #[trigger] total_sum(s1, id) == total_sum(s0, id)
                        + (if id == proposal_id {
                            qcost(power) - qcost(prev_power)
                        } else {
                            0
                        }) by {
                        lemma_sum_by_push(s0, total_w(id), ne);
                    }
                    assert forall|id: u32| id != proposal_id implies
                        #[trigger] aye_sum(s1, id) == aye_sum(s0, id) by {
                        lemma_sum_by_push(s0, aye_w(id), ne);
                    }
                    assert(aye_sum(s1, proposal_id)
                        == aye_sum(s0, proposal_id) + aw_new - aw_old) by {
                        lemma_sum_by_push(s0, aye_w(proposal_id), ne);
                    }
                    assert forall|k: int| 0 <= k < s1.len() implies {
                        let e = #[trigger] s1[k];
                        e.1.power > 0 && e.1.proposal_id < self.next_proposal_id
                    } by {
                        if k < s0.len() {
                            assert(s1[k] == s0[k]);
                        } else {
                            assert(s1[k] == ne);
                        }
                    }
                }
                lemma_sum_by_nonneg(s0, total_w(proposal_id));
                lemma_sum_by_nonneg(s0, aye_w(proposal_id));
                assert(total_sum(s0, proposal_id) >= qcost(prev_power));
                assert(aye_sum(s0, proposal_id) >= aw_old);
            },
        }

        // Conservation in the new state.
        assert forall|w: u64| #[trigger] hold_sum(s1, w)
            == frozen_of(self.ledger.accounts@, w) by {
            assert(hold_sum(s0, w) == frozen_of(prev.ledger.accounts@, w));
        }

        // Boundedness of the new tally.
        lemma_grand_le_issuance(s1, l1);
        lemma_total_le_grand(s1, proposal_id);
        lemma_aye_le_total(s1, proposal_id);
        assert(total_sum(s1, proposal_id) <= u128::MAX);

        // The edited proposal's total weight tracks the new total sum.
        assert(p_old.ratio.1 as int == total_sum(s0, proposal_id));
        assert(p_new.ratio.1 as int == total_sum(s1, proposal_id));

        // The proposal store after the update.
        crate::tally::lemma_prop_lookup_at(p0, pi);
        lemma_prop_lookup_update(p0, pi, p1[pi]);
        assert forall|j: int| 0 <= j < p1.len() implies {
            let e = #[trigger] p1[j];
            &&& e.0 < self.next_proposal_id
            &&& e.1.wf(self.config)
            &&& e.1.ratio.1 as int == total_sum(s1, e.0)
        } by {
            if j != pi {
                assert(p1[j] == p0[j]);
                if j < pi {
                    assert(prop_key()(p0[j]) != prop_key()(p0[pi]));
                } else {
                    assert(prop_key()(p0[pi]) != prop_key()(p0[j]));
                }
                assert(p0[j].0 != proposal_id);
            }
        }

        assert(self.wf());
        assert(Self::vote_applied(prev, *self, caller, proposal_id, aye, power));

        // Exactness of the aye component while vote directions stand.
        if prev.tally_exact() && (match vi_opt {
            Some(vi) => s0[vi as int].1.aye == aye,
            None => true,
        }) {
            assert(p_old.ratio.0 as int == aye_sum(s0, proposal_id));
            assert(aw_old == if aye { qcost(prev_power) } else { 0 });
            assert(aw_new == if aye { qcost(power) } else { 0 });
            assert(aye_sum(s1, proposal_id) <= total_sum(s1, proposal_id));
            assert(p_new.ratio.0 as int == aye_sum(s1, proposal_id));
            assert forall|j: int| 0 <= j < p1.len() implies {
                let e = #[trigger] p1[j];
                e.1.ratio.0 as int == aye_sum(s1, e.0)
            } by {
                if j != pi {
                    assert(p1[j] == p0[j]);
                    if j < pi {
                        assert(prop_key()(p0[j]) != prop_key()(p0[pi]));
                    } else {
                        assert(prop_key()(p0[pi]) != prop_key()(p0[j]));
                    }
                    assert(p0[j].0 != proposal_id);
                }
            }
            assert(self.tally_exact());
        }
    }

    /// Conservation: at any quiescent point the frozen balance of every
    /// voter equals the sum of the quadratic costs of that voter's active
    /// votes — never negative, and never more than the voter's free
    /// balance.
    pub proof fn lemma_hold_conservation(p: &Pallet, who: u64)
        requires
            p.wf(),
        ensures
            frozen_of(p.ledger.accounts@, who) == p.held(who),
            0 <= p.held(who) <= free_of(p.ledger.accounts@, who),
    {
        assert(hold_sum(p.votes@, who) == frozen_of(p.ledger.accounts@, who));
        assert forall|k: int| 0 <= k < p.votes@.len() implies
            hold_w(who)(#[trigger] p.votes@[k]) >= 0 by {
            lemma_qcost_nonneg(p.votes@[k].1.power);
        }
        lemma_sum_by_nonneg(p.votes@, hold_w(who));
        crate::ledger::lemma_frozen_le_free(p.ledger.accounts@, who);
    }

    /// Tally soundness: while every standing vote keeps its original
    /// direction (the state of [`Pallet::tally_exact`], which every
    /// operation preserves), each stored proposal's total weight is at
    /// least its aye weight.
    pub proof fn lemma_tally_ordered(p: &Pallet, proposal_id: ProposalId)
        requires
            p.wf(),
            p.tally_exact(),
        ensures
            (match p.spec_proposal(proposal_id) {
                Some(prop) => prop.ratio.0 <= prop.ratio.1,
                None => true,
            }),
    {
        crate::seq_facts::lemma_find_by_some(
            p.proposals@,
            crate::tally::prop_match(proposal_id),
        );
        match crate::seq_facts::find_by(p.proposals@, crate::tally::prop_match(proposal_id)) {
            Some(x) => {
                let j = choose|j: int| 0 <= j < p.proposals@.len()
                    && #[trigger] p.proposals@[j] == x
                    && crate::tally::prop_match(proposal_id)(x);
                assert(p.proposals@[j].1.ratio.0 as int == aye_sum(p.votes@, proposal_id));
                assert(p.proposals@[j].1.ratio.1 as int == total_sum(p.votes@, proposal_id));
                lemma_aye_le_total(p.votes@, proposal_id);
            },
            None => {},
        }
    }

    /// Index of the proposal stored under `proposal_id`, if any.
    fn find_proposal(&self, proposal_id: ProposalId) -> (r: Option<usize>)
        ensures
            (match r {
                Some(i) => i < self.proposals@.len()
                    && self.proposals@[i as int].0 == proposal_id
                    && self.spec_proposal(proposal_id) == Some(self.proposals@[i as int].1),
                None => self.spec_proposal(proposal_id) is None
                    && forall|j: int| 0 <= j < self.proposals@.len()
                        ==> (#[trigger] self.proposals@[j]).0 != proposal_id,
            }),
    {
        let s = Ghost(self.proposals@);
        let n = self.proposals.len();
        let mut i: usize = 0;
        while i < n
            invariant
                i <= n,
                n == s@.len(),
                s@ == self.proposals@,
                forall|j: int| 0 <= j < i ==> (#[trigger] s@[j]).0 != proposal_id,
            decreases n - i,
        {
            if self.proposals[i].0 == proposal_id {
                proof {
                    lemma_find_by_first(s@, crate::tally::prop_match(proposal_id), i as int);
                }
                return Some(i);
            }
            i += 1;
        }
        proof {
            lemma_find_by_none(s@, crate::tally::prop_match(proposal_id));
        }
        None
    }

    /// Index of the vote of `who` on `proposal_id`, if any.
    fn find_vote(&self, who: u64, proposal_id: ProposalId) -> (r: Option<usize>)
        ensures
            (match r {
                Some(i) => i < self.votes@.len() && self.votes@[i as int].0 == who
                    && self.votes@[i as int].1.proposal_id == proposal_id
                    && self.spec_vote(who, proposal_id) == Some(self.votes@[i as int].1),
                None => self.spec_vote(who, proposal_id) is None
                    && forall|j: int| 0 <= j < self.votes@.len()
                        ==> !((#[trigger] self.votes@[j]).0 == who
                            && self.votes@[j].1.proposal_id == proposal_id),
            }),
    {
        let s = Ghost(self.votes@);
        let n = self.votes.len();
        let mut i: usize = 0;
        while i < n
            invariant
                i <= n,
                n == s@.len(),
                s@ == self.votes@,
                forall|j: int| 0 <= j < i ==> !((#[trigger] s@[j]).0 == who
                    && s@[j].1.proposal_id == proposal_id),
            decreases n - i,
        {
            if self.votes[i].0 == who && self.votes[i].1.proposal_id == proposal_id {
                proof {
                    lemma_find_by_first(s@, crate::tally::vote_match(who, proposal_id), i as int);
                }
                return Some(i);
            }
            i += 1;
        }
        proof {
            lemma_find_by_none(s@, crate::tally::vote_match(who, proposal_id));
        }
        None
    }
}

/// A copy of `v` with the same bytes.
fn clone_bytes(v: &Vec<u8>) -> (r: Vec<u8>)
    ensures
        r@ == v@,
{
    let n = v.len();
    let mut r: Vec<u8> = Vec::new();
    let mut i: usize = 0;
    while i < n
        invariant
            i <= n,
            n == v@.len(),
            r@ == v@.take(i as int),
        decreases n - i,
    {
        r.push(v[i]);
        proof {
            assert(v@.take(i as int).push(v@[i as int]) =~= v@.take(i + 1));
        }
        i += 1;
    }
    proof {
        assert(v@.take(n as int) =~= v@);
    }
    r
}

/// A copy of `v` with the same accounts.
fn clone_u64s(v: &Vec<u64>) -> (r: Vec<u64>)
    ensures
        r@ == v@,
{
    let n = v.len();
    let mut r: Vec<u64> = Vec::new();
    let mut i: usize = 0;
    while i < n
        invariant
            i <= n,
            n == v@.len(),
            r@ == v@.take(i as int),
        decreases n - i,
    {
        r.push(v[i]);
        proof {
            assert(v@.take(i as int).push(v@[i as int]) =~= v@.take(i + 1));
        }
        i += 1;
    }
    proof {
        assert(v@.take(n as int) =~= v@);
    }
    r
}

/// A copy of an optional account list with the same elements.
fn clone_list(l: &Option<Vec<u64>>) -> (r: Option<Vec<u64>>)
    ensures
        opt_list_eq(r, *l),
{
    match l {
        Some(v) => Some(clone_u64s(v)),
        None => None,
    }
}

/// Remove `who` from a duplicate-free list, leaving everything else.
fn remove_u64(v: &mut Vec<u64>, who: u64)
    requires
        distinct_keys(old(v)@, reg_key()),
    ensures
        distinct_keys(final(v)@, reg_key()),
        forall|w: u64| #[trigger] final(v)@.contains(w) == (old(v)@.contains(w) && w != who),
        (!old(v)@.contains(who) ==> final(v)@ == old(v)@),
{
    let n = v.len();
    let mut i: usize = 0;
    while i < n
        invariant
            i <= n,
            n == v@.len(),
            v@ == old(v)@,
            distinct_keys(old(v)@, reg_key()),
            forall|j: int| 0 <= j < i ==> v@[j] != who,
        decreases n - i,
    {
        if v[i] == who {
            let _ = v.remove(i);
            proof {
                lemma_registry_remove(old(v)@, i as int, who);
            }
            return;
        }
        i += 1;
    }
    proof {
        assert forall|w: u64| #[trigger] v@.contains(w) implies w != who by {
            let k = choose|k: int| 0 <= k < v@.len() && v@[k] == w;
        }
    }
}

/// Removing the one occurrence of `who` from a duplicate-free list keeps
/// it duplicate-free and shrinks its membership by exactly `who`.
proof fn lemma_registry_remove(s: Seq<u64>, i: int, who: u64)
    requires
        distinct_keys(s, reg_key()),
        0 <= i < s.len(),
        s[i] == who,
    ensures
        distinct_keys(s.remove(i), reg_key()),
        forall|w: u64| #[trigger] s.remove(i).contains(w) == (s.contains(w) && w != who),
{
    let s1 = s.remove(i);
    assert(forall|k: int| 0 <= k < i ==> #[trigger] s1[k] == s[k]);
    assert(forall|k: int| i <= k < s1.len() ==> #[trigger] s1[k] == s[k + 1]);
    assert forall|i2: int, j2: int| 0 <= i2 < j2 < s1.len() implies
        reg_key()(s1[i2]) != reg_key()(s1[j2]) by {
        let oi = if i2 < i { i2 } else { i2 + 1 };
        let oj = if j2 < i { j2 } else { j2 + 1 };
        assert(s1[i2] == s[oi] && s1[j2] == s[oj]);
        assert(reg_key()(s[oi]) != reg_key()(s[oj]));
    }
    assert forall|w: u64| #[trigger] s1.contains(w) == (s.contains(w) && w != who) by {
        if s1.contains(w) {
            let k = choose|k: int| 0 <= k < s1.len() && s1[k] == w;
            let ok = if k < i { k } else { k + 1 };
            assert(s[ok] == w);
            assert(s.contains(w));
            if ok < i {
                assert(reg_key()(s[ok]) != reg_key()(s[i]));
            } else if ok > i {
                assert(reg_key()(s[i]) != reg_key()(s[ok]));
            }
        }
        if s.contains(w) && w != who {
            let k = choose|k: int| 0 <= k < s.len() && s[k] == w;
            let nk = if k < i { k } else { k - 1 };
            assert(k != i);
            assert(s1[nk] == s[k]);
            assert(s1.contains(w));
        }
    }
}

/// Whether `who` occurs in `v`.
fn contains_u64(v: &Vec<u64>, who: u64) -> (r: bool)
    ensures
        r == v@.contains(who),
{
    let n = v.len();
    let mut i: usize = 0;
    while i < n
        invariant
            i <= n,
            n == v@.len(),
            forall|j: int| 0 <= j < i ==> v@[j] != who,
        decreases n - i,
    {
        if v[i] == who {
            return true;
        }
        i += 1;
    }
    false
}

/// Appending a fresh voter to the registry keeps it duplicate-free and
/// extends its membership by exactly that voter.
proof fn lemma_registry_push(s: Seq<u64>, who: u64)
    requires
        !s.contains(who),
        distinct_keys(s, reg_key()),
    ensures
        distinct_keys(s.push(who), reg_key()),
        forall|w: u64| #[trigger] s.push(who).contains(w) == (s.contains(w) || w == who),
{
    let s1 = s.push(who);
    assert forall|i: int, j: int| 0 <= i < j < s1.len() implies
        reg_key()(s1[i]) != reg_key()(s1[j]) by {
        if j == s.len() {
            assert(s1[i] == s[i]);
            assert(s[i] != who);
        } else {
            assert(s1[i] == s[i] && s1[j] == s[j]);
        }
    }
    assert forall|w: u64| #[trigger] s1.contains(w) == (s.contains(w) || w == who) by {
        if s.contains(w) {
            let i = choose|i: int| 0 <= i < s.len() && s[i] == w;
            assert(s1[i] == w);
            assert(s1.contains(w));
        }
        if w == who {
            assert(s1[s.len() as int] == w);
            assert(s1.contains(w));
        }
        if s1.contains(w) {
            let i = choose|i: int| 0 <= i < s1.len() && s1[i] == w;
            if i < s.len() {
                assert(s[i] == w);
                assert(s.contains(w));
            }
        }
    }
}

} // verus!
