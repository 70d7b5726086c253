//! Data model of the voting engine: proposals, votes, callers, events,
//! errors, and the quadratic cost function.

use vstd::prelude::*;

verus! {

/// Identifier of a proposal; allocated monotonically and never reused.
pub type ProposalId = u32;

/// Running tally of a proposal: `(aye_weight, total_weight)`, both in
/// quadratic-cost units.
pub type VoteRatio = (u128, u128);

/// The caller of an operation: the administrative origin or a signed
/// account.
#[derive(Clone, Copy, Debug, PartialEq, Eq)]
pub enum Origin {
    Root,
    Signed(u64),
}

/// Visibility kind of a proposal.  For a `Public` proposal the account list
/// is a ban-list; for a `Private` proposal it is an allow-list.
#[derive(Clone, Copy, Debug, PartialEq, Eq, Structural, Default)]
pub enum ProposalKind {
    #[default]
    Public,
    Private,
}

/// Limits the engine is configured with.  Durations and the start delay are
/// measured in logical clock ticks.
#[derive(Clone, Copy, Debug, PartialEq, Eq, Structural)]
pub struct Config {
    /// Maximum number of accounts in a proposal's account list.
    pub account_size_limit: u32,
    /// Maximum length of a proposal's offchain data blob.
    pub proposal_offchain_data_limit: u32,
    /// Maximum duration of a proposal.
    pub proposal_maximum_duration: u32,
    /// Minimum duration of a proposal.
    pub proposal_minimum_duration: u32,
    /// Maximum delay between creation and start of a proposal.
    pub proposal_delay_limit: u32,
}

/// An active vote, keyed externally by `(voter, proposal_id)`.
#[derive(Clone, Copy, Debug, PartialEq, Eq, Structural)]
pub struct VoteInfo {
    /// The proposal this vote is cast on.
    pub proposal_id: ProposalId,
    /// Direction of the vote: aye (`true`) or nay (`false`).
    pub aye: bool,
    /// The declared power of this vote; its cost is `power * power`.
    pub power: u128,
}

/// Typed outcome of a failed operation.  A failed operation has no other
/// observable effect.
#[derive(Clone, Copy, Debug, PartialEq, Eq, Structural)]
pub enum Error {
    /// The origin is not of the shape the operation accepts.
    BadOrigin,
    /// The caller is not allowed to perform the operation.
    OriginNoPermission,
    /// The caller is not in the voter registry.
    VoterNotRegistered,
    /// The proposal is not in the store.
    ProposalDoesNotExist,
    /// The proposal has already started.
    ProposalHasAlreadyStarted,
    /// The proposal has already ended.
    ProposalHasAlreadyEnded,
    /// The proposal has not started yet.
    ProposalHasNotStartedYet,
    /// The proposal has not ended yet.
    ProposalHasNotEndedYet,
    /// A proposal cannot start in the past.
    ProposalCannotStartInThePast,
    /// A proposal cannot end before starting.
    ProposalCannotFinishBeforeStarting,
    /// The proposal duration is too long.
    ProposalDurationIsTooLong,
    /// The proposal duration is too short.
    ProposalDurationIsTooShort,
    /// The proposal start is too far away.
    ProposalStartIsTooFarAway,
    /// A claim is possible only for a closed proposal.
    ProposalNotClosed,
    /// The voter's spendable balance does not cover the additional cost.
    InsufficientBalance,
    /// The new vote is identical to the active vote.
    IdenticVote,
    /// The caller has no vote to claim on this proposal.
    ClaimDoesNotExist,
}

/// Notification emitted by a successful operation.
pub enum Event {
    /// A new voter is registered.
    NewVoterRegistered { who: u64 },
    /// A voter is unregistered.
    VoterUnregistered { who: u64 },
    /// A new proposal is created.
    ProposalCreated {
        proposal_id: ProposalId,
        offchain_data: Vec<u8>,
        creator: u64,
        kind: ProposalKind,
        account_list: Option<Vec<u64>>,
        start_block: u64,
        end_block: u64,
    },
    /// A proposal that did not start yet is cancelled.
    ProposalCancelled { proposal_id: ProposalId },
    /// A proposal is closed and the vote is completed.
    VoteCompleted { proposal_id: ProposalId, ratio: VoteRatio },
    /// A new account list is set before a proposal has started.
    AccountListSet { proposal_id: ProposalId, account_list: Option<Vec<u64>> },
    /// A vote was added to an in-progress proposal.
    VoteAdded { proposal_id: ProposalId, voter: u64, aye: bool, power: u128 },
    /// A vote was removed from an in-progress proposal.
    VoteDropped { proposal_id: ProposalId, voter: u64 },
    /// A voter claimed the release of the hold backing a settled vote.
    BalanceClaimed { who: u64, amount: u128 },
}

/// The quadratic cost of a vote of power `power`, saturating at the numeric
/// maximum.
pub open spec fn qcost(power: u128) -> int {
    if power * power > u128::MAX {
        u128::MAX as int
    } else {
        power * power
    }
}

/// `a + b` capped at `u128::MAX`.
pub open spec fn sat_add_u128(a: int, b: int) -> int {
    if a + b > u128::MAX {
        u128::MAX as int
    } else {
        a + b
    }
}

/// `a - b` floored at zero.
pub open spec fn sat_sub_0(a: int, b: int) -> int {
    if a - b < 0 {
        0
    } else {
        a - b
    }
}

pub proof fn lemma_qcost_nonneg(power: u128)
    ensures
        0 <= qcost(power) <= u128::MAX,
{
    assert(power * power >= 0) by (nonlinear_arith);
}

pub proof fn lemma_qcost_mono(a: u128, b: u128)
    requires
        a <= b,
    ensures
        qcost(a) <= qcost(b),
{
    assert(a * a <= b * b) by (nonlinear_arith)
        requires 0 <= a <= b;
}

/// The quadratic cost as an executable value, saturating at `u128::MAX`.
pub(crate) fn quad_u128(power: u128) -> (r: u128)
    ensures
        r as int == qcost(power),
{
    match power.checked_mul(power) {
        Some(x) => x,
        None => u128::MAX,
    }
}

/// A proposal as stored: its payload, window, visibility, creator, optional
/// account list, and running tally.
pub struct ProposalData {
    /// The opaque payload of this proposal (e.g. a content hash or a link).
    pub offchain_data: Vec<u8>,
    /// The running tally `(aye_weight, total_weight)`.
    pub ratio: VoteRatio,
    /// The visibility kind: `Public` or `Private`.
    pub kind: ProposalKind,
    /// The proposal creator.
    pub creator: u64,
    /// For a `Public` proposal: accounts banned from voting.
    /// For a `Private` proposal: the only accounts allowed to vote.
    pub account_list: Option<Vec<u64>>,
    /// Clock tick at which the proposal starts accepting votes.
    pub start_block: u64,
    /// Clock tick from which the proposal no longer accepts votes.
    pub end_block: u64,
}

impl ProposalData {
    /// The fields fixed at creation agree between `self` and `other`;
    /// only the tally may differ.
    pub open spec fn same_except_ratio(self, other: ProposalData) -> bool {
        &&& self.offchain_data == other.offchain_data
        &&& self.kind == other.kind
        &&& self.creator == other.creator
        &&& self.account_list == other.account_list
        &&& self.start_block == other.start_block
        &&& self.end_block == other.end_block
    }

    /// Structural well-formedness against the engine's limits.
    pub open spec fn wf(self, config: Config) -> bool {
        &&& self.start_block < self.end_block
        &&& self.offchain_data@.len() <= config.proposal_offchain_data_limit
        &&& (self.account_list matches Some(l) ==> l@.len() <= config.account_size_limit)
    }

    pub fn new(
        offchain_data: Vec<u8>,
        kind: ProposalKind,
        creator: u64,
        account_list: Option<Vec<u64>>,
        start_block: u64,
        end_block: u64,
    ) -> (r: ProposalData)
        ensures
            r == (ProposalData {
                offchain_data,
                ratio: (0u128, 0u128),
                kind,
                creator,
                account_list,
                start_block,
                end_block,
            }),
    {
        ProposalData {
            offchain_data,
            ratio: (0, 0),
            kind,
            creator,
            account_list,
            start_block,
            end_block,
        }
    }

    pub fn is_creator(&self, who: &u64) -> (r: bool)
        ensures
            r == (self.creator == *who),
    {
        self.creator == *who
    }

    /// Whether the proposal accepts votes at `block` or did so earlier.
    pub fn has_started(&self, block: &u64) -> (r: bool)
        ensures
            r == (self.start_block <= *block),
    {
        self.start_block <= *block
    }

    /// Whether the proposal no longer accepts votes at `block`.
    pub fn has_ended(&self, block: &u64) -> (r: bool)
        ensures
            r == (self.end_block <= *block),
    {
        self.end_block <= *block
    }

    /// Raise the tally for a vote whose cost grew from `prev_power` to
    /// `new_power`: the difference is added to `total_weight`, and to
    /// `aye_weight` as well if the vote is an aye.
    pub fn add_ratio(&mut self, aye: bool, prev_power: u128, new_power: u128)
        ensures
            final(self).same_except_ratio(*old(self)),
            (final(self).ratio.0 as int) == (if aye {
                sat_add_u128(
                    old(self).ratio.0 as int,
                    sat_sub_0(qcost(new_power), qcost(prev_power)),
                )
            } else {
                old(self).ratio.0 as int
            }),
            (final(self).ratio.1 as int) == sat_add_u128(
                old(self).ratio.1 as int,
                sat_sub_0(qcost(new_power), qcost(prev_power)),
            ),
    {
        let prev_quadratic_amount = quad_u128(prev_power);
        let new_quadratic_amount = quad_u128(new_power);
        let amount_diff = new_quadratic_amount.saturating_sub(prev_quadratic_amount);

        self.ratio = if aye {
            (self.ratio.0.saturating_add(amount_diff), self.ratio.1.saturating_add(amount_diff))
        } else {
            (self.ratio.0, self.ratio.1.saturating_add(amount_diff))
        };
    }

    /// Lower the tally for a vote whose cost shrank from `prev_power` to
    /// `new_power`, symmetrically to [`ProposalData::add_ratio`].
    pub fn remove_ratio(&mut self, aye: bool, prev_power: u128, new_power: u128)
        ensures
            final(self).same_except_ratio(*old(self)),
            (final(self).ratio.0 as int) == (if aye {
                sat_sub_0(
                    old(self).ratio.0 as int,
                    sat_sub_0(qcost(prev_power), qcost(new_power)),
                )
            } else {
                old(self).ratio.0 as int
            }),
            (final(self).ratio.1 as int) == sat_sub_0(
                old(self).ratio.1 as int,
                sat_sub_0(qcost(prev_power), qcost(new_power)),
            ),
    {
        let prev_quadratic_amount = quad_u128(prev_power);
        let new_quadratic_amount = quad_u128(new_power);
        let amount_diff = prev_quadratic_amount.saturating_sub(new_quadratic_amount);

        self.ratio = if aye {
            (self.ratio.0.saturating_sub(amount_diff), self.ratio.1.saturating_sub(amount_diff))
        } else {
            (self.ratio.0, self.ratio.1.saturating_sub(amount_diff))
        };
    }
}

} // verus!
