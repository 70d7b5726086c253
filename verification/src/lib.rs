//! A quadratic-voting governance engine.
//!
//! A curated set of registered voters creates time-windowed proposals and
//! casts votes whose economic cost grows quadratically with the declared
//! voting power.  The cost of every open vote is locked ("frozen") on the
//! voter's account in an internal ledger model until the vote is retracted,
//! the voter is unregistered, or the proposal is closed and the voter claims
//! the release.
//!
//! The central invariant, proved as part of [`Pallet::wf`], is conservation:
//! the frozen balance of every voter equals the sum of the quadratic costs of
//! that voter's active votes.

mod seq_facts;
mod types;
mod ledger;
mod tally;
mod pallet;

pub use types::{Config, Error, Event, Origin, ProposalData, ProposalId, ProposalKind, VoteInfo,
    VoteRatio};
pub use ledger::{AccountRecord, Ledger};
pub use pallet::Pallet;
