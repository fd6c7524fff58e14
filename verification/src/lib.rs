//! The verified core of a liquid-staking chain.
//!
//! The larger part is a bonded-stake election ledger: accounts lock a voting
//! token against a personal ledger, nominate a bounded list of candidates,
//! and the engine selects the candidates with the largest aggregate vote
//! weight on demand.
//!
//! Beside it stand the decisions of the bridge for non-fungible assets: which
//! collection and token a cross-chain message names, and what a deposit, a
//! withdrawal or a transfer of it has to do. The storage and the token
//! ledger stay with the caller; the decisions are made here, from plain
//! values.

pub mod primitives;
pub mod unlock_queue;
pub mod ledger;
pub mod votes;
pub mod nominations;
pub mod ranking;
pub mod state;
pub mod invariants;
pub mod election;
pub mod laws;
pub mod asset;
pub mod transact;
pub mod registry;
pub mod nft;
pub mod custody;
pub mod homa;
