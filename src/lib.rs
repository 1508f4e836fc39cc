//! NFT contract extensions: a royalty schedule with a conserved payout split,
//! a one-way administrative lock, and the event records of every mutation.
//!
//! Everything the host provides (the calling account, the attached deposit,
//! persistent storage, the token ledger and the event log) is handed to this
//! library as plain values; the library decides and computes.

pub mod error;
pub mod events;
pub mod lock;
pub mod metadata;
pub mod royalty;
pub mod state;

use vstd::prelude::*;

verus! {

/// An account identifier, kept as its textual form.
pub type AccountId = String;

/// The event standard name written into every event record.
pub const CONTRACT_STANDARD: &'static str = "arcnes_nft";

/// The event schema version written into every event record.
pub const CONTRACT_VERSION: &'static str = "1.0.0";

} // verus!
