//! Bitcoin peg core of a proof-of-stake chain, with its airdrop bookkeeping.
//!
//! The peg keeps a proof-of-work checked chain of Bitcoin headers, relays
//! deposits that pay to the script of a signatory set, and collects the
//! signatures of the signatories over checkpoint transactions.

pub mod airdrop;
pub mod allotment;
pub mod assoc;
pub mod bitcoin;
pub mod bytes;
pub mod error;
pub mod snapshot;
