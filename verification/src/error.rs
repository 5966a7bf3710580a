//! The error kinds of the peg and of the airdrop accounts.

use vstd::prelude::*;

verus! {

/// Why a call was rejected. A rejected call leaves the state as it was.
#[derive(Clone, Copy, Debug, PartialEq, Eq, Structural)]
pub enum Error {
    /// A header does not link to its predecessor, misses its work target or
    /// carries another difficulty than the chain expects.
    InvalidHeader,
    /// No header is retained at the height asked for.
    UnknownHeight,
    /// No checkpoint stands at the index asked for.
    NotFound,
    /// The merkle proof is malformed or does not lead to the header's root.
    BadMerkleProof,
    /// The proof matches no transaction, several, or another one.
    AmbiguousOrMismatchedProof,
    /// The output index lies beyond the transaction's outputs.
    VoutOutOfRange,
    /// The output does not pay to the script of the signatory set.
    ScriptMismatch,
    /// The deposit timeout of the signatory set has passed.
    DepositExpired,
    /// The outpoint was credited before and its record has not expired.
    DuplicateOutpoint,
    /// The call carries no signer.
    Unauthorized,
    /// The signer has no consensus key.
    NoConsensusKey,
    /// The key does not belong to the signatory set.
    UnknownSignatory,
    /// The key has signed already.
    DuplicateSignature,
    /// The signature does not verify against the key and the message.
    InvalidSignature,
    /// The signed voting power is below the threshold.
    NotComplete,
    /// The signatures were aggregated already; nothing more is accepted.
    AlreadyFinalized,
    /// The checkpoint queue is not in the state that the transition needs.
    InvalidCheckpointState,
    /// An amount would no longer fit in 64 bits.
    AmountOverflow,
    /// The signer has no airdrop account.
    NoAccount,
    /// Nothing is claimable.
    NoBalance,
    /// The call carries no payment context.
    NoPaidContext,
    /// The snapshot is not a well-formed table.
    BadSnapshot,
}

} // verus!
