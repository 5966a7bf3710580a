//! The Bitcoin peg.

use vstd::prelude::*;
use vstd::slice::slice_subrange;
use crate::bitcoin::checkpoint::{Checkpoint, CheckpointQueue, CheckpointStatus, CheckpointView, building, continues};
use crate::bitcoin::header_queue::{HeaderQueue, lookup};
use crate::bitcoin::ledger::{Accounts, Validators, balance_of};
use crate::bitcoin::signatory::{SignatoryKeys, SignatorySet, Validator, script, snapshot, total_power};
use crate::bitcoin::transaction::{Transaction, extract_matches, ids_view, merkle_matches, outputs_view};
use crate::bitcoin::txid_set::{Outpoint, OutpointSet, blocks_insert};
use crate::bitcoin::work::Header;
use crate::bytes::{array_eq, slice_eq};
use crate::error::Error;
use crate::bitcoin::xpub::{ExtendedPubKey, DecodeError, XPUB_LENGTH, valid_public_key, encoding, decodable, decodes_to, is_public_key, encode_key, decode_key, lemma_encoding_parts};

pub mod checkpoint;
pub mod header_queue;
pub mod ledger;
pub mod transaction;
pub mod work;
pub mod signatory;
pub mod threshold_sig;
pub mod txid_set;
pub mod xpub;

verus! {

/// The identity of a validator in consensus.
pub type ConsensusKey = [u8; 32];

/// An account address.
pub type Address = [u8; 20];

/// An extended public key that a signatory registered. Its public key is a
/// point of the curve.
pub struct Xpub {
    key: ExtendedPubKey,
}

impl Xpub {
    #[verifier::type_invariant]
    spec fn well_formed(self) -> bool {
        valid_public_key(self.key.public_key@)
    }

    /// The fields of the key.
    pub closed spec fn fields(self) -> ExtendedPubKey {
        self.key
    }

    /// Wraps the key, if its public key is a point of the curve.
    pub fn new(key: ExtendedPubKey) -> (r: Option<Xpub>)
        ensures
            r is Some <==> valid_public_key(key.public_key@),
            r matches Some(x) ==> x.fields() == key,
    {
        if is_public_key(&key.public_key) {
            Some(Xpub { key })
        } else {
            None
        }
    }

    /// The fields of the key.
    pub fn deref(&self) -> (r: &ExtendedPubKey)
        ensures
            *r == self.fields(),
            valid_public_key(r.public_key@),
    {
        proof {
            use_type_invariant(self);
        }
        &self.key
    }

    /// The 78 bytes that encode the key.
    pub fn encode(&self) -> (bytes: [u8; 78])
        ensures
            bytes@ == encoding(self.fields()),
    {
        proof {
            use_type_invariant(self);
        }
        encode_key(&self.key)
    }

    /// Appends the 78 bytes that encode the key to `dest`.
    pub fn encode_into(&self, dest: &mut Vec<u8>)
        ensures
            final(dest)@ == old(dest)@ + encoding(self.fields()),
            final(dest)@.len() == old(dest)@.len() + XPUB_LENGTH,
    {
        let bytes = self.encode();
        proof {
            lemma_encoding_parts(self.fields());
        }
        crate::bytes::extend(dest, &bytes);
    }

    /// The length of the encoding, which is the same for every key.
    pub fn encoding_length(&self) -> (r: usize)
        ensures
            r == XPUB_LENGTH,
            r == encoding(self.fields()).len(),
    {
        proof {
            lemma_encoding_parts(self.fields());
        }
        XPUB_LENGTH
    }

    /// Reads a key from the first 78 bytes of `input`; what follows them is
    /// not looked at.
    pub fn decode(input: &[u8]) -> (r: Result<Xpub, DecodeError>)
        ensures
            input@.len() < XPUB_LENGTH ==> r == Err::<Xpub, DecodeError>(DecodeError::UnexpectedEof),
            input@.len() >= XPUB_LENGTH && !decodable(input@.take(XPUB_LENGTH as int)) ==> r == Err::<
                Xpub,
                DecodeError,
            >(DecodeError::UnexpectedByte(32)),
            input@.len() >= XPUB_LENGTH && decodable(input@.take(XPUB_LENGTH as int)) ==> (r matches Ok(x)
                && decodes_to(input@.take(XPUB_LENGTH as int), x.fields())),
    {
        if input.len() < XPUB_LENGTH {
            return Err(DecodeError::UnexpectedEof);
        }
        let head = slice_subrange(input, 0, XPUB_LENGTH);
        assert(head@ =~= input@.take(XPUB_LENGTH as int));
        match decode_key(head) {
            Some(key) => Ok(Xpub { key }),
            None => Err(DecodeError::UnexpectedByte(32)),
        }
    }
}

/// The symbol of the pegged token.
#[derive(Clone, Copy, Debug)]
pub struct Nbtc(());

/// The peg: the header chain, the ledger of credited outpoints, the
/// checkpoints, the balances of the pegged token and the registered keys.
pub struct Bitcoin {
    pub headers: HeaderQueue,
    pub processed_outpoints: OutpointSet,
    pub checkpoints: CheckpointQueue,
    pub accounts: Accounts,
    pub signatory_keys: SignatoryKeys,
}

/// The state of the peg, as contracts see it.
pub struct PegState {
    /// The retained headers, oldest first.
    pub chain: Seq<Header>,
    /// The height of the oldest retained header.
    pub base: u32,
    /// The checkpoints.
    pub checkpoints: Seq<CheckpointView>,
    /// The credited outpoints with the expiry of their records.
    pub outpoints: Map<Outpoint, u64>,
    /// The balances of the pegged token.
    pub balances: Map<Address, u64>,
    /// The registered keys.
    pub signatory_keys: Map<ConsensusKey, Xpub>,
}

/// A deposit that is relayed, as contracts see it.
pub struct Deposit {
    /// The id of the transaction.
    pub txid: [u8; 32],
    /// The outputs of the transaction: amounts and scripts.
    pub outputs: Seq<(u64, Seq<u8>)>,
    /// The height of the block that is claimed to hold the transaction.
    pub height: u32,
    /// The merkle root and the matched ids that the proof leads to, if it is well formed.
    pub extracted: Option<(Seq<u8>, Seq<Seq<u8>>)>,
    /// The index of the output that pays the deposit.
    pub vout: u32,
    /// The index of the checkpoint whose signatory set the deposit pays to.
    pub sigset_index: u32,
    /// The address to credit.
    pub dest: Address,
    /// The time of the call.
    pub now: u64,
}

/// Why a deposit is refused, if it is. The checks stand in the order in
/// which they are made.
pub open spec fn deposit_error(state: PegState, d: Deposit) -> Option<Error> {
    match lookup(state.chain, state.base, d.height) {
        None => Some(Error::UnknownHeight),
        Some(header) => match d.extracted {
            None => Some(Error::BadMerkleProof),
            Some((root, ids)) => if root != header.merkle_root@ {
                Some(Error::BadMerkleProof)
            } else if ids.len() != 1 || ids[0] != d.txid@ {
                Some(Error::AmbiguousOrMismatchedProof)
            } else if d.vout >= d.outputs.len() {
                Some(Error::VoutOutOfRange)
            } else if d.sigset_index >= state.checkpoints.len() {
                Some(Error::NotFound)
            } else if d.now > state.checkpoints[d.sigset_index as int].timeout {
                Some(Error::DepositExpired)
            } else if d.outputs[d.vout as int].1 != script(
                state.checkpoints[d.sigset_index as int].members,
                d.dest@,
            ) {
                Some(Error::ScriptMismatch)
            } else if blocks_insert(state.outpoints, (d.txid, d.vout), d.now) {
                Some(Error::DuplicateOutpoint)
            } else if balance_of(state.balances, d.dest) + d.outputs[d.vout as int].0 > u64::MAX {
                Some(Error::AmountOverflow)
            } else {
                None
            },
        },
    }
}

/// The state after the deposit was credited: its outpoint is recorded until
/// the deposit timeout of the signatory set, and the destination holds the
/// output's amount more.
pub open spec fn credited(state: PegState, d: Deposit) -> PegState {
    PegState {
        outpoints: state.outpoints.insert(
            (d.txid, d.vout),
            state.checkpoints[d.sigset_index as int].timeout,
        ),
        balances: state.balances.insert(
            d.dest,
            (balance_of(state.balances, d.dest) + d.outputs[d.vout as int].0) as u64,
        ),
        ..state
    }
}

/// What the proof's extraction gave, as contracts see it.
pub open spec fn proof_view(extracted: Option<([u8; 32], Vec<[u8; 32]>)>) -> Option<(Seq<u8>, Seq<Seq<u8>>)> {
    match extracted {
        Some((root, ids)) => Some((root@, ids_view(ids@))),
        None => None,
    }
}

/// A deposit that was credited is refused as a duplicate when it is relayed
/// again with the same time.
pub proof fn lemma_deposit_credited_once(state: PegState, d: Deposit)
    requires
        deposit_error(state, d) is None,
    ensures
        deposit_error(credited(state, d), d) == Some(Error::DuplicateOutpoint),
{
}

/// A refused deposit with an output index beyond the outputs, whose proof
/// leads to the header and matches the transaction, is refused for that index.
pub proof fn lemma_vout_out_of_range(state: PegState, d: Deposit)
    requires
        lookup(state.chain, state.base, d.height) matches Some(header) && d.extracted == Some(
            (header.merkle_root@, seq![d.txid@]),
        ),
        d.vout >= d.outputs.len(),
    ensures
        deposit_error(state, d) == Some(Error::VoutOutOfRange),
{
}

impl View for Bitcoin {
    type V = PegState;

    open spec fn view(&self) -> PegState {
        PegState {
            chain: self.headers.chain(),
            base: self.headers.base(),
            checkpoints: self.checkpoints@,
            outpoints: self.processed_outpoints@,
            balances: self.accounts@,
            signatory_keys: self.signatory_keys@,
        }
    }
}

impl Bitcoin {
    /// Every part of the peg is well formed.
    pub open spec fn wf(&self) -> bool {
        &&& self.headers.wf()
        &&& self.processed_outpoints.wf()
        &&& self.checkpoints.wf()
        &&& self.accounts.wf()
        &&& self.signatory_keys.wf()
    }

    /// A peg on the header chain, with nothing credited, no checkpoint and no key.
    pub fn new(headers: HeaderQueue) -> (r: Bitcoin)
        requires
            headers.wf(),
        ensures
            r.wf(),
            r.headers == headers,
            r@.checkpoints == Seq::<CheckpointView>::empty(),
            r@.outpoints == Map::<Outpoint, u64>::empty(),
            r@.balances == Map::<Address, u64>::empty(),
            r@.signatory_keys == Map::<ConsensusKey, Xpub>::empty(),
    {
        Bitcoin {
            headers,
            processed_outpoints: OutpointSet::new(),
            checkpoints: CheckpointQueue::new(),
            accounts: Accounts::new(),
            signatory_keys: SignatoryKeys::new(),
        }
    }

    /// Registers the key for the consensus key of the signer. Refused with
    /// `Unauthorized` for a call without a signer, and with `NoConsensusKey`
    /// for a signer who is no validator. An earlier key is replaced.
    pub fn set_signatory_key(
        &mut self,
        signer: Option<Address>,
        validators: &Validators,
        signatory_key: Xpub,
    ) -> (r: Result<(), Error>)
        requires
            old(self).wf(),
            validators.wf(),
        ensures
            final(self).wf(),
            match signer {
                None => r == Err::<(), Error>(Error::Unauthorized) && final(self)@ == old(self)@,
                Some(address) => if validators@.contains_key(address) {
                    r is Ok && final(self)@ == (PegState {
                        signatory_keys: old(self)@.signatory_keys.insert(
                            validators@[address].consensus_key,
                            signatory_key,
                        ),
                        ..old(self)@
                    })
                } else {
                    r == Err::<(), Error>(Error::NoConsensusKey) && final(self)@ == old(self)@
                },
            },
    {
        let address = match signer {
            Some(address) => address,
            None => {
                return Err(Error::Unauthorized);
            },
        };
        let consensus_key = match validators.consensus_key(address) {
            Some(key) => key,
            None => {
                return Err(Error::NoConsensusKey);
            },
        };
        self.signatory_keys.insert(consensus_key, signatory_key);
        Ok(())
    }

    /// Credits the deposit, given what the extraction of its merkle proof
    /// gave. The checks are made in the order of `deposit_error`; a refusal
    /// leaves the peg as it was. The whole amount of the output is credited:
    /// no fee is taken.
    pub fn credit_deposit(
        &mut self,
        btc_tx: &Transaction,
        btc_height: u32,
        extracted: Option<([u8; 32], Vec<[u8; 32]>)>,
        btc_vout: u32,
        sigset_index: u32,
        dest: Address,
        now: u64,
    ) -> (r: Result<(), Error>)
        requires
            old(self).wf(),
        ensures
            final(self).wf(),
            match deposit_error(
                old(self)@,
                Deposit {
                    txid: btc_tx.id(),
                    outputs: outputs_view(btc_tx.outputs()),
                    height: btc_height,
                    extracted: proof_view(extracted),
                    vout: btc_vout,
                    sigset_index,
                    dest,
                    now,
                },
            ) {
                Some(e) => r == Err::<(), Error>(e) && final(self)@ == old(self)@,
                None => r is Ok && final(self)@ == credited(
                    old(self)@,
                    Deposit {
                        txid: btc_tx.id(),
                        outputs: outputs_view(btc_tx.outputs()),
                        height: btc_height,
                        extracted: proof_view(extracted),
                        vout: btc_vout,
                        sigset_index,
                        dest,
                        now,
                    },
                ),
            },
    {
        let header = match self.headers.get_by_height(btc_height) {
            Some(header) => header,
            None => {
                return Err(Error::UnknownHeight);
            },
        };
        let (root, ids) = match extracted {
            Some(found) => found,
            None => {
                return Err(Error::BadMerkleProof);
            },
        };
        if !array_eq(&root, &header.merkle_root) {
            return Err(Error::BadMerkleProof);
        }
        let txid = btc_tx.txid();
        if ids.len() != 1 {
            return Err(Error::AmbiguousOrMismatchedProof);
        }
        if !array_eq(&ids[0], &txid) {
            return Err(Error::AmbiguousOrMismatchedProof);
        }
        let outputs = btc_tx.output();
        if btc_vout as usize >= outputs.len() {
            return Err(Error::VoutOutOfRange);
        }
        let output = &outputs[btc_vout as usize];
        let checkpoint = match self.checkpoints.get(sigset_index) {
            Ok(checkpoint) => checkpoint,
            Err(e) => {
                return Err(e);
            },
        };
        let timeout = checkpoint.sigset.deposit_timeout();
        if now > timeout {
            return Err(Error::DepositExpired);
        }
        let expected_script = checkpoint.sigset.output_script(&dest);
        if !slice_eq(output.script_pubkey.as_slice(), expected_script.as_slice()) {
            return Err(Error::ScriptMismatch);
        }
        let outpoint = (txid, btc_vout);
        if self.processed_outpoints.is_blocked(outpoint, now) {
            return Err(Error::DuplicateOutpoint);
        }
        if output.value > u64::MAX - self.accounts.balance(dest) {
            return Err(Error::AmountOverflow);
        }
        let recorded = self.processed_outpoints.insert(outpoint, timeout, now);
        let paid = self.accounts.deposit(dest, output.value);
        assert(recorded is Ok && paid is Ok);
        Ok(())
    }

    /// Relays a deposit: a transaction of which the output `btc_vout` pays to
    /// the script of the signatory set of the checkpoint `sigset_index` for
    /// the destination, with a proof that the block at `btc_height` holds
    /// it. On success the destination is credited with the output's amount,
    /// and the outpoint is recorded until the set's deposit timeout.
    pub fn relay_deposit(
        &mut self,
        btc_tx: &Transaction,
        btc_height: u32,
        btc_proof: &[u8],
        btc_vout: u32,
        sigset_index: u32,
        dest: Address,
        now: u64,
    ) -> (r: Result<(), Error>)
        requires
            old(self).wf(),
        ensures
            final(self).wf(),
            match deposit_error(
                old(self)@,
                Deposit {
                    txid: btc_tx.id(),
                    outputs: outputs_view(btc_tx.outputs()),
                    height: btc_height,
                    extracted: merkle_matches(btc_proof@),
                    vout: btc_vout,
                    sigset_index,
                    dest,
                    now,
                },
            ) {
                Some(e) => r == Err::<(), Error>(e) && final(self)@ == old(self)@,
                None => r is Ok && final(self)@ == credited(
                    old(self)@,
                    Deposit {
                        txid: btc_tx.id(),
                        outputs: outputs_view(btc_tx.outputs()),
                        height: btc_height,
                        extracted: merkle_matches(btc_proof@),
                        vout: btc_vout,
                        sigset_index,
                        dest,
                        now,
                    },
                ),
            },
    {
        if self.headers.get_by_height(btc_height).is_none() {
            return Err(Error::UnknownHeight);
        }
        let extracted = extract_matches(btc_proof);
        self.credit_deposit(btc_tx, btc_height, extracted, btc_vout, sigset_index, dest, now)
    }

    /// Opens the first checkpoint, for the validators with a registered key.
    /// Refused with `InvalidCheckpointState` while a checkpoint is building or
    /// signing, and with `AmountOverflow` when the voting power of the
    /// signatories does not fit in 64 bits.
    pub fn init_chain(&mut self, validators: &Vec<Validator>, deposit_timeout: u64) -> (r: Result<
        (),
        Error,
    >)
        requires
            old(self).wf(),
        ensures
            final(self).wf(),
            continues(old(self)@.checkpoints, final(self)@.checkpoints),
            r matches Err(e) ==> final(self)@ == old(self)@,
            r == Err::<(), Error>(Error::AmountOverflow) <==> total_power(
                snapshot(validators@, old(self)@.signatory_keys),
            ) > u64::MAX,
            r is Ok <==> total_power(snapshot(validators@, old(self)@.signatory_keys)) <= u64::MAX && !(
            old(self)@.checkpoints.len() > 0 && old(self)@.checkpoints.last().status
                != CheckpointStatus::Complete),
            r matches Err(e) ==> e == Error::AmountOverflow || e == Error::InvalidCheckpointState,
            r is Ok ==> final(self)@ == (PegState {
                checkpoints: old(self)@.checkpoints.push(
                    building(snapshot(validators@, old(self)@.signatory_keys), deposit_timeout),
                ),
                ..old(self)@
            }),
    {
        let sigset = match SignatorySet::from_validators(validators, &self.signatory_keys, deposit_timeout) {
            Ok(sigset) => sigset,
            Err(e) => {
                return Err(e);
            },
        };
        self.checkpoints.push_building(sigset)
    }

    /// The header at the height, if the chain retains it.
    pub fn header(&self, height: u32) -> (r: Option<Header>)
        requires
            self.wf(),
        ensures
            r == lookup(self@.chain, self@.base, height),
    {
        self.headers.get_by_height(height)
    }

    /// The checkpoint at the index.
    pub fn checkpoint(&self, index: u32) -> (r: Result<&Checkpoint, Error>)
        requires
            self.wf(),
        ensures
            r is Err <==> index >= self@.checkpoints.len(),
            r matches Err(e) ==> e == Error::NotFound,
            r matches Ok(c) ==> c@ == self@.checkpoints[index as int],
    {
        self.checkpoints.get(index)
    }

    /// The signatory set of the checkpoint that was opened last.
    pub fn current_sigset(&self) -> (r: Option<&SignatorySet>)
        requires
            self.wf(),
        ensures
            r is Some <==> self@.checkpoints.len() > 0,
            r matches Some(s) ==> s.wf() && s.members() == self@.checkpoints.last().members
                && s.timeout() == self@.checkpoints.last().timeout,
    {
        match self.checkpoints.last() {
            Some(checkpoint) => Some(&checkpoint.sigset),
            None => None,
        }
    }

    /// The balance of the address in the pegged token.
    pub fn balance(&self, address: Address) -> (r: u64)
        requires
            self.wf(),
        ensures
            r == balance_of(self@.balances, address),
    {
        self.accounts.balance(address)
    }

    /// The key registered for the consensus key.
    pub fn signatory_key(&self, consensus_key: ConsensusKey) -> (r: Option<&Xpub>)
        requires
            self.wf(),
        ensures
            r is Some <==> self@.signatory_keys.contains_key(consensus_key),
            r matches Some(x) ==> *x == self@.signatory_keys[consensus_key],
    {
        self.signatory_keys.get(consensus_key)
    }
}

} // verus!
