//! Checkpoints: the generations of custody, each bound to one signatory set.

use vstd::prelude::*;
use crate::bitcoin::signatory::{Signatory, SignatorySet};
use crate::bitcoin::threshold_sig::{SigState, SignedTransaction, ThresholdSig, signature_valid, stack_view, unsigned_shares, witness_of};
use crate::error::Error;

verus! {

/// Where a checkpoint stands in its life. A checkpoint only moves forward:
/// from building to signing to complete.
#[derive(Clone, Copy, Debug, PartialEq, Eq, Structural)]
pub enum CheckpointStatus {
    /// Deposits and withdrawals are being gathered.
    Building,
    /// The signatories are signing the checkpoint's transaction.
    Signing,
    /// Enough voting power has signed; the transaction is final.
    Complete,
}

/// How far a status is along the life of a checkpoint.
pub open spec fn rank(status: CheckpointStatus) -> int {
    match status {
        CheckpointStatus::Building => 0,
        CheckpointStatus::Signing => 1,
        CheckpointStatus::Complete => 2,
    }
}

/// One generation of custody.
pub struct Checkpoint {
    /// Where the checkpoint stands.
    pub status: CheckpointStatus,
    /// The signatory set that holds the reserve in this generation.
    pub sigset: SignatorySet,
    /// The signatures over the checkpoint's transaction, once signing began.
    pub sig: Option<ThresholdSig>,
    /// The signed transaction, once the checkpoint is complete.
    pub signed_tx: Option<SignedTransaction>,
}

/// A checkpoint, as contracts see it.
pub struct CheckpointView {
    pub status: CheckpointStatus,
    pub members: Seq<Signatory>,
    pub timeout: u64,
    pub sig: Option<SigState>,
    pub witness: Option<Seq<Seq<u8>>>,
}

impl View for Checkpoint {
    type V = CheckpointView;

    open spec fn view(&self) -> CheckpointView {
        CheckpointView {
            status: self.status,
            members: self.sigset.members(),
            timeout: self.sigset.timeout(),
            sig: match self.sig {
                Some(ts) => Some(ts@),
                None => None,
            },
            witness: match self.signed_tx {
                Some(tx) => Some(stack_view(tx.witness@)),
                None => None,
            },
        }
    }
}

impl Checkpoint {
    /// The parts of the checkpoint fit its status: no signatures while
    /// building, an open collection while signing, and a finalized collection
    /// with its witness once complete.
    pub open spec fn wf(&self) -> bool {
        &&& self.sigset.wf()
        &&& match self.status {
            CheckpointStatus::Building => self.sig is None && self.signed_tx is None,
            CheckpointStatus::Signing => self.signed_tx is None && (self.sig matches Some(ts) && ts.wf()
                && !ts@.finalized),
            CheckpointStatus::Complete => self.sig matches Some(ts) && ts.wf() && ts@.finalized && (
            self.signed_tx matches Some(tx) && tx.message == ts@.message && stack_view(tx.witness@)
                == witness_of(ts@.shares)),
        }
    }
}

/// A new checkpoint for the set.
pub open spec fn building(members: Seq<Signatory>, timeout: u64) -> CheckpointView {
    CheckpointView { status: CheckpointStatus::Building, members, timeout, sig: None, witness: None }
}

/// The checkpoint after signing began over the message.
pub open spec fn signing(c: CheckpointView, message: [u8; 32], numerator: u64, denominator: u64) -> CheckpointView {
    CheckpointView {
        status: CheckpointStatus::Signing,
        sig: Some(
            SigState { message, shares: unsigned_shares(c.members), numerator, denominator, finalized: false },
        ),
        ..c
    }
}

/// The checkpoint after the collection `state` took the signature: complete,
/// with the witness, if the signed power then reaches the threshold.
pub open spec fn signed(c: CheckpointView, state: SigState, pubkey: [u8; 33], signature: [u8; 64]) -> CheckpointView {
    let after = state.with_signature(pubkey, signature);
    if after.complete() {
        CheckpointView {
            status: CheckpointStatus::Complete,
            sig: Some(SigState { finalized: true, ..after }),
            witness: Some(witness_of(after.shares)),
            ..c
        }
    } else {
        CheckpointView { sig: Some(after), ..c }
    }
}

/// The later queue continues the earlier one: it keeps every checkpoint, none
/// has moved backwards, none has changed its signatory set, and a complete
/// checkpoint is as it was.
pub open spec fn continues(earlier: Seq<CheckpointView>, later: Seq<CheckpointView>) -> bool {
    &&& earlier.len() <= later.len()
    &&& forall|i: int|
        0 <= i < earlier.len() ==> {
            &&& rank(earlier[i].status) <= rank((#[trigger] later[i]).status)
            &&& later[i].members == earlier[i].members
            &&& later[i].timeout == earlier[i].timeout
            &&& (earlier[i].status == CheckpointStatus::Complete ==> later[i] == earlier[i])
        }
}

/// The checkpoints in the order in which they were opened. Only the last one
/// can still change.
pub struct CheckpointQueue {
    queue: Vec<Checkpoint>,
}

impl View for CheckpointQueue {
    type V = Seq<CheckpointView>;

    closed spec fn view(&self) -> Seq<CheckpointView> {
        Seq::new(self.queue@.len(), |i: int| self.queue@[i]@)
    }
}

impl CheckpointQueue {
    /// Every checkpoint is well formed, and all but the last are complete.
    pub closed spec fn wf(&self) -> bool {
        &&& forall|i: int| 0 <= i < self.queue@.len() ==> (#[trigger] self.queue@[i]).wf()
        &&& forall|i: int|
            0 <= i < self.queue@.len() - 1 ==> (#[trigger] self.queue@[i]).status
                == CheckpointStatus::Complete
    }

    /// At most one checkpoint is building or signing: the last one.
    pub proof fn lemma_single_active(&self)
        requires
            self.wf(),
        ensures
            forall|i: int|
                0 <= i < self@.len() - 1 ==> (#[trigger] self@[i]).status == CheckpointStatus::Complete,
            forall|i: int|
                0 <= i < self@.len() && (#[trigger] self@[i]).status == CheckpointStatus::Complete
                    ==> self@[i].witness is Some,
    {
        assert forall|i: int| 0 <= i < self@.len() - 1 implies (#[trigger] self@[i]).status
            == CheckpointStatus::Complete by {
            assert(self.queue@[i].status == CheckpointStatus::Complete);
        }
        assert forall|i: int|
            0 <= i < self@.len() && (#[trigger] self@[i]).status
                == CheckpointStatus::Complete implies self@[i].witness is Some by {
            assert(self.queue@[i].wf());
        }
    }

    /// The empty queue.
    pub fn new() -> (r: CheckpointQueue)
        ensures
            r.wf(),
            r@ == Seq::<CheckpointView>::empty(),
    {
        let r = CheckpointQueue { queue: Vec::new() };
        assert(r@ =~= Seq::<CheckpointView>::empty());
        r
    }

    /// The number of checkpoints.
    pub fn len(&self) -> (r: usize)
        ensures
            r == self@.len(),
    {
        self.queue.len()
    }

    /// The checkpoint at the index.
    pub fn get(&self, index: u32) -> (r: Result<&Checkpoint, Error>)
        requires
            self.wf(),
        ensures
            r is Err <==> index >= self@.len(),
            r matches Err(e) ==> e == Error::NotFound,
            r matches Ok(c) ==> c@ == self@[index as int] && c.wf(),
    {
        if (index as usize) < self.queue.len() {
            Ok(&self.queue[index as usize])
        } else {
            Err(Error::NotFound)
        }
    }

    /// The checkpoint that was opened last.
    pub fn last(&self) -> (r: Option<&Checkpoint>)
        requires
            self.wf(),
        ensures
            r is Some <==> self@.len() > 0,
            r matches Some(c) ==> c@ == self@.last() && c.wf(),
    {
        let n = self.queue.len();
        if n == 0 {
            None
        } else {
            Some(&self.queue[n - 1])
        }
    }

    /// Whether a checkpoint is building or signing.
    pub fn has_active(&self) -> (r: bool)
        ensures
            r == (self@.len() > 0 && self@.last().status != CheckpointStatus::Complete),
    {
        let n = self.queue.len();
        if n == 0 {
            false
        } else {
            match self.queue[n - 1].status {
                CheckpointStatus::Complete => false,
                _ => true,
            }
        }
    }

    /// Opens a checkpoint for the set. Refused while a checkpoint is building
    /// or signing.
    pub fn push_building(&mut self, sigset: SignatorySet) -> (r: Result<(), Error>)
        requires
            old(self).wf(),
            sigset.wf(),
        ensures
            final(self).wf(),
            continues(old(self)@, final(self)@),
            r is Err <==> old(self)@.len() > 0 && old(self)@.last().status != CheckpointStatus::Complete,
            r matches Err(e) ==> e == Error::InvalidCheckpointState && final(self)@ == old(self)@,
            r is Ok ==> final(self)@ == old(self)@.push(building(sigset.members(), sigset.timeout())),
    {
        if self.has_active() {
            return Err(Error::InvalidCheckpointState);
        }
        let checkpoint = Checkpoint {
            status: CheckpointStatus::Building,
            sigset,
            sig: None,
            signed_tx: None,
        };
        self.queue.push(checkpoint);
        assert(self@ =~= old(self)@.push(building(sigset.members(), sigset.timeout())));
        assert forall|i: int| 0 <= i < self.queue@.len() - 1 implies (#[trigger] self.queue@[i]).status
            == CheckpointStatus::Complete by {
            if i == old(self).queue@.len() - 1 {
                assert(old(self)@.last().status == CheckpointStatus::Complete);
            } else {
                assert(old(self).queue@[i].status == CheckpointStatus::Complete);
            }
        }
        Ok(())
    }

    /// Moves the building checkpoint to signing: opens the collection of
    /// signatures over the message, with the threshold fraction
    /// `numerator / denominator`. Refused when the last checkpoint is not building.
    pub fn begin_signing(&mut self, message: [u8; 32], numerator: u64, denominator: u64) -> (r: Result<
        (),
        Error,
    >)
        requires
            old(self).wf(),
            0 < denominator,
            numerator <= denominator,
        ensures
            final(self).wf(),
            continues(old(self)@, final(self)@),
            r is Err <==> !(old(self)@.len() > 0 && old(self)@.last().status
                == CheckpointStatus::Building),
            r matches Err(e) ==> e == Error::InvalidCheckpointState && final(self)@ == old(self)@,
            r is Ok ==> final(self)@ == old(self)@.update(
                old(self)@.len() - 1,
                signing(old(self)@.last(), message, numerator, denominator),
            ),
    {
        let n = self.queue.len();
        if n == 0 {
            return Err(Error::InvalidCheckpointState);
        }
        match self.queue[n - 1].status {
            CheckpointStatus::Building => {},
            _ => {
                return Err(Error::InvalidCheckpointState);
            },
        }
        assert(old(self).queue@[n - 1].wf());
        let last = self.queue.pop().unwrap();
        let Checkpoint { status: _, sigset, sig: _, signed_tx: _ } = last;
        let collection = ThresholdSig::from_sigset(&sigset, message, numerator, denominator);
        let checkpoint = Checkpoint {
            status: CheckpointStatus::Signing,
            sigset,
            sig: Some(collection),
            signed_tx: None,
        };
        self.queue.push(checkpoint);
        proof {
            assert(self.queue@ =~= old(self).queue@.update(n - 1, checkpoint));
            assert(self@ =~= old(self)@.update(
                old(self)@.len() - 1,
                signing(old(self)@.last(), message, numerator, denominator),
            ));
            assert forall|i: int| 0 <= i < self.queue@.len() implies (#[trigger] self.queue@[i]).wf() by {
                if i < n - 1 {
                    assert(old(self).queue@[i].wf());
                }
            }
            assert forall|i: int| 0 <= i < self.queue@.len() - 1 implies (#[trigger] self.queue@[i]).status
                == CheckpointStatus::Complete by {
                assert(old(self).queue@[i].status == CheckpointStatus::Complete);
            }
        }
        Ok(())
    }

    /// Records a signature on the signing checkpoint, given whether it
    /// verifies. A refusal leaves the queue as it was. When the signed power
    /// then reaches the threshold, the checkpoint becomes complete and holds
    /// the signed transaction.
    pub fn apply_signature(&mut self, pubkey: [u8; 33], signature: [u8; 64], valid: bool) -> (r: Result<
        (),
        Error,
    >)
        requires
            old(self).wf(),
        ensures
            final(self).wf(),
            continues(old(self)@, final(self)@),
            !(old(self)@.len() > 0 && old(self)@.last().status == CheckpointStatus::Signing) ==> r
                == Err::<(), Error>(Error::InvalidCheckpointState) && final(self)@ == old(self)@,
            old(self)@.len() > 0 && old(self)@.last().status == CheckpointStatus::Signing ==> (
            old(self)@.last().sig matches Some(state) && match state.signing_error(pubkey, valid) {
                Some(e) => r == Err::<(), Error>(e) && final(self)@ == old(self)@,
                None => r is Ok && final(self)@ == old(self)@.update(
                    old(self)@.len() - 1,
                    signed(old(self)@.last(), state, pubkey, signature),
                ),
            }),
    {
        let n = self.queue.len();
        if n == 0 {
            return Err(Error::InvalidCheckpointState);
        }
        match self.queue[n - 1].status {
            CheckpointStatus::Signing => {},
            _ => {
                return Err(Error::InvalidCheckpointState);
            },
        }
        assert(old(self).queue@[n - 1].wf());
        let ghost before = old(self).queue@[n - 1];
        let last = self.queue.pop().unwrap();
        let Checkpoint { status, sigset, sig, signed_tx } = last;
        let mut collection = sig.unwrap();
        let ghost state = collection@;
        let outcome = collection.apply_signature(pubkey, signature, valid);
        let checkpoint = match outcome {
            Err(_) => Checkpoint { status, sigset, sig: Some(collection), signed_tx },
            Ok(()) => {
                if collection.is_complete() {
                    let done = collection.finalize();
                    Checkpoint {
                        status: CheckpointStatus::Complete,
                        sigset,
                        sig: Some(collection),
                        signed_tx: Some(done.unwrap()),
                    }
                } else {
                    Checkpoint { status, sigset, sig: Some(collection), signed_tx }
                }
            },
        };
        self.queue.push(checkpoint);
        proof {
            assert(self.queue@ =~= old(self).queue@.update(n - 1, checkpoint));
            if outcome is Err {
                assert(checkpoint@ == before@);
                assert(self@ =~= old(self)@);
            } else {
                assert(checkpoint@ == signed(old(self)@.last(), state, pubkey, signature));
                assert(self@ =~= old(self)@.update(
                    old(self)@.len() - 1,
                    signed(old(self)@.last(), state, pubkey, signature),
                ));
            }
            assert forall|i: int| 0 <= i < self.queue@.len() implies (#[trigger] self.queue@[i]).wf() by {
                if i < n - 1 {
                    assert(old(self).queue@[i].wf());
                }
            }
            assert forall|i: int| 0 <= i < self.queue@.len() - 1 implies (#[trigger] self.queue@[i]).status
                == CheckpointStatus::Complete by {
                assert(old(self).queue@[i].status == CheckpointStatus::Complete);
            }
        }
        outcome
    }

    /// Records a signature of the key over the message of the signing
    /// checkpoint. Refused with `InvalidCheckpointState` when no checkpoint is
    /// signing, and else as the collection of signatures refuses it.
    pub fn sign(&mut self, pubkey: [u8; 33], signature: [u8; 64]) -> (r: Result<(), Error>)
        requires
            old(self).wf(),
        ensures
            final(self).wf(),
            continues(old(self)@, final(self)@),
            !(old(self)@.len() > 0 && old(self)@.last().status == CheckpointStatus::Signing) ==> r
                == Err::<(), Error>(Error::InvalidCheckpointState) && final(self)@ == old(self)@,
            old(self)@.len() > 0 && old(self)@.last().status == CheckpointStatus::Signing ==> (
            old(self)@.last().sig matches Some(state) && match state.signing_error(
                pubkey,
                signature_valid(pubkey@, state.message@, signature@),
            ) {
                Some(e) => r == Err::<(), Error>(e) && final(self)@ == old(self)@,
                None => r is Ok && final(self)@ == old(self)@.update(
                    old(self)@.len() - 1,
                    signed(old(self)@.last(), state, pubkey, signature),
                ),
            }),
    {
        let n = self.queue.len();
        if n == 0 {
            return Err(Error::InvalidCheckpointState);
        }
        assert(old(self).queue@[n - 1].wf());
        let valid = match &self.queue[n - 1].sig {
            Some(collection) => collection.verifies(&pubkey, &signature),
            None => false,
        };
        self.apply_signature(pubkey, signature, valid)
    }
}

} // verus!
