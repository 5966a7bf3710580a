//! Collecting the signatures of a signatory set over one message until
//! enough voting power has signed.

use vstd::prelude::*;
use crate::bitcoin::signatory::{Signatory, SignatorySet, total_power};
use crate::bytes::{array_eq, extend};
use crate::error::Error;

verus! {

/// A signatory's part in a threshold signature.
#[derive(Clone, Copy, Debug)]
pub struct Share {
    /// The signatory's public key.
    pub pubkey: [u8; 33],
    /// The signatory's voting power.
    pub power: u64,
    /// The signature, once the signatory has signed.
    pub sig: Option<[u8; 64]>,
}

/// A message with the witness that the signatories' signatures make up.
pub struct SignedTransaction {
    /// The digest that was signed.
    pub message: [u8; 32],
    /// One item per signatory, in the set's order: the signature, or nothing
    /// where the signatory did not sign.
    pub witness: Vec<Vec<u8>>,
}

/// The byte strings of a witness.
pub open spec fn stack_view(witness: Seq<Vec<u8>>) -> Seq<Seq<u8>> {
    Seq::new(witness.len(), |i: int| witness[i]@)
}

/// Whether the signature over the message verifies against the public key.
pub uninterp spec fn signature_valid(pubkey: Seq<u8>, message: Seq<u8>, signature: Seq<u8>) -> bool;

/// `Secp256k1::verify_ecdsa`, on a compressed public key, a 32-byte message
/// and a compact signature. Bytes that are no key or no signature verify nothing.
#[verifier::external_body]
fn verify_signature(pubkey: &[u8; 33], message: &[u8; 32], signature: &[u8; 64]) -> (ok: bool)
    ensures
        ok == signature_valid(pubkey@, message@, signature@),
{
    let key = ::bitcoin::secp256k1::PublicKey::from_slice(pubkey);
    let sig = ::bitcoin::secp256k1::ecdsa::Signature::from_compact(signature);
    let msg = ::bitcoin::secp256k1::Message::from_slice(message);
    match (key, sig, msg) {
        (Ok(key), Ok(sig), Ok(msg)) => {
            ::bitcoin::secp256k1::Secp256k1::verification_only().verify_ecdsa(&msg, &sig, &key).is_ok()
        },
        _ => false,
    }
}

/// The state of a collection, as contracts see it.
pub struct SigState {
    /// The digest to sign.
    pub message: [u8; 32],
    /// The signatories' shares, in the set's order.
    pub shares: Seq<Share>,
    /// The threshold fraction's numerator.
    pub numerator: u64,
    /// The threshold fraction's denominator.
    pub denominator: u64,
    /// Whether the signatures were aggregated.
    pub finalized: bool,
}

/// The sum of the voting power of all shares.
pub open spec fn shares_power(shares: Seq<Share>) -> nat
    decreases shares.len(),
{
    if shares.len() == 0 {
        0
    } else {
        shares_power(shares.drop_last()) + shares.last().power as nat
    }
}

/// The sum of the voting power of the shares that hold a signature.
pub open spec fn signed_power(shares: Seq<Share>) -> nat
    decreases shares.len(),
{
    if shares.len() == 0 {
        0
    } else {
        signed_power(shares.drop_last()) + if shares.last().sig is Some {
            shares.last().power as nat
        } else {
            0
        }
    }
}

/// Whether the signed power reaches the fraction of the total power.
pub open spec fn meets_threshold(signed: nat, total: nat, numerator: u64, denominator: u64) -> bool {
    signed * denominator >= numerator * total
}

/// Whether some share belongs to the public key.
pub open spec fn holds_key(shares: Seq<Share>, pubkey: [u8; 33]) -> bool {
    exists|i: int| 0 <= i < shares.len() && #[trigger] shares[i].pubkey == pubkey
}

/// Whether `i` is the place of the first share of the public key.
pub open spec fn is_first(shares: Seq<Share>, pubkey: [u8; 33], i: int) -> bool {
    &&& 0 <= i < shares.len()
    &&& shares[i].pubkey == pubkey
    &&& forall|j: int| 0 <= j < i ==> (#[trigger] shares[j]).pubkey != pubkey
}

/// The place of the first share of the public key.
pub open spec fn position(shares: Seq<Share>, pubkey: [u8; 33]) -> int {
    choose|i: int| is_first(shares, pubkey, i)
}

/// The shares of the members of a signatory set, none of them signed.
pub open spec fn unsigned_shares(members: Seq<Signatory>) -> Seq<Share> {
    Seq::new(
        members.len(),
        |i: int| Share { pubkey: members[i].pubkey, power: members[i].voting_power, sig: None },
    )
}

/// The witness that the shares make up: each share's signature, or an empty
/// item where the share holds none.
pub open spec fn witness_of(shares: Seq<Share>) -> Seq<Seq<u8>> {
    Seq::new(
        shares.len(),
        |i: int|
            match shares[i].sig {
                Some(s) => s@,
                None => Seq::empty(),
            },
    )
}

impl SigState {
    /// Whether the signed power reaches the threshold.
    pub open spec fn complete(self) -> bool {
        meets_threshold(
            signed_power(self.shares),
            shares_power(self.shares),
            self.numerator,
            self.denominator,
        )
    }

    /// Why a signature of the key is refused, if it is; `valid` says whether
    /// the signature verifies against the key and the message.
    pub open spec fn signing_error(self, pubkey: [u8; 33], valid: bool) -> Option<Error> {
        if !holds_key(self.shares, pubkey) {
            Some(Error::UnknownSignatory)
        } else if self.shares[position(self.shares, pubkey)].sig is Some {
            Some(Error::DuplicateSignature)
        } else if self.finalized {
            Some(Error::AlreadyFinalized)
        } else if !valid {
            Some(Error::InvalidSignature)
        } else {
            None
        }
    }

    /// The state after the key's share took the signature.
    pub open spec fn with_signature(self, pubkey: [u8; 33], signature: [u8; 64]) -> SigState {
        let i = position(self.shares, pubkey);
        SigState {
            shares: self.shares.update(
                i,
                Share { pubkey: self.shares[i].pubkey, power: self.shares[i].power, sig: Some(signature) },
            ),
            ..self
        }
    }
}

/// The first share of a key is at one place only.
pub proof fn lemma_first_unique(shares: Seq<Share>, pubkey: [u8; 33], i: int)
    requires
        is_first(shares, pubkey, i),
    ensures
        holds_key(shares, pubkey),
        position(shares, pubkey) == i,
{
    let p = position(shares, pubkey);
    assert(is_first(shares, pubkey, p));
    if p < i {
        assert(shares[p].pubkey != pubkey);
    }
    if i < p {
        assert(shares[i].pubkey != pubkey);
    }
}

/// A key with a share has a first share.
pub proof fn lemma_position_is_first(shares: Seq<Share>, pubkey: [u8; 33])
    requires
        holds_key(shares, pubkey),
    ensures
        is_first(shares, pubkey, position(shares, pubkey)),
{
    let k = choose|i: int| 0 <= i < shares.len() && #[trigger] shares[i].pubkey == pubkey;
    lemma_first_before(shares, pubkey, k);
}

proof fn lemma_first_before(shares: Seq<Share>, pubkey: [u8; 33], k: int)
    requires
        0 <= k < shares.len(),
        shares[k].pubkey == pubkey,
    ensures
        exists|i: int| is_first(shares, pubkey, i),
    decreases k,
{
    if forall|j: int| 0 <= j < k ==> (#[trigger] shares[j]).pubkey != pubkey {
        assert(is_first(shares, pubkey, k));
    } else {
        let j = choose|j: int| 0 <= j < k && (#[trigger] shares[j]).pubkey == pubkey;
        lemma_first_before(shares, pubkey, j);
    }
}

/// The signed power is part of the total power.
pub proof fn lemma_signed_at_most_total(shares: Seq<Share>)
    ensures
        signed_power(shares) <= shares_power(shares),
    decreases shares.len(),
{
    if shares.len() > 0 {
        lemma_signed_at_most_total(shares.drop_last());
    }
}

/// A share that takes its first signature adds its power to the signed power
/// and leaves the total power as it was.
pub proof fn lemma_sign_adds_power(shares: Seq<Share>, i: int, signature: [u8; 64])
    requires
        0 <= i < shares.len(),
        shares[i].sig is None,
    ensures
        signed_power(
            shares.update(i, Share { pubkey: shares[i].pubkey, power: shares[i].power, sig: Some(signature) }),
        ) == signed_power(shares) + shares[i].power,
        shares_power(
            shares.update(i, Share { pubkey: shares[i].pubkey, power: shares[i].power, sig: Some(signature) }),
        ) == shares_power(shares),
    decreases shares.len(),
{
    let share = Share { pubkey: shares[i].pubkey, power: shares[i].power, sig: Some(signature) };
    let updated = shares.update(i, share);
    if i == shares.len() - 1 {
        assert(updated.drop_last() =~= shares.drop_last());
    } else {
        lemma_sign_adds_power(shares.drop_last(), i, signature);
        assert(updated.drop_last() =~= shares.drop_last().update(i, share));
    }
}

/// Once every share holds a signature, the signed power is the total power.
pub proof fn lemma_all_signed_is_total(shares: Seq<Share>)
    requires
        forall|i: int| 0 <= i < shares.len() ==> (#[trigger] shares[i]).sig is Some,
    ensures
        signed_power(shares) == shares_power(shares),
    decreases shares.len(),
{
    if shares.len() > 0 {
        let rest = shares.drop_last();
        assert forall|i: int| 0 <= i < rest.len() implies (#[trigger] rest[i]).sig is Some by {
            assert(shares[i].sig is Some);
        }
        lemma_all_signed_is_total(rest);
    }
}

/// The shares of a set's members carry the set's total voting power, none of it signed.
pub proof fn lemma_unsigned_shares_power(members: Seq<Signatory>)
    ensures
        shares_power(unsigned_shares(members)) == total_power(members),
        signed_power(unsigned_shares(members)) == 0,
    decreases members.len(),
{
    if members.len() > 0 {
        lemma_unsigned_shares_power(members.drop_last());
        assert(unsigned_shares(members).drop_last() =~= unsigned_shares(members.drop_last()));
    }
}

/// A collection is complete exactly when the signed power times the
/// denominator reaches the numerator times the total power. With a fraction
/// of at most one, the signatures of all signatories complete it.
pub proof fn lemma_complete_iff_threshold(state: SigState)
    requires
        state.numerator <= state.denominator,
    ensures
        state.complete() <==> signed_power(state.shares) * state.denominator >= state.numerator
            * shares_power(state.shares),
        signed_power(state.shares) <= shares_power(state.shares),
        (forall|i: int| 0 <= i < state.shares.len() ==> (#[trigger] state.shares[i]).sig is Some)
            ==> state.complete(),
{
    lemma_signed_at_most_total(state.shares);
    if forall|i: int| 0 <= i < state.shares.len() ==> (#[trigger] state.shares[i]).sig is Some {
        lemma_all_signed_is_total(state.shares);
        let t = shares_power(state.shares);
        assert(t * state.denominator >= state.numerator * t) by (nonlinear_arith)
            requires
                state.numerator <= state.denominator,
                t >= 0,
        ;
    }
}

/// A signature that was accepted is refused as a duplicate when it is
/// submitted again, whatever else holds of the second submission.
pub proof fn lemma_duplicate_is_refused(
    state: SigState,
    pubkey: [u8; 33],
    signature: [u8; 64],
    first_valid: bool,
    second_valid: bool,
)
    requires
        state.signing_error(pubkey, first_valid) is None,
    ensures
        state.with_signature(pubkey, signature).signing_error(pubkey, second_valid) == Some(
            Error::DuplicateSignature,
        ),
{
    let i = position(state.shares, pubkey);
    lemma_position_is_first(state.shares, pubkey);
    let after = state.with_signature(pubkey, signature);
    assert(is_first(after.shares, pubkey, i)) by {
        assert forall|j: int| 0 <= j < i implies (#[trigger] after.shares[j]).pubkey != pubkey by {
            assert(state.shares[j].pubkey != pubkey);
        }
    }
    lemma_first_unique(after.shares, pubkey, i);
}

/// The signatures of a signatory set over one message, with the voting power
/// that has signed so far.
pub struct ThresholdSig {
    message: [u8; 32],
    shares: Vec<Share>,
    signed: u64,
    total: u64,
    numerator: u64,
    denominator: u64,
    finalized: Option<Vec<Vec<u8>>>,
}

impl View for ThresholdSig {
    type V = SigState;

    closed spec fn view(&self) -> SigState {
        SigState {
            message: self.message,
            shares: self.shares@,
            numerator: self.numerator,
            denominator: self.denominator,
            finalized: self.finalized is Some,
        }
    }
}

/// A copy of the witness.
fn copy_stack(witness: &Vec<Vec<u8>>) -> (r: Vec<Vec<u8>>)
    ensures
        stack_view(r@) == stack_view(witness@),
{
    let mut out: Vec<Vec<u8>> = Vec::new();
    let mut i: usize = 0;
    while i < witness.len()
        invariant
            i <= witness@.len(),
            out@.len() == i,
            forall|k: int| 0 <= k < i ==> (#[trigger] out@[k])@ == witness@[k]@,
        decreases witness@.len() - i,
    {
        let item = &witness[i];
        let mut copy: Vec<u8> = Vec::new();
        let mut j: usize = 0;
        while j < item.len()
            invariant
                j <= item@.len(),
                copy@ == item@.take(j as int),
            decreases item@.len() - j,
        {
            copy.push(item[j]);
            assert(item@.take(j + 1) =~= item@.take(j as int).push(item@[j as int]));
            j += 1;
        }
        assert(item@.take(item@.len() as int) =~= item@);
        out.push(copy);
        i += 1;
    }
    assert(stack_view(out@) =~= stack_view(witness@));
    out
}

impl ThresholdSig {
    /// The sums kept beside the shares are those of the shares, the fraction
    /// is at most one, and a stored witness is that of the shares.
    pub closed spec fn wf(&self) -> bool {
        &&& self.signed == signed_power(self.shares@)
        &&& self.total == shares_power(self.shares@)
        &&& 0 < self.denominator
        &&& self.numerator <= self.denominator
        &&& self.finalized matches Some(w) ==> stack_view(w@) == witness_of(self.shares@)
            && self@.complete()
    }

    /// A collection is finalized only when it is complete, and its fraction is a fraction.
    pub proof fn lemma_wf(&self)
        requires
            self.wf(),
        ensures
            self@.finalized ==> self@.complete(),
            0 < self@.denominator,
            self@.numerator <= self@.denominator,
            shares_power(self@.shares) <= u64::MAX,
    {
    }

    /// Opens a collection over the message for the members of the set, with
    /// the threshold fraction `numerator / denominator`.
    pub fn from_sigset(sigset: &SignatorySet, message: [u8; 32], numerator: u64, denominator: u64) -> (r:
        ThresholdSig)
        requires
            sigset.wf(),
            0 < denominator,
            numerator <= denominator,
        ensures
            r.wf(),
            r@ == (SigState {
                message,
                shares: unsigned_shares(sigset.members()),
                numerator,
                denominator,
                finalized: false,
            }),
    {
        let mut shares: Vec<Share> = Vec::new();
        let n = sigset.len();
        let mut i: usize = 0;
        while i < n
            invariant
                i <= n,
                n == sigset.members().len(),
                shares@ == unsigned_shares(sigset.members().take(i as int)),
            decreases n - i,
        {
            let member = sigset.get(i).unwrap();
            shares.push(Share { pubkey: member.pubkey, power: member.voting_power, sig: None });
            assert(shares@ =~= unsigned_shares(sigset.members().take(i + 1)));
            i += 1;
        }
        proof {
            assert(sigset.members().take(n as int) =~= sigset.members());
            lemma_unsigned_shares_power(sigset.members());
        }
        ThresholdSig {
            message,
            shares,
            signed: 0,
            total: sigset.present_vp(),
            numerator,
            denominator,
            finalized: None,
        }
    }

    /// The digest to sign.
    pub fn message(&self) -> (r: [u8; 32])
        ensures
            r == self@.message,
    {
        self.message
    }

    /// The number of shares.
    pub fn len(&self) -> (r: usize)
        ensures
            r == self@.shares.len(),
    {
        self.shares.len()
    }

    /// The share at the index.
    pub fn share(&self, index: usize) -> (r: Option<Share>)
        ensures
            r == if index < self@.shares.len() {
                Some(self@.shares[index as int])
            } else {
                None
            },
    {
        if index < self.shares.len() {
            Some(self.shares[index])
        } else {
            None
        }
    }

    /// The voting power that has signed.
    pub fn signed(&self) -> (r: u64)
        requires
            self.wf(),
        ensures
            r == signed_power(self@.shares),
    {
        self.signed
    }

    /// The voting power of all signatories.
    pub fn total(&self) -> (r: u64)
        requires
            self.wf(),
        ensures
            r == shares_power(self@.shares),
    {
        self.total
    }

    /// Whether the signatures were aggregated.
    pub fn is_finalized(&self) -> (r: bool)
        ensures
            r == self@.finalized,
    {
        self.finalized.is_some()
    }

    fn find(&self, pubkey: &[u8; 33]) -> (r: Option<usize>)
        ensures
            match r {
                Some(i) => is_first(self.shares@, *pubkey, i as int),
                None => !holds_key(self.shares@, *pubkey),
            },
    {
        let mut i: usize = 0;
        while i < self.shares.len()
            invariant
                i <= self.shares@.len(),
                forall|j: int| 0 <= j < i ==> (#[trigger] self.shares@[j]).pubkey != *pubkey,
            decreases self.shares@.len() - i,
        {
            if array_eq(&self.shares[i].pubkey, pubkey) {
                return Some(i);
            }
            i += 1;
        }
        None
    }

    /// Whether the key belongs to a signatory of the collection.
    pub fn contains_key(&self, pubkey: [u8; 33]) -> (r: bool)
        ensures
            r == holds_key(self@.shares, pubkey),
    {
        match self.find(&pubkey) {
            Some(i) => {
                proof {
                    lemma_first_unique(self.shares@, pubkey, i as int);
                }
                true
            },
            None => false,
        }
    }

    /// Whether the signed voting power reaches the threshold fraction of the
    /// total voting power.
    pub fn is_complete(&self) -> (r: bool)
        requires
            self.wf(),
        ensures
            r == self@.complete(),
    {
        proof {
            let bound: int = 0xffff_ffff_ffff_ffff;
            let (a, b, c, d) = (self.signed as int, self.denominator as int, self.numerator as int, self.total as int);
            assert(a * b <= bound * bound && c * d <= bound * bound) by (nonlinear_arith)
                requires
                    0 <= a <= bound,
                    0 <= b <= bound,
                    0 <= c <= bound,
                    0 <= d <= bound,
            ;
            assert(bound * bound < 0x1_0000_0000_0000_0000_0000_0000_0000_0000) by (nonlinear_arith)
                requires
                    bound == 0xffff_ffff_ffff_ffff,
            ;
        }
        (self.signed as u128) * (self.denominator as u128) >= (self.numerator as u128) * (
        self.total as u128)
    }

    /// Records the signature of the key, given whether it verifies against
    /// the key and the message. Refused for a key without a share, for a key
    /// that has signed, after the aggregation, and for a signature that does
    /// not verify, in this order.
    pub fn apply_signature(&mut self, pubkey: [u8; 33], signature: [u8; 64], valid: bool) -> (r: Result<
        (),
        Error,
    >)
        requires
            old(self).wf(),
        ensures
            final(self).wf(),
            match old(self)@.signing_error(pubkey, valid) {
                Some(e) => r == Err::<(), Error>(e) && final(self)@ == old(self)@,
                None => r is Ok && final(self)@ == old(self)@.with_signature(pubkey, signature),
            },
            r is Ok ==> signed_power(final(self)@.shares) == signed_power(old(self)@.shares)
                + old(self)@.shares[position(old(self)@.shares, pubkey)].power,
    {
        let i = match self.find(&pubkey) {
            Some(i) => i,
            None => {
                return Err(Error::UnknownSignatory);
            },
        };
        proof {
            lemma_first_unique(self.shares@, pubkey, i as int);
        }
        let share = self.shares[i];
        if share.sig.is_some() {
            return Err(Error::DuplicateSignature);
        }
        if self.finalized.is_some() {
            return Err(Error::AlreadyFinalized);
        }
        if !valid {
            return Err(Error::InvalidSignature);
        }
        let signed_share = Share { pubkey: share.pubkey, power: share.power, sig: Some(signature) };
        proof {
            lemma_sign_adds_power(self.shares@, i as int, signature);
            lemma_signed_at_most_total(self.shares@.update(i as int, signed_share));
        }
        self.shares[i] = signed_share;
        self.signed = self.signed + share.power;
        Ok(())
    }

    /// Whether the signature over the collection's message verifies against the key.
    pub fn verifies(&self, pubkey: &[u8; 33], signature: &[u8; 64]) -> (ok: bool)
        ensures
            ok == signature_valid(pubkey@, self@.message@, signature@),
    {
        verify_signature(pubkey, &self.message, signature)
    }

    /// Records the signature of the key over the message. Refused with
    /// `UnknownSignatory` for a key without a share, with `DuplicateSignature`
    /// for a key that has signed, with `AlreadyFinalized` after the
    /// aggregation, and with `InvalidSignature` for a signature that does not
    /// verify against the key and the message.
    pub fn add_signature(&mut self, pubkey: [u8; 33], signature: [u8; 64]) -> (r: Result<(), Error>)
        requires
            old(self).wf(),
        ensures
            final(self).wf(),
            match old(self)@.signing_error(
                pubkey,
                signature_valid(pubkey@, old(self)@.message@, signature@),
            ) {
                Some(e) => r == Err::<(), Error>(e) && final(self)@ == old(self)@,
                None => r is Ok && final(self)@ == old(self)@.with_signature(pubkey, signature),
            },
            r is Ok ==> signed_power(final(self)@.shares) == signed_power(old(self)@.shares)
                + old(self)@.shares[position(old(self)@.shares, pubkey)].power,
    {
        let valid = verify_signature(&pubkey, &self.message, &signature);
        self.apply_signature(pubkey, signature, valid)
    }

    fn aggregate(&self) -> (r: Vec<Vec<u8>>)
        ensures
            stack_view(r@) == witness_of(self.shares@),
    {
        let mut out: Vec<Vec<u8>> = Vec::new();
        let mut i: usize = 0;
        while i < self.shares.len()
            invariant
                i <= self.shares@.len(),
                out@.len() == i,
                forall|k: int| 0 <= k < i ==> (#[trigger] out@[k])@ == witness_of(self.shares@)[k],
            decreases self.shares@.len() - i,
        {
            let mut item: Vec<u8> = Vec::new();
            match self.shares[i].sig {
                Some(sig) => {
                    extend(&mut item, &sig);
                    assert(item@ =~= sig@);
                },
                None => {},
            }
            out.push(item);
            i += 1;
        }
        assert(stack_view(out@) =~= witness_of(self.shares@));
        out
    }

    /// The message with the witness made of the signatures, once the
    /// collection is complete. The first success fixes the result: later
    /// calls return the same witness.
    pub fn finalize(&mut self) -> (r: Result<SignedTransaction, Error>)
        requires
            old(self).wf(),
        ensures
            final(self).wf(),
            r is Err <==> !old(self)@.finalized && !old(self)@.complete(),
            r matches Err(e) ==> e == Error::NotComplete && final(self)@ == old(self)@,
            r matches Ok(tx) ==> tx.message == old(self)@.message && stack_view(tx.witness@)
                == witness_of(old(self)@.shares) && final(self)@ == (SigState {
                finalized: true,
                ..old(self)@
            }),
    {
        match &self.finalized {
            Some(witness) => {
                let copy = copy_stack(witness);
                return Ok(SignedTransaction { message: self.message, witness: copy });
            },
            None => {},
        }
        if !self.is_complete() {
            return Err(Error::NotComplete);
        }
        let witness = self.aggregate();
        let copy = copy_stack(&witness);
        self.finalized = Some(witness);
        Ok(SignedTransaction { message: self.message, witness: copy })
    }
}

} // verus!
