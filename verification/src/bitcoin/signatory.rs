//! Signatory sets: the validators that hold the reserve, with their keys and voting power.

use vstd::prelude::*;
use crate::assoc::{distinct_keys, has_key, to_map, lemma_to_map_dom, lemma_to_map_at, lemma_to_map_push, lemma_to_map_update, lemma_distinct_push};
use crate::bitcoin::{Address, ConsensusKey, Xpub};
use crate::bytes::{array_eq, extend};
use crate::error::Error;

verus! {

/// A validator of the chain: its consensus key and its voting power.
#[derive(Clone, Copy, Debug)]
pub struct Validator {
    pub consensus_key: ConsensusKey,
    pub power: u64,
}

/// A member of a signatory set.
#[derive(Clone, Copy, Debug)]
pub struct Signatory {
    /// The validator's consensus key.
    pub consensus_key: ConsensusKey,
    /// The public key of the extended key that the validator registered.
    pub pubkey: [u8; 33],
    /// The validator's voting power when the set was built.
    pub voting_power: u64,
}

/// The Bitcoin keys that validators registered, by consensus key.
pub struct SignatoryKeys {
    records: Vec<(ConsensusKey, Xpub)>,
}

impl View for SignatoryKeys {
    type V = Map<ConsensusKey, Xpub>;

    closed spec fn view(&self) -> Map<ConsensusKey, Xpub> {
        to_map(self.records@)
    }
}

impl SignatoryKeys {
    /// No consensus key is registered twice.
    pub closed spec fn wf(&self) -> bool {
        distinct_keys(self.records@)
    }

    /// The empty registry.
    pub fn new() -> (r: SignatoryKeys)
        ensures
            r.wf(),
            r@ == Map::<ConsensusKey, Xpub>::empty(),
    {
        SignatoryKeys { records: Vec::new() }
    }

    fn position(&self, consensus_key: &ConsensusKey) -> (r: Option<usize>)
        ensures
            match r {
                Some(i) => i < self.records@.len() && self.records@[i as int].0 == *consensus_key,
                None => !has_key(self.records@, *consensus_key),
            },
    {
        let mut i: usize = 0;
        while i < self.records.len()
            invariant
                i <= self.records@.len(),
                forall|j: int| 0 <= j < i ==> self.records@[j].0 != *consensus_key,
            decreases self.records@.len() - i,
        {
            if array_eq(&self.records[i].0, consensus_key) {
                return Some(i);
            }
            i += 1;
        }
        None
    }

    /// The key registered for the consensus key.
    pub fn get(&self, consensus_key: ConsensusKey) -> (r: Option<&Xpub>)
        requires
            self.wf(),
        ensures
            r is Some <==> self@.contains_key(consensus_key),
            r matches Some(x) ==> *x == self@[consensus_key],
    {
        proof {
            lemma_to_map_dom(self.records@, consensus_key);
        }
        match self.position(&consensus_key) {
            Some(i) => {
                proof {
                    lemma_to_map_at(self.records@, i as int);
                }
                Some(&self.records[i].1)
            },
            None => None,
        }
    }

    /// Registers the key for the consensus key, in place of an earlier one.
    pub fn insert(&mut self, consensus_key: ConsensusKey, xpub: Xpub)
        requires
            old(self).wf(),
        ensures
            final(self).wf(),
            final(self)@ == old(self)@.insert(consensus_key, xpub),
    {
        match self.position(&consensus_key) {
            Some(i) => {
                proof {
                    lemma_to_map_update(self.records@, i as int, xpub);
                }
                self.records[i].1 = xpub;
                assert(self.records@ == old(self).records@.update(i as int, (consensus_key, xpub)));
            },
            None => {
                proof {
                    lemma_to_map_push(self.records@, consensus_key, xpub);
                    lemma_distinct_push(self.records@, consensus_key, xpub);
                }
                self.records.push((consensus_key, xpub));
            },
        }
    }
}

/// The members of the set built from the validators: each validator with a
/// registered key, in the validators' order, with its voting power.
pub open spec fn snapshot(validators: Seq<Validator>, keys: Map<ConsensusKey, Xpub>) -> Seq<Signatory>
    decreases validators.len(),
{
    if validators.len() == 0 {
        Seq::empty()
    } else {
        let rest = snapshot(validators.drop_last(), keys);
        let v = validators.last();
        if keys.contains_key(v.consensus_key) {
            rest.push(
                Signatory {
                    consensus_key: v.consensus_key,
                    pubkey: keys[v.consensus_key].fields().public_key,
                    voting_power: v.power,
                },
            )
        } else {
            rest
        }
    }
}

/// The sum of the members' voting power.
pub open spec fn total_power(signatories: Seq<Signatory>) -> nat
    decreases signatories.len(),
{
    if signatories.len() == 0 {
        0
    } else {
        total_power(signatories.drop_last()) + signatories.last().voting_power as nat
    }
}

/// The voting power that signatures must exceed in the script: two thirds of the total.
pub open spec fn script_threshold(total: nat) -> nat {
    total * 2 / 3
}

/// The `len` low bytes of `n`, least significant first.
pub open spec fn le_bytes(n: nat, len: nat) -> Seq<u8>
    decreases len,
{
    if len == 0 {
        Seq::empty()
    } else {
        seq![(n % 256) as u8] + le_bytes(n / 256, (len - 1) as nat)
    }
}

/// The script bytes that push a 64-bit number: the length 8, then the number's bytes.
pub open spec fn push_number(n: u64) -> Seq<u8> {
    seq![0x08u8] + le_bytes(n as nat, 8)
}

/// The script of one member. The first member's signature check leaves its
/// power or zero on the stack; each later one adds its power to the sum.
pub open spec fn member_script(s: Signatory, first: bool) -> Seq<u8> {
    if first {
        seq![0x21u8] + s.pubkey@ + seq![0xacu8, 0x63u8] + push_number(s.voting_power) + seq![
            0x67u8,
            0x00u8,
            0x68u8,
        ]
    } else {
        seq![0x7cu8, 0x21u8] + s.pubkey@ + seq![0xacu8, 0x63u8] + push_number(s.voting_power) + seq![
            0x93u8,
            0x68u8,
        ]
    }
}

/// The scripts of the members, one after the other.
pub open spec fn members_script(signatories: Seq<Signatory>) -> Seq<u8>
    decreases signatories.len(),
{
    if signatories.len() == 0 {
        Seq::empty()
    } else {
        members_script(signatories.drop_last()) + member_script(
            signatories.last(),
            signatories.len() == 1,
        )
    }
}

/// The part of the script that does not depend on the destination: the
/// members, then the comparison of the signed power with the threshold.
pub open spec fn script_head(signatories: Seq<Signatory>) -> Seq<u8> {
    members_script(signatories) + push_number(script_threshold(total_power(signatories)) as u64)
        + seq![0xa0u8]
}

/// The locking script of the set for a destination: the head, then the
/// destination pushed and dropped.
pub open spec fn script(signatories: Seq<Signatory>, dest: Seq<u8>) -> Seq<u8> {
    script_head(signatories) + seq![0x14u8] + dest + seq![0x75u8]
}

/// A snapshot of the signing authority: the validators with a registered key
/// and their voting power, with the time after which deposits to the set's
/// script are no longer honoured.
pub struct SignatorySet {
    signatories: Vec<Signatory>,
    total: u64,
    deposit_timeout: u64,
}

impl SignatorySet {
    /// The members, in order.
    pub closed spec fn members(&self) -> Seq<Signatory> {
        self.signatories@
    }

    /// The deposit timeout.
    pub closed spec fn timeout(&self) -> u64 {
        self.deposit_timeout
    }

    /// The recorded total is the sum of the members' voting power.
    pub closed spec fn wf(&self) -> bool {
        self.total == total_power(self.signatories@)
    }

    /// Builds the set from the validators and the registered keys. Validators
    /// without a registered key are left out. Refused when the total voting
    /// power of the members does not fit in 64 bits.
    pub fn from_validators(
        validators: &Vec<Validator>,
        registered_keys: &SignatoryKeys,
        deposit_timeout: u64,
    ) -> (r: Result<SignatorySet, Error>)
        requires
            registered_keys.wf(),
        ensures
            r is Err <==> total_power(snapshot(validators@, registered_keys@)) > u64::MAX,
            r matches Err(e) ==> e == Error::AmountOverflow,
            r matches Ok(s) ==> s.wf() && s.members() == snapshot(validators@, registered_keys@)
                && s.timeout() == deposit_timeout,
    {
        let mut signatories: Vec<Signatory> = Vec::new();
        let mut total: u64 = 0;
        let mut i: usize = 0;
        while i < validators.len()
            invariant
                i <= validators@.len(),
                registered_keys.wf(),
                signatories@ == snapshot(validators@.take(i as int), registered_keys@),
                total == total_power(signatories@),
            decreases validators@.len() - i,
        {
            let v = validators[i];
            proof {
                assert(validators@.take(i + 1).drop_last() =~= validators@.take(i as int));
                assert(validators@.take(i + 1).last() == v);
            }
            match registered_keys.get(v.consensus_key) {
                Some(xpub) => {
                    let member = Signatory {
                        consensus_key: v.consensus_key,
                        pubkey: xpub.deref().public_key,
                        voting_power: v.power,
                    };
                    proof {
                        assert(signatories@.push(member).drop_last() =~= signatories@);
                    }
                    if v.power > u64::MAX - total {
                        proof {
                            lemma_snapshot_power_grows(validators@, registered_keys@, i + 1);
                        }
                        return Err(Error::AmountOverflow);
                    }
                    total = total + v.power;
                    signatories.push(member);
                },
                None => {},
            }
            i += 1;
        }
        proof {
            assert(validators@.take(validators@.len() as int) =~= validators@);
        }
        Ok(SignatorySet { signatories, total, deposit_timeout })
    }

    /// The number of members.
    pub fn len(&self) -> (r: usize)
        ensures
            r == self.members().len(),
    {
        self.signatories.len()
    }

    /// The member at the index.
    pub fn get(&self, index: usize) -> (r: Option<Signatory>)
        ensures
            r == if index < self.members().len() {
                Some(self.members()[index as int])
            } else {
                None
            },
    {
        if index < self.signatories.len() {
            Some(self.signatories[index])
        } else {
            None
        }
    }

    /// The total voting power of the members.
    pub fn present_vp(&self) -> (r: u64)
        requires
            self.wf(),
        ensures
            r == total_power(self.members()),
    {
        self.total
    }

    /// The time after which deposits to this set's script are no longer honoured.
    pub fn deposit_timeout(&self) -> (r: u64)
        ensures
            r == self.timeout(),
    {
        self.deposit_timeout
    }

    /// The locking script of the set for the destination.
    pub fn output_script(&self, dest: &Address) -> (r: Vec<u8>)
        requires
            self.wf(),
        ensures
            r@ == script(self.members(), dest@),
    {
        let mut out: Vec<u8> = Vec::new();
        let mut i: usize = 0;
        while i < self.signatories.len()
            invariant
                i <= self.signatories@.len(),
                out@ == members_script(self.signatories@.take(i as int)),
            decreases self.signatories@.len() - i,
        {
            let s = self.signatories[i];
            let ghost before = out@;
            proof {
                assert(self.signatories@.take(i + 1).drop_last() =~= self.signatories@.take(i as int));
                assert(self.signatories@.take(i + 1).last() == s);
            }
            if i == 0 {
                out.push(0x21);
                extend(&mut out, &s.pubkey);
                out.push(0xac);
                out.push(0x63);
                push_number_to(&mut out, s.voting_power);
                out.push(0x67);
                out.push(0x00);
                out.push(0x68);
            } else {
                out.push(0x7c);
                out.push(0x21);
                extend(&mut out, &s.pubkey);
                out.push(0xac);
                out.push(0x63);
                push_number_to(&mut out, s.voting_power);
                out.push(0x93);
                out.push(0x68);
            }
            assert(out@ =~= before + member_script(s, i == 0));
            i += 1;
        }
        proof {
            assert(self.signatories@.take(self.signatories@.len() as int) =~= self.signatories@);
        }
        let ghost members = out@;
        let threshold = threshold_of(self.total);
        push_number_to(&mut out, threshold);
        out.push(0xa0);
        let ghost head = out@;
        assert(head =~= script_head(self.signatories@));
        out.push(0x14);
        extend(&mut out, dest);
        out.push(0x75);
        assert(out@ =~= script(self.signatories@, dest@));
        out
    }
}

/// Two thirds of the total, rounded down.
fn threshold_of(total: u64) -> (r: u64)
    ensures
        r == script_threshold(total as nat),
{
    let wide: u128 = total as u128 * 2 / 3;
    wide as u64
}

/// Appends the push of a 64-bit number to the script.
fn push_number_to(out: &mut Vec<u8>, n: u64)
    ensures
        final(out)@ == old(out)@ + push_number(n),
{
    out.push(0x08);
    let mut rest: u64 = n;
    let mut i: usize = 0;
    let ghost start = out@;
    let ghost mut written: Seq<u8> = Seq::empty();
    while i < 8
        invariant
            i <= 8,
            out@ == start + written,
            written.len() == i,
            le_bytes(n as nat, 8) == written + le_bytes(rest as nat, (8 - i) as nat),
        decreases 8 - i,
    {
        let b: u8 = (rest % 256) as u8;
        out.push(b);
        proof {
            let tail = le_bytes(rest as nat, (8 - i) as nat);
            assert(tail == seq![b] + le_bytes((rest / 256) as nat, (8 - i - 1) as nat));
            assert(written + tail =~= written.push(b) + le_bytes((rest / 256) as nat, (8 - i - 1) as nat));
            written = written.push(b);
            assert(out@ =~= start + written);
        }
        rest = rest / 256;
        i += 1;
    }
    proof {
        assert(le_bytes(rest as nat, 0) =~= Seq::<u8>::empty());
        assert(written + Seq::<u8>::empty() =~= written);
        assert(out@ =~= old(out)@ + push_number(n));
    }
}

/// The members built from the first `i` validators have no more voting power
/// than those built from all of them.
pub proof fn lemma_snapshot_power_grows(validators: Seq<Validator>, keys: Map<ConsensusKey, Xpub>, i: int)
    requires
        0 <= i <= validators.len(),
    ensures
        total_power(snapshot(validators.take(i), keys)) <= total_power(snapshot(validators, keys)),
    decreases validators.len() - i,
{
    if i == validators.len() {
        assert(validators.take(i) =~= validators);
    } else {
        lemma_snapshot_power_grows(validators, keys, i + 1);
        let longer = validators.take(i + 1);
        assert(longer.drop_last() =~= validators.take(i));
        let rest = snapshot(validators.take(i), keys);
        let v = longer.last();
        if keys.contains_key(v.consensus_key) {
            let member = Signatory {
                consensus_key: v.consensus_key,
                pubkey: keys[v.consensus_key].fields().public_key,
                voting_power: v.power,
            };
            assert(rest.push(member).drop_last() =~= rest);
        }
    }
}

/// The script of a set holds the destination at a fixed place.
pub proof fn lemma_script_holds_destination(signatories: Seq<Signatory>, dest: Seq<u8>)
    ensures
        script(signatories, dest).len() == script_head(signatories).len() + dest.len() + 2,
        script(signatories, dest).subrange(
            script_head(signatories).len() as int + 1,
            script_head(signatories).len() as int + 1 + dest.len() as int,
        ) == dest,
{
    let head = script_head(signatories);
    let s = script(signatories, dest);
    assert(s.subrange(head.len() as int + 1, head.len() as int + 1 + dest.len() as int) =~= dest);
}

/// Under one signatory set, two destinations with the same script are the
/// same destination: different destinations have different scripts.
pub proof fn lemma_script_injective(signatories: Seq<Signatory>, a: Seq<u8>, b: Seq<u8>)
    requires
        script(signatories, a) == script(signatories, b),
    ensures
        a == b,
{
    lemma_script_holds_destination(signatories, a);
    lemma_script_holds_destination(signatories, b);
    assert(a.len() == b.len());
}

} // verus!
