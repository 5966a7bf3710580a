//! The ledger of credited outpoints.

use vstd::prelude::*;
use crate::assoc::{distinct_keys, has_key, to_map, lemma_to_map_dom, lemma_to_map_at, lemma_to_map_push, lemma_to_map_update, lemma_distinct_push, lemma_to_map_len};
use crate::bytes::array_eq;
use crate::error::Error;

verus! {

/// An output of a Bitcoin transaction: the transaction's id and the output's index.
pub type Outpoint = ([u8; 32], u32);

/// Whether the ledger refuses to record the outpoint at `now`: it holds a
/// record of it that has not expired.
pub open spec fn blocks_insert(ledger: Map<Outpoint, u64>, outpoint: Outpoint, now: u64) -> bool {
    ledger.contains_key(outpoint) && now <= ledger[outpoint]
}

/// The records that survive a pruning at `now`: those whose expiry has not passed.
pub open spec fn pruned(ledger: Map<Outpoint, u64>, now: u64) -> Map<Outpoint, u64> {
    Map::new(|o: Outpoint| ledger.contains_key(o) && ledger[o] >= now, |o: Outpoint| ledger[o])
}

/// The set of outpoints that were credited, each with the time at which its
/// record expires. A record blocks a second credit until `now` exceeds its expiry.
pub struct OutpointSet {
    records: Vec<(Outpoint, u64)>,
}

impl View for OutpointSet {
    type V = Map<Outpoint, u64>;

    closed spec fn view(&self) -> Map<Outpoint, u64> {
        to_map(self.records@)
    }
}

impl OutpointSet {
    /// No outpoint is recorded twice.
    pub closed spec fn wf(&self) -> bool {
        distinct_keys(self.records@)
    }

    /// The empty ledger.
    pub fn new() -> (r: OutpointSet)
        ensures
            r.wf(),
            r@ == Map::<Outpoint, u64>::empty(),
    {
        OutpointSet { records: Vec::new() }
    }

    fn position(&self, outpoint: &Outpoint) -> (r: Option<usize>)
        requires
            self.wf(),
        ensures
            match r {
                Some(i) => i < self.records@.len() && self.records@[i as int].0 == *outpoint,
                None => !has_key(self.records@, *outpoint),
            },
    {
        let mut i: usize = 0;
        while i < self.records.len()
            invariant
                i <= self.records@.len(),
                forall|j: int| 0 <= j < i ==> self.records@[j].0 != *outpoint,
            decreases self.records@.len() - i,
        {
            if self.records[i].0.1 == outpoint.1 && array_eq(&self.records[i].0.0, &outpoint.0) {
                return Some(i);
            }
            i += 1;
        }
        None
    }

    /// Whether the outpoint is recorded, expired or not.
    pub fn contains(&self, outpoint: Outpoint) -> (r: bool)
        requires
            self.wf(),
        ensures
            r == self@.contains_key(outpoint),
    {
        proof {
            lemma_to_map_dom(self.records@, outpoint);
        }
        self.position(&outpoint).is_some()
    }

    /// The expiry recorded for the outpoint.
    pub fn expiry(&self, outpoint: Outpoint) -> (r: Option<u64>)
        requires
            self.wf(),
        ensures
            r == if self@.contains_key(outpoint) { Some(self@[outpoint]) } else { None },
    {
        proof {
            lemma_to_map_dom(self.records@, outpoint);
        }
        match self.position(&outpoint) {
            Some(i) => {
                proof {
                    lemma_to_map_at(self.records@, i as int);
                }
                Some(self.records[i].1)
            },
            None => None,
        }
    }

    /// Whether a record of the outpoint stands in the way of crediting it at `now`.
    pub fn is_blocked(&self, outpoint: Outpoint, now: u64) -> (r: bool)
        requires
            self.wf(),
        ensures
            r == blocks_insert(self@, outpoint, now),
    {
        match self.expiry(outpoint) {
            Some(expiry) => now <= expiry,
            None => false,
        }
    }

    /// Records the outpoint with its expiry. Refused while an unexpired
    /// record of it exists; an expired record is overwritten.
    pub fn insert(&mut self, outpoint: Outpoint, expiry: u64, now: u64) -> (r: Result<(), Error>)
        requires
            old(self).wf(),
        ensures
            final(self).wf(),
            r is Err <==> blocks_insert(old(self)@, outpoint, now),
            r matches Err(e) ==> e == Error::DuplicateOutpoint && final(self)@ == old(self)@,
            r is Ok ==> final(self)@ == old(self)@.insert(outpoint, expiry),
    {
        proof {
            lemma_to_map_dom(self.records@, outpoint);
        }
        match self.position(&outpoint) {
            Some(i) => {
                proof {
                    lemma_to_map_at(self.records@, i as int);
                    lemma_to_map_update(self.records@, i as int, expiry);
                }
                if now <= self.records[i].1 {
                    return Err(Error::DuplicateOutpoint);
                }
                self.records[i].1 = expiry;
                assert(self.records@ == old(self).records@.update(i as int, (outpoint, expiry)));
                Ok(())
            },
            None => {
                proof {
                    lemma_to_map_push(self.records@, outpoint, expiry);
                    lemma_distinct_push(self.records@, outpoint, expiry);
                }
                self.records.push((outpoint, expiry));
                Ok(())
            },
        }
    }
}


impl OutpointSet {
    /// The number of records.
    pub fn len(&self) -> (r: usize)
        requires
            self.wf(),
        ensures
            r == self@.dom().len(),
            self@.dom().finite(),
    {
        proof {
            lemma_to_map_len(self.records@);
        }
        self.records.len()
    }

    /// Drops every record whose expiry lies before `now`.
    pub fn prune(&mut self, now: u64)
        requires
            old(self).wf(),
        ensures
            final(self).wf(),
            final(self)@ == pruned(old(self)@, now),
    {
        let mut kept: Vec<(Outpoint, u64)> = Vec::new();
        let mut i: usize = 0;
        while i < self.records.len()
            invariant
                i <= self.records@.len(),
                distinct_keys(self.records@),
                distinct_keys(kept@),
                forall|a: int| #![trigger kept@[a]] 0 <= a < kept@.len() ==> exists|j: int| 0 <= j < i && #[trigger] self.records@[j] == kept@[a],
                forall|j: int| #![trigger self.records@[j]] 0 <= j < i && self.records@[j].1 >= now ==> exists|a: int| 0 <= a < kept@.len() && #[trigger] kept@[a] == self.records@[j],
                forall|a: int| 0 <= a < kept@.len() ==> (#[trigger] kept@[a]).1 >= now,
            decreases self.records@.len() - i,
        {
            let record = self.records[i];
            if record.1 >= now {
                proof {
                    let ghost before = kept@;
                    assert(!has_key(before, record.0)) by {
                        if has_key(before, record.0) {
                            let a = choose|a: int| 0 <= a < before.len() && #[trigger] before[a].0 == record.0;
                            let j = choose|j: int| 0 <= j < i && #[trigger] self.records@[j] == before[a];
                            assert(self.records@[j].0 != self.records@[i as int].0);
                        }
                    }
                    lemma_distinct_push(before, record.0, record.1);
                }
                let ghost before = kept@;
                kept.push(record);
                proof {
                    assert forall|a: int| #![trigger kept@[a]] 0 <= a < kept@.len() implies exists|j: int| 0 <= j < i + 1 && #[trigger] self.records@[j] == kept@[a] by {
                        if a < before.len() {
                            let j = choose|j: int| 0 <= j < i && #[trigger] self.records@[j] == before[a];
                            assert(self.records@[j] == kept@[a]);
                        } else {
                            assert(self.records@[i as int] == kept@[a]);
                        }
                    }
                    assert forall|j: int| #![trigger self.records@[j]] 0 <= j < i + 1 && self.records@[j].1 >= now implies exists|a: int| 0 <= a < kept@.len() && #[trigger] kept@[a] == self.records@[j] by {
                        if j < i {
                            let a = choose|a: int| 0 <= a < before.len() && #[trigger] before[a] == self.records@[j];
                            assert(kept@[a] == self.records@[j]);
                        } else {
                            assert(kept@[before.len() as int] == self.records@[j]);
                        }
                    }
                }
            }
            i += 1;
        }
        proof {
            let old_map = to_map(self.records@);
            let new_map = to_map(kept@);
            assert forall|o: Outpoint| new_map.contains_key(o) <==> (old_map.contains_key(o) && old_map[o] >= now) by {
                lemma_to_map_dom(kept@, o);
                lemma_to_map_dom(self.records@, o);
                if has_key(kept@, o) {
                    let a = choose|a: int| 0 <= a < kept@.len() && #[trigger] kept@[a].0 == o;
                    let j = choose|j: int| 0 <= j < i && #[trigger] self.records@[j] == kept@[a];
                    lemma_to_map_at(self.records@, j);
                }
                if has_key(self.records@, o) {
                    let j = choose|j: int| 0 <= j < self.records@.len() && #[trigger] self.records@[j].0 == o;
                    lemma_to_map_at(self.records@, j);
                    if self.records@[j].1 >= now {
                        let a = choose|a: int| 0 <= a < kept@.len() && #[trigger] kept@[a] == self.records@[j];
                        assert(kept@[a].0 == o);
                    }
                }
            }
            assert forall|o: Outpoint| new_map.contains_key(o) implies new_map[o] == old_map[o] by {
                lemma_to_map_dom(kept@, o);
                let a = choose|a: int| 0 <= a < kept@.len() && #[trigger] kept@[a].0 == o;
                let j = choose|j: int| 0 <= j < i && #[trigger] self.records@[j] == kept@[a];
                lemma_to_map_at(self.records@, j);
                lemma_to_map_at(kept@, a);
            }
            assert(new_map =~= pruned(old_map, now));
        }
        self.records = kept;
    }
}

/// A second credit of an outpoint is refused as long as the record of the
/// first has not expired, and accepted once `now` exceeds that expiry.
pub proof fn lemma_insert_blocks_until_expiry(
    ledger: Map<Outpoint, u64>,
    outpoint: Outpoint,
    expiry: u64,
    now: u64,
)
    ensures
        now <= expiry ==> blocks_insert(ledger.insert(outpoint, expiry), outpoint, now),
        now > expiry ==> !blocks_insert(ledger.insert(outpoint, expiry), outpoint, now),
{
}

/// Pruning removes no record that still blocks a credit.
pub proof fn lemma_prune_keeps_unexpired(ledger: Map<Outpoint, u64>, outpoint: Outpoint, now: u64)
    ensures
        blocks_insert(pruned(ledger, now), outpoint, now) == blocks_insert(ledger, outpoint, now),
{
}

} // verus!
