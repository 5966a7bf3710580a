//! What the peg reads and writes beside its own state: the balances of the
//! pegged token and the validators of the chain.

use vstd::prelude::*;
use crate::assoc::{distinct_keys, has_key, to_map, lemma_to_map_dom, lemma_to_map_at, lemma_to_map_push, lemma_to_map_update, lemma_distinct_push};
use crate::bitcoin::{Address, ConsensusKey};
use crate::bitcoin::signatory::Validator;
use crate::bytes::array_eq;
use crate::error::Error;

verus! {

/// The balance of the address: what the map holds for it, or nothing.
pub open spec fn balance_of(balances: Map<Address, u64>, address: Address) -> u64 {
    if balances.contains_key(address) {
        balances[address]
    } else {
        0
    }
}

/// The balances of the pegged token, by address.
pub struct Accounts {
    records: Vec<(Address, u64)>,
}

impl View for Accounts {
    type V = Map<Address, u64>;

    closed spec fn view(&self) -> Map<Address, u64> {
        to_map(self.records@)
    }
}

/// The place of the address among the records.
fn find_address<V>(records: &Vec<(Address, V)>, address: &Address) -> (r: Option<usize>)
    ensures
        match r {
            Some(i) => i < records@.len() && records@[i as int].0 == *address,
            None => !has_key(records@, *address),
        },
{
    let mut i: usize = 0;
    while i < records.len()
        invariant
            i <= records@.len(),
            forall|j: int| 0 <= j < i ==> records@[j].0 != *address,
        decreases records@.len() - i,
    {
        if array_eq(&records[i].0, address) {
            return Some(i);
        }
        i += 1;
    }
    None
}

impl Accounts {
    /// No address has two records.
    pub closed spec fn wf(&self) -> bool {
        distinct_keys(self.records@)
    }

    /// The ledger without any balance.
    pub fn new() -> (r: Accounts)
        ensures
            r.wf(),
            r@ == Map::<Address, u64>::empty(),
    {
        Accounts { records: Vec::new() }
    }

    /// The balance of the address.
    pub fn balance(&self, address: Address) -> (r: u64)
        requires
            self.wf(),
        ensures
            r == balance_of(self@, address),
    {
        proof {
            lemma_to_map_dom(self.records@, address);
        }
        match find_address(&self.records, &address) {
            Some(i) => {
                proof {
                    lemma_to_map_at(self.records@, i as int);
                }
                self.records[i].1
            },
            None => 0,
        }
    }

    /// Credits the address with the amount. Refused when the balance would
    /// no longer fit in 64 bits.
    pub fn deposit(&mut self, address: Address, amount: u64) -> (r: Result<(), Error>)
        requires
            old(self).wf(),
        ensures
            final(self).wf(),
            r is Err <==> balance_of(old(self)@, address) + amount > u64::MAX,
            r matches Err(e) ==> e == Error::AmountOverflow && final(self)@ == old(self)@,
            r is Ok ==> final(self)@ == old(self)@.insert(
                address,
                (balance_of(old(self)@, address) + amount) as u64,
            ),
    {
        proof {
            lemma_to_map_dom(self.records@, address);
        }
        match find_address(&self.records, &address) {
            Some(i) => {
                proof {
                    lemma_to_map_at(self.records@, i as int);
                }
                let balance = self.records[i].1;
                if amount > u64::MAX - balance {
                    return Err(Error::AmountOverflow);
                }
                proof {
                    lemma_to_map_update(self.records@, i as int, (balance + amount) as u64);
                }
                self.records[i].1 = balance + amount;
                assert(self.records@ == old(self).records@.update(
                    i as int,
                    (address, (balance + amount) as u64),
                ));
                Ok(())
            },
            None => {
                proof {
                    lemma_to_map_push(self.records@, address, amount);
                    lemma_distinct_push(self.records@, address, amount);
                }
                self.records.push((address, amount));
                Ok(())
            },
        }
    }
}

/// The validators of the chain: for each validator's address its consensus
/// key and its voting power.
pub struct Validators {
    records: Vec<(Address, Validator)>,
}

impl View for Validators {
    type V = Map<Address, Validator>;

    closed spec fn view(&self) -> Map<Address, Validator> {
        to_map(self.records@)
    }
}

impl Validators {
    /// No address has two records.
    pub closed spec fn wf(&self) -> bool {
        distinct_keys(self.records@)
    }

    /// The validators in the order in which they were first set.
    pub closed spec fn ordered(&self) -> Seq<Validator> {
        Seq::new(self.records@.len(), |i: int| self.records@[i].1)
    }

    /// No validators.
    pub fn new() -> (r: Validators)
        ensures
            r.wf(),
            r@ == Map::<Address, Validator>::empty(),
            r.ordered() == Seq::<Validator>::empty(),
    {
        let r = Validators { records: Vec::new() };
        assert(r.ordered() =~= Seq::<Validator>::empty());
        r
    }

    /// Sets the consensus key and the voting power of the validator at the address.
    pub fn set(&mut self, address: Address, consensus_key: ConsensusKey, power: u64)
        requires
            old(self).wf(),
        ensures
            final(self).wf(),
            final(self)@ == old(self)@.insert(address, Validator { consensus_key, power }),
            !old(self)@.contains_key(address) ==> final(self).ordered() == old(self).ordered().push(
                Validator { consensus_key, power },
            ),
            old(self)@.contains_key(address) ==> exists|i: int|
                0 <= i < old(self).ordered().len() && old(self).ordered()[i] == old(self)@[address]
                    && #[trigger] old(self).ordered().update(i, Validator { consensus_key, power })
                    == final(self).ordered(),
    {
        let validator = Validator { consensus_key, power };
        proof {
            lemma_to_map_dom(self.records@, address);
        }
        match find_address(&self.records, &address) {
            Some(i) => {
                proof {
                    lemma_to_map_at(self.records@, i as int);
                    lemma_to_map_update(self.records@, i as int, validator);
                }
                self.records[i].1 = validator;
                assert(self.records@ == old(self).records@.update(i as int, (address, validator)));
                assert(self.ordered() =~= old(self).ordered().update(i as int, validator));
            },
            None => {
                proof {
                    lemma_to_map_push(self.records@, address, validator);
                    lemma_distinct_push(self.records@, address, validator);
                }
                self.records.push((address, validator));
                assert(self.ordered() =~= old(self).ordered().push(validator));
            },
        }
    }

    /// The addresses in the order in which they were first set.
    pub closed spec fn addresses(&self) -> Seq<Address> {
        Seq::new(self.records@.len(), |i: int| self.records@[i].0)
    }

    /// The validators in order are those of the addresses in order, and
    /// every address with a validator is among them.
    pub proof fn lemma_ordered(&self)
        requires
            self.wf(),
        ensures
            self@.dom().finite(),
            self.ordered().len() == self@.dom().len(),
            self.addresses().len() == self.ordered().len(),
            forall|i: int|
                0 <= i < self.ordered().len() ==> self@.contains_key(#[trigger] self.addresses()[i])
                    && self@[self.addresses()[i]] == self.ordered()[i],
            forall|address: Address|
                self@.contains_key(address) ==> self.addresses().contains(address),
    {
        crate::assoc::lemma_to_map_len(self.records@);
        assert forall|i: int| 0 <= i < self.ordered().len() implies self@.contains_key(
            #[trigger] self.addresses()[i],
        ) && self@[self.addresses()[i]] == self.ordered()[i] by {
            lemma_to_map_at(self.records@, i);
        }
        assert forall|address: Address| self@.contains_key(address) implies self.addresses().contains(
            address,
        ) by {
            lemma_to_map_dom(self.records@, address);
            let j = choose|j: int| 0 <= j < self.records@.len() && #[trigger] self.records@[j].0 == address;
            assert(self.addresses()[j] == address);
        }
    }

    /// The consensus key of the validator at the address.
    pub fn consensus_key(&self, address: Address) -> (r: Option<ConsensusKey>)
        requires
            self.wf(),
        ensures
            r == if self@.contains_key(address) {
                Some(self@[address].consensus_key)
            } else {
                None
            },
    {
        proof {
            lemma_to_map_dom(self.records@, address);
        }
        match find_address(&self.records, &address) {
            Some(i) => {
                proof {
                    lemma_to_map_at(self.records@, i as int);
                }
                Some(self.records[i].1.consensus_key)
            },
            None => None,
        }
    }

    /// The voting power of the validator at the address, or none.
    pub fn voting_power(&self, address: Address) -> (r: u64)
        requires
            self.wf(),
        ensures
            r == if self@.contains_key(address) {
                self@[address].power
            } else {
                0
            },
    {
        proof {
            lemma_to_map_dom(self.records@, address);
        }
        match find_address(&self.records, &address) {
            Some(i) => {
                proof {
                    lemma_to_map_at(self.records@, i as int);
                }
                self.records[i].1.power
            },
            None => 0,
        }
    }

    /// The validators, in the order in which they were first set.
    pub fn list(&self) -> (r: Vec<Validator>)
        ensures
            r@ == self.ordered(),
    {
        let mut out: Vec<Validator> = Vec::new();
        let mut i: usize = 0;
        while i < self.records.len()
            invariant
                i <= self.records@.len(),
                out@.len() == i,
                forall|j: int| 0 <= j < i ==> out@[j] == self.records@[j].1,
            decreases self.records@.len() - i,
        {
            out.push(self.records[i].1);
            i += 1;
        }
        assert(out@ =~= self.ordered());
        out
    }
}

} // verus!
