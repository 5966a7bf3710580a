//! Airdrop accounts: per-address balances split into parts that unlock and are claimed.

use vstd::prelude::*;
use crate::assoc::{distinct_keys, has_key, to_map, lemma_to_map_dom, lemma_to_map_at, lemma_to_map_push, lemma_to_map_update, lemma_distinct_push};
use crate::bitcoin::Address;
use crate::bytes::array_eq;
use crate::allotment::{allot, allotment_error, allotments, allotments_sum, applied};
use crate::error::Error;
use crate::snapshot::{Recipient, address_of, csv_records, parse_address, parse_u64, parsed_u64, read_recipients, read_records, recipients_of, recipients_view, row_view, rows_view};

verus! {

/// The highest stake that counts towards a score.
pub const MAX_STAKED: u64 = 1_000_000_000;

/// The amount that the second airdrop hands out over all networks.
pub const AIRDROP_II_TOTAL: u64 = 3_500_000_000_000;

/// One claimable balance of an airdrop account.
#[derive(Clone, Copy, Debug, PartialEq, Eq, Structural)]
pub struct Part {
    pub locked: u64,
    pub claimable: u64,
    pub claimed: u64,
}

/// The airdrop balances of one address.
#[derive(Clone, Copy, Debug, PartialEq, Eq, Structural)]
pub struct Account {
    pub airdrop1: Part,
    pub btc_deposit: Part,
    pub btc_withdraw: Part,
    pub ibc_transfer: Part,
}

/// The part of an account that a claim is made on.
#[derive(Clone, Copy, Debug, PartialEq, Eq, Structural)]
pub enum Claim {
    Airdrop1,
    BtcDeposit,
    BtcWithdraw,
    IbcTransfer,
}

/// What a call pays into: the amounts given to it so far.
#[derive(Clone, Copy, Debug, PartialEq, Eq, Structural)]
pub struct Paid {
    /// The sum of the amounts given.
    pub given: u64,
}

impl Part {
    /// A part with nothing in it.
    pub open spec fn empty() -> Part {
        Part { locked: 0, claimable: 0, claimed: 0 }
    }

    /// The part after its claimable amount was claimed.
    pub open spec fn after_claim(self) -> Part {
        Part { locked: self.locked, claimable: 0, claimed: (self.claimed + self.claimable) as u64 }
    }

    /// Moves the whole locked amount to the claimable amount.
    pub fn unlock(&mut self)
        requires
            old(self).claimable + old(self).locked <= u64::MAX,
        ensures
            final(self).claimable == old(self).claimable + old(self).locked,
            final(self).locked == 0,
            final(self).claimed == old(self).claimed,
    {
        self.claimable = self.claimable + self.locked;
        self.locked = 0;
    }

    /// Claims the claimable amount and returns it. Refused with `NoBalance`
    /// when nothing is claimable.
    pub fn claim(&mut self) -> (r: Result<u64, Error>)
        requires
            old(self).claimed + old(self).claimable <= u64::MAX,
        ensures
            match r {
                Ok(amount) => old(self).claimable != 0 && amount == old(self).claimable && *final(self)
                    == old(self).after_claim(),
                Err(e) => old(self).claimable == 0 && e == Error::NoBalance && *final(self) == *old(self),
            },
    {
        let amount = self.claimable;
        if amount == 0 {
            return Err(Error::NoBalance);
        }
        self.claimed = self.claimed + amount;
        self.claimable = 0;
        Ok(amount)
    }
}

impl Default for Part {
    fn default() -> (r: Part)
        ensures
            r == Part::empty(),
    {
        Part { locked: 0, claimable: 0, claimed: 0 }
    }
}

impl Account {
    /// An account with nothing in it.
    pub open spec fn empty() -> Account {
        Account {
            airdrop1: Part::empty(),
            btc_deposit: Part::empty(),
            btc_withdraw: Part::empty(),
            ibc_transfer: Part::empty(),
        }
    }

    /// The part that the claim is made on.
    pub open spec fn part(self, claim: Claim) -> Part {
        match claim {
            Claim::Airdrop1 => self.airdrop1,
            Claim::BtcDeposit => self.btc_deposit,
            Claim::BtcWithdraw => self.btc_withdraw,
            Claim::IbcTransfer => self.ibc_transfer,
        }
    }

    /// The account with the part replaced.
    pub open spec fn with_part(self, claim: Claim, part: Part) -> Account {
        match claim {
            Claim::Airdrop1 => Account { airdrop1: part, ..self },
            Claim::BtcDeposit => Account { btc_deposit: part, ..self },
            Claim::BtcWithdraw => Account { btc_withdraw: part, ..self },
            Claim::IbcTransfer => Account { ibc_transfer: part, ..self },
        }
    }

    /// The account with a third of the amount locked in each of the three
    /// parts that unlock by use of the chain.
    pub open spec fn with_airdrop(self, unom: u64) -> Account {
        Account {
            btc_deposit: Part { locked: unom / 3, ..self.btc_deposit },
            btc_withdraw: Part { locked: unom / 3, ..self.btc_withdraw },
            ibc_transfer: Part { locked: unom / 3, ..self.ibc_transfer },
            ..self
        }
    }

    /// The part that the claim is made on.
    pub fn get_part(&self, claim: Claim) -> (r: Part)
        ensures
            r == self.part(claim),
    {
        match claim {
            Claim::Airdrop1 => self.airdrop1,
            Claim::BtcDeposit => self.btc_deposit,
            Claim::BtcWithdraw => self.btc_withdraw,
            Claim::IbcTransfer => self.ibc_transfer,
        }
    }

    /// Replaces the part that the claim is made on.
    pub fn set_part(&mut self, claim: Claim, part: Part)
        ensures
            *final(self) == old(self).with_part(claim, part),
    {
        match claim {
            Claim::Airdrop1 => {
                self.airdrop1 = part;
            },
            Claim::BtcDeposit => {
                self.btc_deposit = part;
            },
            Claim::BtcWithdraw => {
                self.btc_withdraw = part;
            },
            Claim::IbcTransfer => {
                self.ibc_transfer = part;
            },
        }
    }
}

impl Default for Account {
    fn default() -> (r: Account)
        ensures
            r == Account::empty(),
    {
        let part = Part { locked: 0, claimable: 0, claimed: 0 };
        Account { airdrop1: part, btc_deposit: part, btc_withdraw: part, ibc_transfer: part }
    }
}

impl Paid {
    /// Gives the amount. Refused when the sum would no longer fit in 64 bits.
    pub fn give(&mut self, amount: u64) -> (r: Result<(), Error>)
        ensures
            r is Err <==> old(self).given + amount > u64::MAX,
            r matches Err(e) ==> e == Error::AmountOverflow && *final(self) == *old(self),
            r is Ok ==> final(self).given == old(self).given + amount,
    {
        if amount > u64::MAX - self.given {
            return Err(Error::AmountOverflow);
        }
        self.given = self.given + amount;
        Ok(())
    }
}

/// The score of a stake: the stake, capped.
pub open spec fn score_of(staked: u64) -> u64 {
    if staked <= MAX_STAKED {
        staked
    } else {
        MAX_STAKED
    }
}

/// The quotient of `n` by `d`, rounded to the nearest whole number, a tie to
/// the even one.
pub open spec fn rounded_quotient(n: nat, d: nat) -> nat {
    let q = n / d;
    let r = n % d;
    if 2 * r > d || (2 * r == d && q % 2 == 1) {
        q + 1
    } else {
        q
    }
}

/// The amount of the first airdrop for the balances of an address: the
/// liquid balance and four times the staked balance, each capped, divided by
/// 20.299325.
pub open spec fn airdrop1_amount(liquid: u64, staked: u64) -> nat {
    rounded_quotient(
        ((score_of(liquid) + score_of(staked) * 4) * 1_000_000) as nat,
        20_299_325,
    )
}

/// Why a claim is refused, if it is.
pub open spec fn claim_error(
    accounts: Map<Address, Account>,
    signer: Option<Address>,
    paid: Option<Paid>,
    claim: Claim,
) -> Option<Error> {
    match signer {
        None => Some(Error::Unauthorized),
        Some(address) => if !accounts.contains_key(address) {
            Some(Error::NoAccount)
        } else if accounts[address].part(claim).claimable == 0 {
            Some(Error::NoBalance)
        } else {
            match paid {
                None => Some(Error::NoPaidContext),
                Some(p) => if accounts[address].part(claim).claimed + accounts[address].part(
                    claim,
                ).claimable > u64::MAX || p.given + accounts[address].part(claim).claimable
                    > u64::MAX {
                    Some(Error::AmountOverflow)
                } else {
                    None
                },
            }
        },
    }
}

/// The airdrop accounts, by address.
pub struct Airdrop {
    accounts: Vec<(Address, Account)>,
}

impl View for Airdrop {
    type V = Map<Address, Account>;

    closed spec fn view(&self) -> Map<Address, Account> {
        to_map(self.accounts@)
    }
}

impl Airdrop {
    /// No address has two accounts.
    pub closed spec fn wf(&self) -> bool {
        distinct_keys(self.accounts@)
    }

    /// No accounts.
    pub fn new() -> (r: Airdrop)
        ensures
            r.wf(),
            r@ == Map::<Address, Account>::empty(),
    {
        Airdrop { accounts: Vec::new() }
    }

    fn position(&self, address: &Address) -> (r: Option<usize>)
        ensures
            match r {
                Some(i) => i < self.accounts@.len() && self.accounts@[i as int].0 == *address,
                None => !has_key(self.accounts@, *address),
            },
    {
        let mut i: usize = 0;
        while i < self.accounts.len()
            invariant
                i <= self.accounts@.len(),
                forall|j: int| 0 <= j < i ==> self.accounts@[j].0 != *address,
            decreases self.accounts@.len() - i,
        {
            if array_eq(&self.accounts[i].0, address) {
                return Some(i);
            }
            i += 1;
        }
        None
    }

    /// The account of the address.
    pub fn get(&self, address: Address) -> (r: Option<Account>)
        requires
            self.wf(),
        ensures
            r == if self@.contains_key(address) {
                Some(self@[address])
            } else {
                None
            },
    {
        proof {
            lemma_to_map_dom(self.accounts@, address);
        }
        match self.position(&address) {
            Some(i) => {
                proof {
                    lemma_to_map_at(self.accounts@, i as int);
                }
                Some(self.accounts[i].1)
            },
            None => None,
        }
    }

    /// The account of the address, to change it.
    pub fn get_mut(&mut self, address: Address) -> (r: Option<&mut Account>)
        requires
            old(self).wf(),
        ensures
            r is Some <==> old(self)@.contains_key(address),
            r is None ==> *final(self) == *old(self),
            r matches Some(account) ==> *account == old(self)@[address] && final(self).wf() && final(self)@ == old(self)@.insert(address, *final(account)),
    {
        proof {
            lemma_to_map_dom(self.accounts@, address);
        }
        match self.position(&address) {
            Some(i) => {
                proof {
                    lemma_to_map_at(self.accounts@, i as int);
                    assert forall|v: Account| #![auto]
                        to_map(self.accounts@.update(i as int, (address, v))) == to_map(
                            self.accounts@,
                        ).insert(address, v) && distinct_keys(
                            self.accounts@.update(i as int, (address, v)),
                        ) by {
                        lemma_to_map_update(self.accounts@, i as int, v);
                    }
                }
                Some(&mut self.accounts[i].1)
            },
            None => None,
        }
    }

    /// The account of the signer, to change it. Refused with `Unauthorized`
    /// for a call without a signer and with `NoAccount` for a signer without
    /// an account.
    pub fn signer_acct_mut(&mut self, signer: Option<Address>) -> (r: Result<&mut Account, Error>)
        requires
            old(self).wf(),
        ensures
            match r {
                Ok(account) => signer matches Some(address) && old(self)@.contains_key(address)
                    && *account == old(self)@[address] && final(self).wf() && final(self)@ == old(self)@.insert(address, *final(account)),
                Err(e) => *final(self) == *old(self) && match signer {
                    None => e == Error::Unauthorized,
                    Some(address) => e == Error::NoAccount && !old(self)@.contains_key(address),
                },
            },
    {
        let address = match signer {
            Some(address) => address,
            None => {
                return Err(Error::Unauthorized);
            },
        };
        match self.get_mut(address) {
            Some(account) => Ok(account),
            None => Err(Error::NoAccount),
        }
    }

    /// Replaces the account of the address, or adds it.
    fn put(&mut self, address: Address, account: Account)
        requires
            old(self).wf(),
        ensures
            final(self).wf(),
            final(self)@ == old(self)@.insert(address, account),
    {
        match self.position(&address) {
            Some(i) => {
                proof {
                    lemma_to_map_update(self.accounts@, i as int, account);
                }
                self.accounts[i].1 = account;
                assert(self.accounts@ == old(self).accounts@.update(i as int, (address, account)));
            },
            None => {
                proof {
                    lemma_to_map_push(self.accounts@, address, account);
                    lemma_distinct_push(self.accounts@, address, account);
                }
                self.accounts.push((address, account));
            },
        }
    }

    /// Gives the amount to what the call pays into. Refused with
    /// `NoPaidContext` for a call that pays into nothing.
    pub fn pay_as_funding(paid: Option<&mut Paid>, amount: u64) -> (r: Result<(), Error>)
        ensures
            match paid {
                None => r == Err::<(), Error>(Error::NoPaidContext),
                Some(p) => {
                    &&& r is Err <==> p.given + amount > u64::MAX
                    &&& r matches Err(e) ==> e == Error::AmountOverflow && *final(p) == *p
                    &&& r is Ok ==> final(p).given == p.given + amount
                },
            },
    {
        match paid {
            Some(p) => p.give(amount),
            None => Err(Error::NoPaidContext),
        }
    }

    /// Claims the claimable amount of one part of the signer's account and
    /// gives it to what the call pays into. A refusal changes nothing.
    pub fn claim(&mut self, signer: Option<Address>, paid: Option<&mut Paid>, claim: Claim) -> (r: Result<
        (),
        Error,
    >)
        requires
            old(self).wf(),
        ensures
            final(self).wf(),
            match claim_error(
                old(self)@,
                signer,
                match paid {
                    Some(p) => Some(*p),
                    None => None,
                },
                claim,
            ) {
                Some(e) => r == Err::<(), Error>(e) && final(self)@ == old(self)@ && (paid matches Some(p) ==> *final(p) == *p),
                None => r is Ok && (signer matches Some(address) && paid matches Some(p) && final(self)@ == old(self)@.insert(
                    address,
                    old(self)@[address].with_part(claim, old(self)@[address].part(claim).after_claim()),
                ) && final(p).given == p.given + old(self)@[address].part(claim).claimable),
            },
    {
        let address = match signer {
            Some(address) => address,
            None => {
                return Err(Error::Unauthorized);
            },
        };
        let mut account = match self.get(address) {
            Some(account) => account,
            None => {
                return Err(Error::NoAccount);
            },
        };
        let mut part = account.get_part(claim);
        if part.claimable == 0 {
            return Err(Error::NoBalance);
        }
        let p = match paid {
            Some(p) => p,
            None => {
                return Err(Error::NoPaidContext);
            },
        };
        if part.claimable > u64::MAX - part.claimed || part.claimable > u64::MAX - p.given {
            return Err(Error::AmountOverflow);
        }
        let claimed = part.claim();
        let amount = claimed.unwrap();
        let given = p.give(amount);
        assert(given is Ok);
        account.set_part(claim, part);
        self.put(address, account);
        Ok(())
    }

    /// Claims the signer's first airdrop.
    pub fn claim_airdrop1(&mut self, signer: Option<Address>, paid: Option<&mut Paid>) -> (r: Result<
        (),
        Error,
    >)
        requires
            old(self).wf(),
        ensures
            final(self).wf(),
            match claim_error(
                old(self)@,
                signer,
                match paid {
                    Some(p) => Some(*p),
                    None => None,
                },
                Claim::Airdrop1,
            ) {
                Some(e) => r == Err::<(), Error>(e) && final(self)@ == old(self)@ && (paid matches Some(p) ==> *final(p) == *p),
                None => r is Ok && (signer matches Some(address) && paid matches Some(p) && final(self)@ == old(self)@.insert(
                    address,
                    old(self)@[address].with_part(
                        Claim::Airdrop1,
                        old(self)@[address].airdrop1.after_claim(),
                    ),
                ) && final(p).given == p.given + old(self)@[address].airdrop1.claimable),
            },
    {
        self.claim(signer, paid, Claim::Airdrop1)
    }

    /// Claims what the signer's Bitcoin deposit unlocked.
    pub fn claim_btc_deposit(&mut self, signer: Option<Address>, paid: Option<&mut Paid>) -> (r: Result<
        (),
        Error,
    >)
        requires
            old(self).wf(),
        ensures
            final(self).wf(),
            match claim_error(
                old(self)@,
                signer,
                match paid {
                    Some(p) => Some(*p),
                    None => None,
                },
                Claim::BtcDeposit,
            ) {
                Some(e) => r == Err::<(), Error>(e) && final(self)@ == old(self)@ && (paid matches Some(p) ==> *final(p) == *p),
                None => r is Ok && (signer matches Some(address) && paid matches Some(p) && final(self)@ == old(self)@.insert(
                    address,
                    old(self)@[address].with_part(
                        Claim::BtcDeposit,
                        old(self)@[address].btc_deposit.after_claim(),
                    ),
                ) && final(p).given == p.given + old(self)@[address].btc_deposit.claimable),
            },
    {
        self.claim(signer, paid, Claim::BtcDeposit)
    }

    /// Claims what the signer's Bitcoin withdrawal unlocked.
    pub fn claim_btc_withdraw(&mut self, signer: Option<Address>, paid: Option<&mut Paid>) -> (r: Result<
        (),
        Error,
    >)
        requires
            old(self).wf(),
        ensures
            final(self).wf(),
            match claim_error(
                old(self)@,
                signer,
                match paid {
                    Some(p) => Some(*p),
                    None => None,
                },
                Claim::BtcWithdraw,
            ) {
                Some(e) => r == Err::<(), Error>(e) && final(self)@ == old(self)@ && (paid matches Some(p) ==> *final(p) == *p),
                None => r is Ok && (signer matches Some(address) && paid matches Some(p) && final(self)@ == old(self)@.insert(
                    address,
                    old(self)@[address].with_part(
                        Claim::BtcWithdraw,
                        old(self)@[address].btc_withdraw.after_claim(),
                    ),
                ) && final(p).given == p.given + old(self)@[address].btc_withdraw.claimable),
            },
    {
        self.claim(signer, paid, Claim::BtcWithdraw)
    }

    /// Claims what the signer's transfer between chains unlocked.
    pub fn claim_ibc_transfer(&mut self, signer: Option<Address>, paid: Option<&mut Paid>) -> (r: Result<
        (),
        Error,
    >)
        requires
            old(self).wf(),
        ensures
            final(self).wf(),
            match claim_error(
                old(self)@,
                signer,
                match paid {
                    Some(p) => Some(*p),
                    None => None,
                },
                Claim::IbcTransfer,
            ) {
                Some(e) => r == Err::<(), Error>(e) && final(self)@ == old(self)@ && (paid matches Some(p) ==> *final(p) == *p),
                None => r is Ok && (signer matches Some(address) && paid matches Some(p) && final(self)@ == old(self)@.insert(
                    address,
                    old(self)@[address].with_part(
                        Claim::IbcTransfer,
                        old(self)@[address].ibc_transfer.after_claim(),
                    ),
                ) && final(p).given == p.given + old(self)@[address].ibc_transfer.claimable),
            },
    {
        self.claim(signer, paid, Claim::IbcTransfer)
    }

    /// The account of the address, or an empty one.
    pub open spec fn account_or_empty(accounts: Map<Address, Account>, address: Address) -> Account {
        if accounts.contains_key(address) {
            accounts[address]
        } else {
            Account::empty()
        }
    }

    /// Locks a third of the amount in each of the three parts of the
    /// address's account that unlock by use of the chain. An address without
    /// an account gets one.
    pub fn airdrop_to(&mut self, addr: Address, unom: u64)
        requires
            old(self).wf(),
        ensures
            final(self).wf(),
            final(self)@ == old(self)@.insert(
                addr,
                Self::account_or_empty(old(self)@, addr).with_airdrop(unom),
            ),
    {
        let mut account = match self.get(addr) {
            Some(account) => account,
            None => Account::default(),
        };
        account.btc_deposit.locked = unom / 3;
        account.btc_withdraw.locked = unom / 3;
        account.ibc_transfer.locked = unom / 3;
        self.put(addr, account);
    }

    /// The score of a stake: the stake, capped. The count does not change it.
    pub fn score(staked: u64, _count: u64) -> (r: u64)
        ensures
            r == score_of(staked),
    {
        if staked <= MAX_STAKED {
            staked
        } else {
            MAX_STAKED
        }
    }

    /// Sets the claimable amount of the first airdrop for the address from
    /// its liquid and its staked balance, and returns it.
    pub fn init_airdrop1_amount(&mut self, addr: Address, liquid: u64, staked: u64) -> (r: u64)
        requires
            old(self).wf(),
        ensures
            final(self).wf(),
            r == airdrop1_amount(liquid, staked),
            final(self)@ == old(self)@.insert(
                addr,
                Account {
                    airdrop1: Part { claimable: r, ..Self::account_or_empty(old(self)@, addr).airdrop1 },
                    ..Self::account_or_empty(old(self)@, addr)
                },
            ),
    {
        let amount = airdrop1_units(liquid, staked);
        let mut account = match self.get(addr) {
            Some(account) => account,
            None => Account::default(),
        };
        account.airdrop1.claimable = amount;
        self.put(addr, account);
        amount
    }
}

/// The amount of the first airdrop for the balances of an address.
pub fn airdrop1_units(liquid: u64, staked: u64) -> (r: u64)
    ensures
        r == airdrop1_amount(liquid, staked),
{
    let liquid_capped = Airdrop::score(liquid, 0);
    let staked_capped = Airdrop::score(staked, 0);
    let units: u64 = liquid_capped + staked_capped * 4;
    let n: u64 = units * 1_000_000;
    let d: u64 = 20_299_325;
    let q = n / d;
    let rest = n % d;
    if 2 * rest > d || (2 * rest == d && q % 2 == 1) {
        q + 1
    } else {
        q
    }
}

/// The balances of an address in the first snapshot: the address, the liquid
/// balance and the staked balance.
pub type Balances = (Address, u64, u64);

/// What a record of the first snapshot holds: an address in its first field
/// and the liquid and the staked balance in the next two.
pub open spec fn balances_row(row: Seq<Seq<u8>>) -> Option<Balances> {
    if row.len() < 3 {
        None
    } else {
        match (address_of(row[0]), parsed_u64(row[1]), parsed_u64(row[2])) {
            (Some(address), Some(liquid), Some(staked)) => Some((address, liquid, staked)),
            _ => None,
        }
    }
}

/// The balances that the records hold, if each record holds some.
pub open spec fn balances_of(rows: Seq<Seq<Seq<u8>>>) -> Option<Seq<Balances>> {
    if forall|i: int| 0 <= i < rows.len() ==> balances_row(#[trigger] rows[i]) is Some {
        Some(Seq::new(rows.len(), |i: int| balances_row(rows[i]).unwrap()))
    } else {
        None
    }
}

/// The sum of the amounts of the first airdrop for the first `n` balances.
pub open spec fn minted(balances: Seq<Balances>, n: int) -> nat
    decreases n,
{
    if n <= 0 {
        0
    } else {
        minted(balances, n - 1) + airdrop1_amount(balances[n - 1].1, balances[n - 1].2)
    }
}

/// The accounts after each address got the claimable amount of the first
/// airdrop for its balances, in order.
pub open spec fn initialized(accounts: Map<Address, Account>, balances: Seq<Balances>) -> Map<
    Address,
    Account,
>
    decreases balances.len(),
{
    if balances.len() == 0 {
        accounts
    } else {
        let before = initialized(accounts, balances.drop_last());
        let account = Airdrop::account_or_empty(before, balances.last().0);
        before.insert(
            balances.last().0,
            Account {
                airdrop1: Part {
                    claimable: airdrop1_amount(balances.last().1, balances.last().2) as u64,
                    ..account.airdrop1
                },
                ..account
            },
        )
    }
}

/// Sums over more balances are not smaller.
pub proof fn lemma_minted_grows(balances: Seq<Balances>, k: int, n: int)
    requires
        0 <= k <= n,
    ensures
        minted(balances, k) <= minted(balances, n),
    decreases n - k,
{
    if k < n {
        lemma_minted_grows(balances, k, n - 1);
    }
}

/// The balances of the first snapshot that the table holds. Refused with
/// `BadSnapshot` when the table is not well formed, or when a record holds no
/// valid address or a balance that is no number.
pub fn read_balances(data: &[u8]) -> (r: Result<Vec<Balances>, Error>)
    ensures
        match r {
            Ok(balances) => csv_records(data@) matches Some(rows) && balances_of(rows) == Some(
                balances@,
            ),
            Err(e) => e == Error::BadSnapshot && (csv_records(data@) matches Some(rows)
                ==> balances_of(rows) is None),
        },
{
    let rows = match read_records(data) {
        Some(rows) => rows,
        None => {
            return Err(Error::BadSnapshot);
        },
    };
    let ghost all = rows_view(rows@);
    let mut balances: Vec<Balances> = Vec::new();
    let mut i: usize = 0;
    while i < rows.len()
        invariant
            i <= rows@.len(),
            all == rows_view(rows@),
            csv_records(data@) == Some(all),
            balances@.len() == i,
            forall|j: int| 0 <= j < i ==> balances_row(#[trigger] all[j]) == Some(balances@[j]),
        decreases rows@.len() - i,
    {
        let row = &rows[i];
        assert(all[i as int] =~= row_view(row@));
        if row.len() < 3 {
            assert(balances_row(all[i as int]) is None);
            return Err(Error::BadSnapshot);
        }
        let address = parse_address(row[0].as_slice());
        let liquid = parse_u64(row[1].as_slice());
        let staked = parse_u64(row[2].as_slice());
        match (address, liquid, staked) {
            (Some(address), Some(liquid), Some(staked)) => {
                balances.push((address, liquid, staked));
            },
            _ => {
                assert(balances_row(all[i as int]) is None);
                return Err(Error::BadSnapshot);
            },
        }
        i += 1;
    }
    assert(balances@ =~= Seq::new(all.len(), |i: int| balances_row(all[i]).unwrap()));
    Ok(balances)
}

impl Airdrop {
    /// The recipients of the second airdrop that the table holds.
    pub fn get_recipients_from_csv(data: &[u8]) -> (r: Result<Vec<Recipient>, Error>)
        ensures
            match r {
                Ok(recipients) => csv_records(data@) matches Some(rows) && recipients_of(rows) == Some(
                    recipients_view(recipients@),
                ),
                Err(e) => e == Error::BadSnapshot && (csv_records(data@) matches Some(rows)
                    ==> recipients_of(rows) is None),
            },
    {
        read_recipients(data)
    }

    fn apply_allotments(&mut self, amounts: &Vec<(Address, u64)>)
        requires
            old(self).wf(),
        ensures
            final(self).wf(),
            final(self)@ == applied(old(self)@, amounts@),
    {
        let mut i: usize = 0;
        assert(amounts@.take(0) =~= Seq::<(Address, u64)>::empty());
        while i < amounts.len()
            invariant
                i <= amounts@.len(),
                self.wf(),
                self@ == applied(old(self)@, amounts@.take(i as int)),
            decreases amounts@.len() - i,
        {
            proof {
                assert(amounts@.take(i + 1).drop_last() =~= amounts@.take(i as int));
                assert(amounts@.take(i + 1).last() == amounts@[i as int]);
            }
            self.airdrop_to(amounts[i].0, amounts[i].1);
            i += 1;
        }
        assert(amounts@.take(amounts@.len() as int) =~= amounts@);
    }

    /// Hands the second airdrop out to the recipients and returns the amount
    /// handed out and the number of recipients. Each network hands out an
    /// equal part of the total, in proportion to the recipients' scores on it.
    /// A refusal changes nothing.
    pub fn airdrop2(&mut self, recipients: &Vec<Recipient>) -> (r: Result<(u64, u64), Error>)
        requires
            old(self).wf(),
        ensures
            final(self).wf(),
            match allotment_error(recipients_view(recipients@)) {
                Some(e) => r == Err::<(u64, u64), Error>(e) && final(self)@ == old(self)@,
                None => r == Ok::<(u64, u64), Error>(
                    (
                        allotments_sum(recipients_view(recipients@), recipients@.len() as int) as u64,
                        recipients@.len() as u64,
                    ),
                ) && final(self)@ == applied(old(self)@, allotments(recipients_view(recipients@))),
            },
    {
        let (amounts, total) = match allot(recipients) {
            Ok(found) => found,
            Err(e) => {
                return Err(e);
            },
        };
        self.apply_allotments(&amounts);
        Ok((total, recipients.len() as u64))
    }

    /// Hands the second airdrop out to the recipients of the snapshot.
    /// Refused with `BadSnapshot` when the snapshot cannot be read, and else
    /// as `airdrop2` refuses its recipients.
    pub fn init_from_airdrop2_csv(&mut self, data: &[u8]) -> (r: Result<(u64, u64), Error>)
        requires
            old(self).wf(),
        ensures
            final(self).wf(),
            r is Err ==> final(self)@ == old(self)@,
            match csv_records(data@) {
                None => r == Err::<(u64, u64), Error>(Error::BadSnapshot),
                Some(rows) => match recipients_of(rows) {
                    None => r == Err::<(u64, u64), Error>(Error::BadSnapshot),
                    Some(rs) => match allotment_error(rs) {
                        Some(e) => r == Err::<(u64, u64), Error>(e),
                        None => r == Ok::<(u64, u64), Error>(
                            (allotments_sum(rs, rs.len() as int) as u64, rs.len() as u64),
                        ) && final(self)@ == applied(old(self)@, allotments(rs)),
                    },
                },
            },
    {
        let recipients = match Self::get_recipients_from_csv(data) {
            Ok(recipients) => recipients,
            Err(e) => {
                return Err(e);
            },
        };
        self.airdrop2(&recipients)
    }

    /// Sets the claimable amount of the first airdrop for each of the
    /// balances and returns the sum of the amounts and the number of
    /// balances. Refused with `AmountOverflow`, and nothing changed, when the
    /// sum does not fit in 64 bits.
    pub fn airdrop1(&mut self, balances: &Vec<Balances>) -> (r: Result<(u64, u64), Error>)
        requires
            old(self).wf(),
        ensures
            final(self).wf(),
            r is Err <==> minted(balances@, balances@.len() as int) > u64::MAX,
            r matches Err(e) ==> e == Error::AmountOverflow && final(self)@ == old(self)@,
            r matches Ok(done) ==> done.0 == minted(balances@, balances@.len() as int) && done.1
                == balances@.len() && final(self)@ == initialized(old(self)@, balances@),
    {
        let mut total: u64 = 0;
        let mut i: usize = 0;
        while i < balances.len()
            invariant
                i <= balances@.len(),
                self.wf(),
                self@ == old(self)@,
                total == minted(balances@, i as int),
            decreases balances@.len() - i,
        {
            let amount = airdrop1_units(balances[i].1, balances[i].2);
            if amount > u64::MAX - total {
                proof {
                    lemma_minted_grows(balances@, i + 1, balances@.len() as int);
                }
                return Err(Error::AmountOverflow);
            }
            total = total + amount;
            i += 1;
        }
        let mut k: usize = 0;
        assert(balances@.take(0) =~= Seq::<Balances>::empty());
        while k < balances.len()
            invariant
                k <= balances@.len(),
                self.wf(),
                self@ == initialized(old(self)@, balances@.take(k as int)),
            decreases balances@.len() - k,
        {
            proof {
                assert(balances@.take(k + 1).drop_last() =~= balances@.take(k as int));
                assert(balances@.take(k + 1).last() == balances@[k as int]);
            }
            let _ = self.init_airdrop1_amount(balances[k].0, balances[k].1, balances[k].2);
            k += 1;
        }
        assert(balances@.take(balances@.len() as int) =~= balances@);
        Ok((total, balances.len() as u64))
    }

    /// Sets the claimable amounts of the first airdrop from the snapshot.
    /// Refused with `BadSnapshot` when the snapshot cannot be read, and else
    /// as `airdrop1` refuses its balances.
    pub fn init_from_airdrop1_csv(&mut self, data: &[u8]) -> (r: Result<(u64, u64), Error>)
        requires
            old(self).wf(),
        ensures
            final(self).wf(),
            r is Err ==> final(self)@ == old(self)@,
            match csv_records(data@) {
                None => r == Err::<(u64, u64), Error>(Error::BadSnapshot),
                Some(rows) => match balances_of(rows) {
                    None => r == Err::<(u64, u64), Error>(Error::BadSnapshot),
                    Some(balances) => if minted(balances, balances.len() as int) > u64::MAX {
                        r == Err::<(u64, u64), Error>(Error::AmountOverflow)
                    } else {
                        r == Ok::<(u64, u64), Error>(
                            (minted(balances, balances.len() as int) as u64, balances.len() as u64),
                        ) && final(self)@ == initialized(old(self)@, balances)
                    },
                },
            },
    {
        let balances = match read_balances(data) {
            Ok(balances) => balances,
            Err(e) => {
                return Err(e);
            },
        };
        self.airdrop1(&balances)
    }
}

/// The balances that addresses held on the chain before this one.
pub struct LegacyBalances {
    records: Vec<(Address, u64)>,
}

impl View for LegacyBalances {
    type V = Map<Address, u64>;

    closed spec fn view(&self) -> Map<Address, u64> {
        to_map(self.records@)
    }
}

impl LegacyBalances {
    /// No address has two balances.
    pub closed spec fn wf(&self) -> bool {
        distinct_keys(self.records@)
    }

    /// No balances.
    pub fn new() -> (r: LegacyBalances)
        ensures
            r.wf(),
            r@ == Map::<Address, u64>::empty(),
    {
        LegacyBalances { records: Vec::new() }
    }

    fn position(&self, address: &Address) -> (r: Option<usize>)
        ensures
            match r {
                Some(i) => i < self.records@.len() && self.records@[i as int].0 == *address,
                None => !has_key(self.records@, *address),
            },
    {
        let mut i: usize = 0;
        while i < self.records.len()
            invariant
                i <= self.records@.len(),
                forall|j: int| 0 <= j < i ==> self.records@[j].0 != *address,
            decreases self.records@.len() - i,
        {
            if array_eq(&self.records[i].0, address) {
                return Some(i);
            }
            i += 1;
        }
        None
    }

    /// Sets the balance of the address.
    pub fn set(&mut self, address: Address, amount: u64)
        requires
            old(self).wf(),
        ensures
            final(self).wf(),
            final(self)@ == old(self)@.insert(address, amount),
    {
        match self.position(&address) {
            Some(i) => {
                proof {
                    lemma_to_map_update(self.records@, i as int, amount);
                }
                self.records[i].1 = amount;
                assert(self.records@ == old(self).records@.update(i as int, (address, amount)));
            },
            None => {
                proof {
                    lemma_to_map_push(self.records@, address, amount);
                    lemma_distinct_push(self.records@, address, amount);
                }
                self.records.push((address, amount));
            },
        }
    }

    /// The balance of the address, if it has one.
    pub fn balance(&self, address: Address) -> (r: Option<u64>)
        requires
            self.wf(),
        ensures
            r == if self@.contains_key(address) {
                Some(self@[address])
            } else {
                None
            },
    {
        proof {
            lemma_to_map_dom(self.records@, address);
        }
        match self.position(&address) {
            Some(i) => {
                proof {
                    lemma_to_map_at(self.records@, i as int);
                }
                Some(self.records[i].1)
            },
            None => None,
        }
    }
}

/// Whether the first airdrop of the account counts as claimed on the chain
/// before: something is claimable here, and there the address holds no
/// balance, or none above zero.
pub open spec fn claimed_before(address: Address, account: Account, legacy: Map<Address, u64>) -> bool {
    account.airdrop1.claimable != 0 && (!legacy.contains_key(address) || legacy[address] == 0)
}

/// The account with its first airdrop marked as claimed: what was claimable
/// is now the claimed amount.
pub open spec fn marked_claimed(account: Account) -> Account {
    Account {
        airdrop1: Part { claimable: 0, claimed: account.airdrop1.claimable, ..account.airdrop1 },
        ..account
    }
}

/// The account after the migration.
pub open spec fn migrated(address: Address, account: Account, legacy: Map<Address, u64>) -> Account {
    if claimed_before(address, account, legacy) {
        marked_claimed(account)
    } else {
        account
    }
}

/// The sum of what the first `n` accounts claimed on the chain before.
pub open spec fn claimed_total(entries: Seq<(Address, Account)>, legacy: Map<Address, u64>, n: int) -> nat
    decreases n,
{
    if n <= 0 {
        0
    } else {
        claimed_total(entries, legacy, n - 1) + if claimed_before(
            entries[n - 1].0,
            entries[n - 1].1,
            legacy,
        ) {
            entries[n - 1].1.airdrop1.claimable as nat
        } else {
            0
        }
    }
}

/// The number of the first `n` accounts that claimed on the chain before.
pub open spec fn claimed_count(entries: Seq<(Address, Account)>, legacy: Map<Address, u64>, n: int) -> nat
    decreases n,
{
    if n <= 0 {
        0
    } else {
        claimed_count(entries, legacy, n - 1) + if claimed_before(
            entries[n - 1].0,
            entries[n - 1].1,
            legacy,
        ) {
            1nat
        } else {
            0
        }
    }
}

/// Sums over more accounts are not smaller.
pub proof fn lemma_claimed_total_grows(
    entries: Seq<(Address, Account)>,
    legacy: Map<Address, u64>,
    k: int,
    n: int,
)
    requires
        0 <= k <= n,
    ensures
        claimed_total(entries, legacy, k) <= claimed_total(entries, legacy, n),
        claimed_count(entries, legacy, k) <= k,
    decreases n + k,
{
    if k < n {
        lemma_claimed_total_grows(entries, legacy, k, n - 1);
    } else if k > 0 {
        lemma_claimed_total_grows(entries, legacy, k - 1, k - 1);
    }
}

impl Airdrop {
    /// The accounts in the order in which they were added.
    pub closed spec fn entries(&self) -> Seq<(Address, Account)> {
        self.accounts@
    }

    /// The accounts by address are those of the list.
    pub proof fn lemma_entries(&self)
        requires
            self.wf(),
        ensures
            self@ == to_map(self.entries()),
            distinct_keys(self.entries()),
    {
    }

    /// Marks the first airdrop as claimed on every account that claimed it
    /// on the chain before, and returns the sum of those amounts and the
    /// number of those accounts. Refused with `AmountOverflow`, and nothing
    /// changed, when the sum does not fit in 64 bits.
    pub fn migrate(&mut self, legacy: &LegacyBalances) -> (r: Result<(u64, u64), Error>)
        requires
            old(self).wf(),
            legacy.wf(),
        ensures
            final(self).wf(),
            r is Err <==> claimed_total(old(self).entries(), legacy@, old(self).entries().len() as int)
                > u64::MAX,
            r matches Err(e) ==> e == Error::AmountOverflow && final(self)@ == old(self)@ && final(self).entries() == old(self).entries(),
            r matches Ok(done) ==> {
                &&& done.0 == claimed_total(old(self).entries(), legacy@, old(self).entries().len() as int)
                &&& done.1 == claimed_count(old(self).entries(), legacy@, old(self).entries().len() as int)
                &&& final(self).entries() == Seq::new(
                    old(self).entries().len(),
                    |i: int|
                        (
                            old(self).entries()[i].0,
                            migrated(old(self).entries()[i].0, old(self).entries()[i].1, legacy@),
                        ),
                )
                &&& final(self)@.dom() == old(self)@.dom()
                &&& forall|a: Address| #[trigger]
                    old(self)@.contains_key(a) ==> final(self)@[a] == migrated(a, old(self)@[a], legacy@)
            },
    {
        let n = self.accounts.len();
        let mut total: u64 = 0;
        let mut count: u64 = 0;
        let mut i: usize = 0;
        while i < n
            invariant
                i <= n,
                n == self.accounts@.len(),
                self.wf(),
                legacy.wf(),
                *self == *old(self),
                total == claimed_total(self.accounts@, legacy@, i as int),
                count == claimed_count(self.accounts@, legacy@, i as int),
                count <= i,
            decreases n - i,
        {
            let (address, account) = self.accounts[i];
            let amount = account.airdrop1.claimable;
            if amount != 0 {
                let claimed = match legacy.balance(address) {
                    None => true,
                    Some(held) => held == 0,
                };
                if claimed {
                    if amount > u64::MAX - total {
                        proof {
                            lemma_claimed_total_grows(self.accounts@, legacy@, i + 1, n as int);
                        }
                        return Err(Error::AmountOverflow);
                    }
                    total = total + amount;
                    count = count + 1;
                }
            }
            i += 1;
        }
        let mut k: usize = 0;
        while k < n
            invariant
                k <= n,
                n == self.accounts@.len() == old(self).accounts@.len(),
                legacy.wf(),
                forall|j: int|
                    0 <= j < k ==> #[trigger] self.accounts@[j] == (
                        old(self).accounts@[j].0,
                        migrated(old(self).accounts@[j].0, old(self).accounts@[j].1, legacy@),
                    ),
                forall|j: int| k <= j < n ==> #[trigger] self.accounts@[j] == old(self).accounts@[j],
            decreases n - k,
        {
            let (address, account) = self.accounts[k];
            let amount = account.airdrop1.claimable;
            if amount != 0 {
                let claimed = match legacy.balance(address) {
                    None => true,
                    Some(held) => held == 0,
                };
                if claimed {
                    let mut marked = account;
                    marked.airdrop1.claimable = 0;
                    marked.airdrop1.claimed = amount;
                    self.accounts[k] = (address, marked);
                }
            }
            k += 1;
        }
        proof {
            let before = old(self).accounts@;
            let after = self.accounts@;
            assert(after =~= Seq::new(
                before.len(),
                |i: int| (before[i].0, migrated(before[i].0, before[i].1, legacy@)),
            ));
            assert(distinct_keys(after)) by {
                assert forall|a: int, b: int| 0 <= a < b < after.len() implies after[a].0 != after[b].0 by {
                    assert(before[a].0 != before[b].0);
                }
            }
            assert forall|a: Address| to_map(after).contains_key(a) == to_map(before).contains_key(
                a,
            ) by {
                lemma_to_map_dom(after, a);
                lemma_to_map_dom(before, a);
                if has_key(before, a) {
                    let j = choose|j: int| 0 <= j < before.len() && #[trigger] before[j].0 == a;
                    assert(after[j].0 == a);
                }
                if has_key(after, a) {
                    let j = choose|j: int| 0 <= j < after.len() && #[trigger] after[j].0 == a;
                    assert(before[j].0 == a);
                }
            }
            assert(to_map(after).dom() =~= to_map(before).dom());
            assert forall|a: Address| #[trigger] to_map(before).contains_key(a) implies to_map(after)[a]
                == migrated(a, to_map(before)[a], legacy@) by {
                lemma_to_map_dom(before, a);
                let j = choose|j: int| 0 <= j < before.len() && #[trigger] before[j].0 == a;
                lemma_to_map_at(before, j);
                lemma_to_map_at(after, j);
            }
        }
        Ok((total, count))
    }
}

} // verus!
