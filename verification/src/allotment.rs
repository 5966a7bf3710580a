//! The amounts of the second airdrop: each network hands out an equal part of
//! the total, in proportion to the recipients' scores on that network.

use vstd::prelude::*;
use crate::airdrop::{AIRDROP_II_TOTAL, Airdrop, MAX_STAKED, score_of};
use crate::bitcoin::Address;
use crate::error::Error;
use crate::snapshot::{Recipient, RecipientView, recipients_view};

verus! {

/// The sum of the recipients' scores on the network `i`.
pub open spec fn column_total(rs: Seq<RecipientView>, i: int) -> nat
    decreases rs.len(),
{
    if rs.len() == 0 {
        0
    } else {
        column_total(rs.drop_last(), i) + if 0 <= i < rs.last().1.len() {
            score_of(rs.last().1[i].0) as nat
        } else {
            0
        }
    }
}

/// The number of networks: that of the first recipient.
pub open spec fn width(rs: Seq<RecipientView>) -> nat {
    rs[0].1.len()
}

/// There is a recipient and a network, no recipient has more networks than
/// the first, and on every network some score is positive.
pub open spec fn well_shaped(rs: Seq<RecipientView>) -> bool {
    &&& rs.len() > 0
    &&& 0 < width(rs) <= u64::MAX
    &&& forall|r: int| 0 <= r < rs.len() ==> (#[trigger] rs[r]).1.len() <= width(rs)
    &&& forall|i: int| 0 <= i < width(rs) ==> #[trigger] column_total(rs, i) > 0
}

/// What each network hands out.
pub open spec fn per_network(rs: Seq<RecipientView>) -> nat {
    AIRDROP_II_TOTAL as nat / width(rs)
}

/// What the network `i` hands out per unit of score, in millionths.
pub open spec fn rate(rs: Seq<RecipientView>, i: int) -> nat {
    per_network(rs) * 1_000_000 / column_total(rs, i)
}

/// What the recipient `r` gets from the network `i`.
pub open spec fn share(rs: Seq<RecipientView>, r: int, i: int) -> nat {
    score_of(rs[r].1[i].0) as nat * rate(rs, i) / 1_000_000
}

/// What the recipient `r` gets from the first `k` networks.
pub open spec fn shares_sum(rs: Seq<RecipientView>, r: int, k: int) -> nat
    decreases k,
{
    if k <= 0 {
        0
    } else {
        shares_sum(rs, r, k - 1) + share(rs, r, k - 1)
    }
}

/// What the recipient `r` gets.
pub open spec fn allotment(rs: Seq<RecipientView>, r: int) -> nat {
    shares_sum(rs, r, rs[r].1.len() as int)
}

/// What the first `n` recipients get together.
pub open spec fn allotments_sum(rs: Seq<RecipientView>, n: int) -> nat
    decreases n,
{
    if n <= 0 {
        0
    } else {
        allotments_sum(rs, n - 1) + allotment(rs, n - 1)
    }
}

/// Why the recipients get nothing, if they do not: `BadSnapshot` when they are
/// not well shaped, `AmountOverflow` when their amounts together do not fit
/// in 64 bits.
pub open spec fn allotment_error(rs: Seq<RecipientView>) -> Option<Error> {
    if !well_shaped(rs) {
        Some(Error::BadSnapshot)
    } else if allotments_sum(rs, rs.len() as int) > u64::MAX {
        Some(Error::AmountOverflow)
    } else {
        None
    }
}

/// The recipients' addresses with their amounts.
pub open spec fn allotments(rs: Seq<RecipientView>) -> Seq<(Address, u64)> {
    Seq::new(rs.len(), |r: int| (rs[r].0, allotment(rs, r) as u64))
}

/// The accounts after each address got its amount, in order: a third of it
/// locked in each of the three parts that unlock by use of the chain.
pub open spec fn applied(accounts: Map<Address, crate::airdrop::Account>, amounts: Seq<(Address, u64)>) -> Map<
    Address,
    crate::airdrop::Account,
>
    decreases amounts.len(),
{
    if amounts.len() == 0 {
        accounts
    } else {
        let before = applied(accounts, amounts.drop_last());
        before.insert(
            amounts.last().0,
            Airdrop::account_or_empty(before, amounts.last().0).with_airdrop(amounts.last().1),
        )
    }
}

/// The scores of `n` recipients on a network sum up to `n` times the cap at most.
pub proof fn lemma_column_total_bound(rs: Seq<RecipientView>, i: int)
    ensures
        column_total(rs, i) <= rs.len() * MAX_STAKED,
    decreases rs.len(),
{
    if rs.len() > 0 {
        lemma_column_total_bound(rs.drop_last(), i);
    }
}

/// Sums over more networks are not smaller.
pub proof fn lemma_shares_sum_grows(rs: Seq<RecipientView>, r: int, k: int, n: int)
    requires
        0 <= k <= n,
    ensures
        shares_sum(rs, r, k) <= shares_sum(rs, r, n),
    decreases n - k,
{
    if k < n {
        lemma_shares_sum_grows(rs, r, k, n - 1);
    }
}

/// Sums over more recipients are not smaller, and hold each recipient's amount.
pub proof fn lemma_allotments_sum_grows(rs: Seq<RecipientView>, k: int, n: int)
    requires
        0 <= k <= n,
    ensures
        allotments_sum(rs, k) <= allotments_sum(rs, n),
        k < n ==> allotment(rs, k) <= allotments_sum(rs, n),
    decreases n - k,
{
    if k < n {
        lemma_allotments_sum_grows(rs, k, n - 1);
    }
}

/// The sums of the scores on each network, if no recipient has more networks
/// than the first.
fn column_totals(recipients: &Vec<Recipient>) -> (r: Option<Vec<u128>>)
    requires
        recipients@.len() > 0,
    ensures
        ({
            let rs = recipients_view(recipients@);
            match r {
                Some(totals) => {
                    &&& totals@.len() == width(rs)
                    &&& forall|k: int| 0 <= k < rs.len() ==> (#[trigger] rs[k]).1.len() <= width(rs)
                    &&& forall|i: int| 0 <= i < width(rs) ==> totals@[i] == column_total(rs, i)
                },
                None => exists|k: int| 0 <= k < rs.len() && (#[trigger] rs[k]).1.len() > width(rs),
            }
        }),
{
    let ghost rs = recipients_view(recipients@);
    let n = recipients[0].1.len();
    assert(rs[0].1 == recipients@[0].1@);
    let mut totals: Vec<u128> = Vec::new();
    let mut i: usize = 0;
    while i < n
        invariant
            i <= n,
            totals@.len() == i,
            forall|j: int| 0 <= j < i ==> totals@[j] == 0,
        decreases n - i,
    {
        totals.push(0);
        i += 1;
    }
    let mut k: usize = 0;
    assert(rs.take(0) =~= Seq::<RecipientView>::empty());
    while k < recipients.len()
        invariant
            k <= recipients@.len(),
            rs == recipients_view(recipients@),
            n == width(rs),
            totals@.len() == n,
            forall|j: int| 0 <= j < k ==> (#[trigger] rs[j]).1.len() <= n,
            forall|j: int| 0 <= j < n ==> totals@[j] == column_total(rs.take(k as int), j),
        decreases recipients@.len() - k,
    {
        let networks = &recipients[k].1;
        assert(rs[k as int].1 == networks@);
        if networks.len() > n {
            return None;
        }
        proof {
            assert(rs.take(k + 1).drop_last() =~= rs.take(k as int));
            assert(rs.take(k + 1).last() == rs[k as int]);
        }
        let mut j: usize = 0;
        while j < networks.len()
            invariant
                j <= networks@.len() <= n,
                k < recipients@.len(),
                rs == recipients_view(recipients@),
                rs[k as int].1 == networks@,
                rs.take(k + 1).drop_last() == rs.take(k as int),
                rs.take(k + 1).last() == rs[k as int],
                totals@.len() == n,
                forall|a: int| 0 <= a < j ==> totals@[a] == column_total(rs.take(k + 1), a),
                forall|a: int| j <= a < n ==> totals@[a] == column_total(rs.take(k as int), a),
            decreases networks@.len() - j,
        {
            let s = Airdrop::score(networks[j].0, networks[j].1);
            proof {
                lemma_column_total_bound(rs.take(k as int), j as int);
            }
            let sum = totals[j] + s as u128;
            totals[j] = sum;
            j += 1;
        }
        k += 1;
    }
    assert(rs.take(recipients@.len() as int) =~= rs);
    Some(totals)
}

/// What each network hands out per unit of score.
fn rates_of(totals: &Vec<u128>, Ghost(rs): Ghost<Seq<RecipientView>>) -> (r: Option<Vec<u128>>)
    requires
        0 < totals@.len() == width(rs) <= usize::MAX,
        forall|i: int| 0 <= i < width(rs) ==> totals@[i] == column_total(rs, i),
    ensures
        match r {
            Some(rates) => {
                &&& rates@.len() == width(rs)
                &&& forall|i: int| 0 <= i < width(rs) ==> #[trigger] column_total(rs, i) > 0
                &&& forall|i: int|
                    0 <= i < width(rs) ==> #[trigger] rates@[i] == rate(rs, i) && rates@[i]
                        <= 3_500_000_000_000_000_000
            },
            None => exists|i: int| 0 <= i < width(rs) && #[trigger] column_total(rs, i) == 0,
        },
{
    let n = totals.len();
    let each: u64 = AIRDROP_II_TOTAL / (n as u64);
    let mut rates: Vec<u128> = Vec::new();
    let mut i: usize = 0;
    while i < n
        invariant
            i <= n,
            n == totals@.len() == width(rs),
            n > 0,
            each == per_network(rs),
            each <= AIRDROP_II_TOTAL,
            rates@.len() == i,
            forall|j: int| 0 <= j < width(rs) ==> totals@[j] == column_total(rs, j),
            forall|j: int| 0 <= j < i ==> #[trigger] column_total(rs, j) > 0,
            forall|j: int|
                0 <= j < i ==> #[trigger] rates@[j] == rate(rs, j) && rates@[j]
                    <= 3_500_000_000_000_000_000,
        decreases n - i,
    {
        let total = totals[i];
        if total == 0 {
            assert(column_total(rs, i as int) == 0);
            return None;
        }
        let scaled: u128 = each as u128 * 1_000_000;
        let rate_here = scaled / total;
        assert(rate_here <= scaled) by (nonlinear_arith)
            requires
                rate_here == scaled / total,
                total >= 1,
        ;
        rates.push(rate_here);
        i += 1;
    }
    Some(rates)
}

/// What one recipient gets, if it fits in 64 bits.
fn allot_one(networks: &Vec<(u64, u64)>, rates: &Vec<u128>, Ghost(rs): Ghost<Seq<RecipientView>>, Ghost(
    r,
): Ghost<int>) -> (out: Option<u64>)
    requires
        0 <= r < rs.len(),
        rs[r].1 == networks@,
        networks@.len() <= rates@.len(),
        forall|i: int|
            0 <= i < rates@.len() ==> #[trigger] rates@[i] == rate(rs, i) && rates@[i]
                <= 3_500_000_000_000_000_000,
    ensures
        match out {
            Some(amount) => amount == allotment(rs, r),
            None => allotment(rs, r) > u64::MAX,
        },
{
    let mut amount: u64 = 0;
    let mut i: usize = 0;
    while i < networks.len()
        invariant
            i <= networks@.len() <= rates@.len(),
            0 <= r < rs.len(),
            rs[r].1 == networks@,
            forall|j: int|
                0 <= j < rates@.len() ==> #[trigger] rates@[j] == rate(rs, j) && rates@[j]
                    <= 3_500_000_000_000_000_000,
            amount == shares_sum(rs, r, i as int),
        decreases networks@.len() - i,
    {
        let s = Airdrop::score(networks[i].0, networks[i].1);
        let rate_here = rates[i];
        assert(s as u128 * rate_here <= 1_000_000_000 * 3_500_000_000_000_000_000) by (nonlinear_arith)
            requires
                0 <= s <= 1_000_000_000,
                0 <= rate_here <= 3_500_000_000_000_000_000,
        ;
        let part: u128 = s as u128 * rate_here / 1_000_000;
        assert(part == share(rs, r, i as int));
        if part > (u64::MAX - amount) as u128 {
            proof {
                lemma_shares_sum_grows(rs, r, i + 1, networks@.len() as int);
            }
            return None;
        }
        amount = amount + part as u64;
        i += 1;
    }
    Some(amount)
}

/// What each recipient gets, and what they get together.
pub fn allot(recipients: &Vec<Recipient>) -> (r: Result<(Vec<(Address, u64)>, u64), Error>)
    ensures
        match allotment_error(recipients_view(recipients@)) {
            Some(e) => r == Err::<(Vec<(Address, u64)>, u64), Error>(e),
            None => r matches Ok((amounts, total)) && amounts@ == allotments(
                recipients_view(recipients@),
            ) && total == allotments_sum(
                recipients_view(recipients@),
                recipients@.len() as int,
            ),
        },
{
    let ghost rs = recipients_view(recipients@);
    if recipients.len() == 0 {
        return Err(Error::BadSnapshot);
    }
    assert(rs[0].1 == recipients@[0].1@);
    if recipients[0].1.len() == 0 {
        return Err(Error::BadSnapshot);
    }
    let totals = match column_totals(recipients) {
        Some(totals) => totals,
        None => {
            return Err(Error::BadSnapshot);
        },
    };
    let rates = match rates_of(&totals, Ghost(rs)) {
        Some(rates) => rates,
        None => {
            return Err(Error::BadSnapshot);
        },
    };
    assert(well_shaped(rs));
    let mut amounts: Vec<(Address, u64)> = Vec::new();
    let mut total: u64 = 0;
    let mut k: usize = 0;
    while k < recipients.len()
        invariant
            k <= recipients@.len(),
            rs == recipients_view(recipients@),
            well_shaped(rs),
            rates@.len() == width(rs),
            forall|i: int|
                0 <= i < rates@.len() ==> #[trigger] rates@[i] == rate(rs, i) && rates@[i]
                    <= 3_500_000_000_000_000_000,
            amounts@.len() == k,
            forall|j: int| 0 <= j < k ==> amounts@[j] == (rs[j].0, allotment(rs, j) as u64),
            total == allotments_sum(rs, k as int),
        decreases recipients@.len() - k,
    {
        assert(rs[k as int].1 == recipients@[k as int].1@);
        assert(rs[k as int].0 == recipients@[k as int].0);
        let amount = match allot_one(&recipients[k].1, &rates, Ghost(rs), Ghost(k as int)) {
            Some(amount) => amount,
            None => {
                proof {
                    lemma_allotments_sum_grows(rs, k as int, rs.len() as int);
                }
                return Err(Error::AmountOverflow);
            },
        };
        if amount > u64::MAX - total {
            proof {
                lemma_allotments_sum_grows(rs, k + 1, rs.len() as int);
            }
            return Err(Error::AmountOverflow);
        }
        total = total + amount;
        amounts.push((recipients[k].0, amount));
        k += 1;
    }
    assert(amounts@ =~= allotments(rs));
    Ok((amounts, total))
}

} // verus!
