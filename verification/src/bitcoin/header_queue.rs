//! The chain of Bitcoin headers: a window of the most recent headers, each
//! linked to its predecessor, with the work that its bits ask for and the
//! bits that the chain expects.

use vstd::prelude::*;
use crate::bitcoin::work::{Header, be_at_most, bits_from_target, block_hash, compact_bits, compact_target, divide_target, hash_at_most, meets_target, scale_target, target_from_bits, two_256};
use crate::bytes::array_eq;
use crate::error::Error;

verus! {

/// The rules of a chain.
#[derive(Clone, Copy, Debug)]
pub struct Config {
    /// The number of headers that the window retains.
    pub max_length: u32,
    /// The number of headers between two adjustments of the difficulty.
    pub retarget_interval: u32,
    /// The time, in seconds, that a retarget interval is meant to take.
    pub target_timespan: u32,
    /// The compact bits of the highest target that the chain allows.
    pub max_target_bits: u32,
}

impl Config {
    /// The window holds a whole retarget interval, and the target timespan
    /// is positive and its fourfold fits in 32 bits.
    pub open spec fn wf(&self) -> bool {
        &&& 1 <= self.retarget_interval <= self.max_length
        &&& 1 <= self.target_timespan <= 0x3fff_ffff
    }

    /// Whether the rules are well formed.
    pub fn is_valid(&self) -> (r: bool)
        ensures
            r == self.wf(),
    {
        1 <= self.retarget_interval && self.retarget_interval <= self.max_length && 1
            <= self.target_timespan && self.target_timespan <= 0x3fff_ffff
    }
}

/// The time that a retarget interval took, held between a quarter and the
/// fourfold of the target timespan.
pub open spec fn clamped_timespan(first_time: u32, last_time: u32, target_timespan: u32) -> nat {
    let span = last_time - first_time;
    let low = target_timespan / 4;
    let high = target_timespan * 4;
    if span < low {
        low as nat
    } else if span > high {
        high as nat
    } else {
        span as nat
    }
}

/// The bits after an adjustment: the old target times the time the interval
/// took, cut to 256 bits, divided by the time it was meant to take; at most
/// the chain's highest target.
#[verifier::opaque]
pub open spec fn retarget(prev_bits: u32, timespan: nat, config: Config) -> u32 {
    let scaled = (((compact_target(prev_bits) * timespan) as int % two_256()) as nat)
        / config.target_timespan as nat;
    let limit = compact_target(config.max_target_bits);
    compact_bits(
        if scaled <= limit {
            scaled
        } else {
            limit
        },
    )
}

/// The bits that the chain expects of the header that follows `chain`, whose
/// first header stands at the height `base`. Between adjustments they are
/// those of the last header. At a height that the retarget interval divides
/// they are adjusted by the time that the last interval took; the chain must
/// then reach back to the interval's first header.
pub open spec fn expected_bits(chain: Seq<Header>, base: u32, config: Config) -> Option<u32> {
    let height = base + chain.len();
    if height % config.retarget_interval as int != 0 {
        Some(chain.last().bits)
    } else if chain.len() < config.retarget_interval {
        None
    } else {
        let first = chain[chain.len() - config.retarget_interval];
        Some(
            retarget(
                chain.last().bits,
                clamped_timespan(first.time, chain.last().time, config.target_timespan),
                config,
            ),
        )
    }
}

/// Whether the header may follow the chain: it names the hash of the chain's
/// last header as its predecessor, carries the bits that the chain expects,
/// and its hash meets the target of those bits.
#[verifier::opaque]
pub open spec fn valid_next(chain: Seq<Header>, base: u32, config: Config, h: Header) -> bool {
    &&& chain.len() > 0
    &&& h.prev_blockhash@ == block_hash(chain.last())
    &&& expected_bits(chain, base, config) == Some(h.bits)
    &&& meets_target(h)
}

/// Whether each of the headers may follow the chain with those before it.
pub open spec fn valid_extension(chain: Seq<Header>, base: u32, config: Config, headers: Seq<Header>) -> bool {
    forall|i: int|
        0 <= i < headers.len() ==> valid_next(chain + headers.take(i), base, config, #[trigger] headers[i])
}

/// Whether the chain accepts the headers: each may follow, and the height of
/// the last one fits in 32 bits.
pub open spec fn accepts(chain: Seq<Header>, base: u32, config: Config, headers: Seq<Header>) -> bool {
    &&& valid_extension(chain, base, config, headers)
    &&& base + chain.len() + headers.len() - 1 <= u32::MAX
}

/// The number of headers that leave a window of `total` headers.
pub open spec fn dropped(total: nat, max_length: u32) -> nat {
    if total > max_length {
        (total - max_length) as nat
    } else {
        0
    }
}

/// The window after the headers were added: the most recent `max_length` headers.
pub open spec fn extended(chain: Seq<Header>, max_length: u32, headers: Seq<Header>) -> Seq<Header> {
    (chain + headers).skip(dropped(chain.len() + headers.len(), max_length) as int)
}

/// The header at the height, in a window whose first header stands at `base`.
pub open spec fn lookup(chain: Seq<Header>, base: u32, height: u32) -> Option<Header> {
    if base <= height < base + chain.len() {
        Some(chain[height - base])
    } else {
        None
    }
}

/// Each header but the first names the hash of the one before it and meets
/// the target of its bits.
pub open spec fn linked(chain: Seq<Header>) -> bool {
    forall|i: int|
        1 <= i < chain.len() ==> (#[trigger] chain[i]).prev_blockhash@ == block_hash(chain[i - 1])
            && meets_target(chain[i])
}

/// Each header but the first carries the bits that the headers before it
/// expect, where they reach back far enough to expect any.
pub open spec fn adjusted(chain: Seq<Header>, base: u32, config: Config) -> bool {
    forall|i: int|
        1 <= i < chain.len() ==> (expected_bits(chain.take(i), base, config) matches Some(bits) ==> (
        #[trigger] chain[i]).bits == bits)
}

/// The bits after an adjustment.
fn next_bits(prev_bits: u32, first_time: u32, last_time: u32, config: &Config) -> (r: u32)
    requires
        config.wf(),
    ensures
        r == retarget(
            prev_bits,
            clamped_timespan(first_time, last_time, config.target_timespan),
            *config,
        ),
{
    reveal(retarget);
    let low = config.target_timespan / 4;
    let high = config.target_timespan * 4;
    let span: u32 = if last_time < first_time {
        low
    } else {
        let d = last_time - first_time;
        if d < low {
            low
        } else if d > high {
            high
        } else {
            d
        }
    };
    let scaled = divide_target(&scale_target(&target_from_bits(prev_bits), span), config.target_timespan);
    let limit = target_from_bits(config.max_target_bits);
    if be_at_most(&scaled, &limit) {
        bits_from_target(&scaled)
    } else {
        bits_from_target(&limit)
    }
}

/// A window of the most recent headers of the chain, from a trusted header on.
pub struct HeaderQueue {
    config: Config,
    base_height: u32,
    headers: Vec<Header>,
}

impl HeaderQueue {
    /// The retained headers, oldest first.
    pub closed spec fn chain(&self) -> Seq<Header> {
        self.headers@
    }

    /// The height of the oldest retained header.
    pub closed spec fn base(&self) -> u32 {
        self.base_height
    }

    /// The rules of the chain.
    pub closed spec fn rules(&self) -> Config {
        self.config
    }

    /// The window holds at least one header and at most as many as the rules
    /// allow, and the height of its last header fits in 32 bits.
    pub closed spec fn wf(&self) -> bool {
        &&& self.config.wf()
        &&& 1 <= self.headers@.len() <= self.config.max_length
        &&& self.base_height + self.headers@.len() - 1 <= u32::MAX
    }

    /// What holds of a well-formed window.
    pub proof fn lemma_wf(&self)
        requires
            self.wf(),
        ensures
            self.rules().wf(),
            1 <= self.chain().len() <= self.rules().max_length,
            self.base() + self.chain().len() - 1 <= u32::MAX,
    {
    }

    /// A chain that starts from the trusted header at the height.
    pub fn new(config: Config, trusted_header: Header, trusted_height: u32) -> (r: HeaderQueue)
        requires
            config.wf(),
        ensures
            r.wf(),
            r.rules() == config,
            r.base() == trusted_height,
            r.chain() == seq![trusted_header],
            linked(r.chain()),
            adjusted(r.chain(), r.base(), r.rules()),
    {
        let mut headers: Vec<Header> = Vec::new();
        headers.push(trusted_header);
        assert(headers@ =~= seq![trusted_header]);
        HeaderQueue { config, base_height: trusted_height, headers }
    }

    /// The height of the last header.
    pub fn height(&self) -> (r: u32)
        requires
            self.wf(),
        ensures
            r == self.base() + self.chain().len() - 1,
    {
        self.base_height + (self.headers.len() - 1) as u32
    }

    /// The number of retained headers.
    pub fn len(&self) -> (r: usize)
        ensures
            r == self.chain().len(),
    {
        self.headers.len()
    }

    /// The header at the height, if the window retains it.
    pub fn get_by_height(&self, height: u32) -> (r: Option<Header>)
        requires
            self.wf(),
        ensures
            r == lookup(self.chain(), self.base(), height),
    {
        if height < self.base_height {
            return None;
        }
        let at = (height - self.base_height) as usize;
        if at < self.headers.len() {
            Some(self.headers[at])
        } else {
            None
        }
    }

    /// The bits that the chain expects of `headers[i]`, after the retained
    /// headers and the first `i` of `headers`.
    fn expected_at(&self, headers: &Vec<Header>, i: usize) -> (r: Option<u32>)
        requires
            self.wf(),
            i < headers@.len(),
            headers@.len() <= u32::MAX - (self.base_height + self.headers@.len() - 1),
        ensures
            r == expected_bits(self.headers@ + headers@.take(i as int), self.base_height, self.config),
    {
        let own_len = self.headers.len();
        let ghost before = self.headers@ + headers@.take(i as int);
        let total: usize = own_len + i;
        let height: u32 = self.base_height + total as u32;
        let prev = if i == 0 {
            self.headers[own_len - 1]
        } else {
            headers[i - 1]
        };
        assert(prev == before.last());
        assert(before.len() == total);
        if height % self.config.retarget_interval != 0 {
            Some(prev.bits)
        } else if total < self.config.retarget_interval as usize {
            None
        } else {
            let first_at = total - self.config.retarget_interval as usize;
            let first = if first_at < own_len {
                self.headers[first_at]
            } else {
                headers[first_at - own_len]
            };
            assert(first == before[first_at as int]);
            Some(next_bits(prev.bits, first.time, prev.time, &self.config))
        }
    }

    /// The hash of `headers[i]`, if the header may follow the retained
    /// headers and the first `i` of `headers`, of which `prev_hash` is the
    /// hash of the last.
    fn check_at(&self, headers: &Vec<Header>, i: usize, prev_hash: &[u8; 32]) -> (r: Option<[u8; 32]>)
        requires
            self.wf(),
            i < headers@.len(),
            headers@.len() <= u32::MAX - (self.base_height + self.headers@.len() - 1),
            prev_hash@ == block_hash((self.headers@ + headers@.take(i as int)).last()),
        ensures
            r is Some <==> valid_next(
                self.headers@ + headers@.take(i as int),
                self.base_height,
                self.config,
                headers@[i as int],
            ),
            r matches Some(hash) ==> hash@ == block_hash(headers@[i as int]),
    {
        reveal(valid_next);
        let h = headers[i];
        if !array_eq(&h.prev_blockhash, prev_hash) {
            return None;
        }
        match self.expected_at(headers, i) {
            Some(bits) => {
                if bits != h.bits {
                    return None;
                }
            },
            None => {
                return None;
            },
        }
        let hash = h.block_hash();
        if hash_at_most(&hash, &target_from_bits(h.bits)) {
            Some(hash)
        } else {
            None
        }
    }

    /// The most recent headers of the retained ones followed by `headers`.
    fn window_with(&self, headers: &Vec<Header>) -> (r: (Vec<Header>, u32))
        requires
            self.wf(),
            headers@.len() <= u32::MAX - (self.base_height + self.headers@.len() - 1),
        ensures
            r.0@ == extended(self.headers@, self.config.max_length, headers@),
            r.1 == self.base_height + dropped(
                self.headers@.len() + headers@.len(),
                self.config.max_length,
            ),
            1 <= r.0@.len() <= self.config.max_length,
            r.1 + r.0@.len() - 1 <= u32::MAX,
    {
        let own_len = self.headers.len();
        let n = headers.len();
        let ghost all = self.headers@ + headers@;
        let total: u64 = own_len as u64 + n as u64;
        let drop: u64 = if total > self.config.max_length as u64 {
            total - self.config.max_length as u64
        } else {
            0
        };
        let mut kept: Vec<Header> = Vec::new();
        let mut j: u64 = drop;
        while j < total
            invariant
                drop <= j <= total,
                total == own_len + n,
                n == headers@.len(),
                own_len == self.headers@.len(),
                all == self.headers@ + headers@,
                kept@ == all.subrange(drop as int, j as int),
            decreases total - j,
        {
            let h = if j < own_len as u64 {
                self.headers[j as usize]
            } else {
                headers[(j - own_len as u64) as usize]
            };
            kept.push(h);
            assert(kept@ =~= all.subrange(drop as int, j + 1));
            j += 1;
        }
        assert(all.subrange(drop as int, total as int) =~= all.skip(drop as int));
        (kept, (self.base_height as u64 + drop) as u32)
    }

    /// Adds the headers to the chain, all or none. Refused with
    /// `InvalidHeader` when a header does not name the hash of its predecessor,
    /// misses the target of its bits or carries other bits than the chain
    /// expects, or when the height no longer fits in 32 bits. The window
    /// then keeps the most recent headers.
    pub fn add_headers(&mut self, headers: &Vec<Header>) -> (r: Result<(), Error>)
        requires
            old(self).wf(),
        ensures
            final(self).wf(),
            final(self).rules() == old(self).rules(),
            r is Ok <==> accepts(old(self).chain(), old(self).base(), old(self).rules(), headers@),
            r matches Err(e) ==> e == Error::InvalidHeader && final(self).chain() == old(self).chain()
                && final(self).base() == old(self).base(),
            r is Ok ==> final(self).chain() == extended(
                old(self).chain(),
                old(self).rules().max_length,
                headers@,
            ) && final(self).base() == old(self).base() + dropped(
                old(self).chain().len() + headers@.len(),
                old(self).rules().max_length,
            ),
            r is Ok && linked(old(self).chain()) ==> linked(final(self).chain()),
            r is Ok && adjusted(old(self).chain(), old(self).base(), old(self).rules()) ==> adjusted(
                final(self).chain(),
                final(self).base(),
                final(self).rules(),
            ),
    {
        let own_len = self.headers.len();
        let n = headers.len();
        let tip = self.height();
        if n == 0 {
            assert(self.headers@ + headers@ =~= self.headers@);
            assert(extended(self.headers@, self.config.max_length, headers@) =~= self.headers@);
            return Ok(());
        }
        if n > (u32::MAX - tip) as usize {
            return Err(Error::InvalidHeader);
        }
        let mut prev_hash = self.headers[own_len - 1].block_hash();
        let mut i: usize = 0;
        assert(self.headers@ + headers@.take(0) =~= self.headers@);
        while i < n
            invariant
                i <= n,
                n == headers@.len(),
                self.wf(),
                n <= u32::MAX - (self.base_height + self.headers@.len() - 1),
                prev_hash@ == block_hash((self.headers@ + headers@.take(i as int)).last()),
                forall|j: int|
                    0 <= j < i ==> valid_next(
                        self.headers@ + headers@.take(j),
                        self.base_height,
                        self.config,
                        #[trigger] headers@[j],
                    ),
            decreases n - i,
        {
            match self.check_at(headers, i, &prev_hash) {
                Some(hash) => {
                    prev_hash = hash;
                },
                None => {
                    return Err(Error::InvalidHeader);
                },
            }
            proof {
                assert(headers@.take(i + 1) =~= headers@.take(i as int).push(headers@[i as int]));
                assert((self.headers@ + headers@.take(i + 1)).last() == headers@[i as int]);
            }
            i += 1;
        }
        let (kept, base) = self.window_with(headers);
        proof {
            if linked(self.headers@) {
                lemma_extension_linked(self.headers@, self.base_height, self.config, headers@);
                lemma_skip_linked(
                    self.headers@ + headers@,
                    dropped(self.headers@.len() + headers@.len(), self.config.max_length) as int,
                );
            }
        }
        proof {
            if adjusted(self.headers@, self.base_height, self.config) {
                lemma_extension_adjusted(self.headers@, self.base_height, self.config, headers@);
                lemma_skip_adjusted(
                    self.headers@ + headers@,
                    self.base_height,
                    self.config,
                    dropped(self.headers@.len() + headers@.len(), self.config.max_length) as int,
                );
            }
        }
        self.base_height = base;
        self.headers = kept;
        Ok(())
    }
}

/// A linked chain stays linked when headers that may follow are added.
pub proof fn lemma_extension_linked(chain: Seq<Header>, base: u32, config: Config, headers: Seq<Header>)
    requires
        linked(chain),
        valid_extension(chain, base, config, headers),
    ensures
        linked(chain + headers),
{
    reveal(valid_next);
    let all = chain + headers;
    assert forall|i: int| 1 <= i < all.len() implies (#[trigger] all[i]).prev_blockhash@ == block_hash(
        all[i - 1],
    ) && meets_target(all[i]) by {
        if i < chain.len() {
            assert(chain[i].prev_blockhash@ == block_hash(chain[i - 1]));
        } else {
            let k = i - chain.len();
            assert(valid_next(chain + headers.take(k), base, config, headers[k]));
            assert((chain + headers.take(k)).last() == all[i - 1]);
        }
    }
}

/// An adjusted chain stays adjusted when headers that may follow are added.
pub proof fn lemma_extension_adjusted(chain: Seq<Header>, base: u32, config: Config, headers: Seq<Header>)
    requires
        adjusted(chain, base, config),
        valid_extension(chain, base, config, headers),
    ensures
        adjusted(chain + headers, base, config),
{
    reveal(valid_next);
    let all = chain + headers;
    assert forall|i: int| 1 <= i < all.len() implies (expected_bits(all.take(i), base, config) matches Some(
        bits,
    ) ==> (#[trigger] all[i]).bits == bits) by {
        if i < chain.len() {
            assert(all.take(i) =~= chain.take(i));
            assert(all[i] == chain[i]);
        } else {
            let k = i - chain.len();
            assert(all.take(i) =~= chain + headers.take(k));
            assert(valid_next(chain + headers.take(k), base, config, headers[k]));
        }
    }
}

/// An adjusted chain without its oldest headers is adjusted.
pub proof fn lemma_skip_adjusted(chain: Seq<Header>, base: u32, config: Config, n: int)
    requires
        config.wf(),
        adjusted(chain, base, config),
        0 <= n <= chain.len(),
        base + n <= u32::MAX,
    ensures
        adjusted(chain.skip(n), (base + n) as u32, config),
{
    let rest = chain.skip(n);
    let moved = (base + n) as u32;
    assert forall|i: int| 1 <= i < rest.len() implies (expected_bits(rest.take(i), moved, config) matches Some(
        bits,
    ) ==> (#[trigger] rest[i]).bits == bits) by {
        let short = rest.take(i);
        let long = chain.take(n + i);
        assert(short.last() == long.last());
        assert(rest[i] == chain[n + i]);
        if expected_bits(short, moved, config) is Some {
            assert(short.len() == i && long.len() == n + i);
            if (moved + short.len()) % config.retarget_interval as int == 0 {
                assert(short.len() >= config.retarget_interval);
                let back: int = i - config.retarget_interval as int;
                assert(0 <= back < i);
                assert(short[back] == rest[back]);
                assert(rest[back] == chain[n + back]);
                assert(long[n + back] == chain[n + back]);
            }
            assert(expected_bits(short, moved, config) == expected_bits(long, base, config));
        }
    }
}

/// A linked chain without its oldest headers is linked.
pub proof fn lemma_skip_linked(chain: Seq<Header>, n: int)
    requires
        linked(chain),
        0 <= n <= chain.len(),
    ensures
        linked(chain.skip(n)),
{
    let rest = chain.skip(n);
    assert forall|i: int| 1 <= i < rest.len() implies (#[trigger] rest[i]).prev_blockhash@ == block_hash(
        rest[i - 1],
    ) && meets_target(rest[i]) by {
        assert(chain[i + n].prev_blockhash@ == block_hash(chain[i + n - 1]));
    }
}

/// After headers were accepted, each of them that the window still retains
/// is found at its height: the header at place `i` stands at the height of
/// the old tip plus one plus `i`. The last of them is always retained.
pub proof fn lemma_accepted_headers_are_found(
    chain: Seq<Header>,
    base: u32,
    config: Config,
    headers: Seq<Header>,
    i: int,
)
    requires
        config.wf(),
        chain.len() >= 1,
        accepts(chain, base, config, headers),
        0 <= i < headers.len(),
    ensures
        ({
            let gone = dropped(chain.len() + headers.len(), config.max_length);
            let window = extended(chain, config.max_length, headers);
            let height = base + chain.len() + i;
            &&& base + gone <= u32::MAX
            &&& height <= u32::MAX
            &&& height >= base + gone ==> lookup(window, (base + gone) as u32, height as u32) == Some(
                headers[i],
            )
            &&& i == headers.len() - 1 ==> height >= base + gone
        }),
{
}

/// Headers of which one does not name the hash of its predecessor, or misses
/// the target of its bits, are not accepted.
pub proof fn lemma_violation_is_refused(
    chain: Seq<Header>,
    base: u32,
    config: Config,
    headers: Seq<Header>,
    i: int,
)
    requires
        chain.len() >= 1,
        0 <= i < headers.len(),
        !meets_target(headers[i]) || headers[i].prev_blockhash@ != block_hash(
            if i == 0 {
                chain.last()
            } else {
                headers[i - 1]
            },
        ),
    ensures
        !accepts(chain, base, config, headers),
{
    reveal(valid_next);
    if i > 0 {
        assert((chain + headers.take(i)).last() == headers[i - 1]);
    } else {
        assert(chain + headers.take(0) =~= chain);
    }
    assert(!valid_next(chain + headers.take(i), base, config, headers[i]));
}

} // verus!
