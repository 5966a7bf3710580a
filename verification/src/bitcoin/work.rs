//! Block headers, their hashes and their work targets.

use vstd::prelude::*;
use crate::bytes::extend;

verus! {

/// A Bitcoin block header.
#[derive(Clone, Copy, Debug)]
pub struct Header {
    /// The protocol version, as the unsigned number that its four bytes stand for.
    pub version: u32,
    /// The hash of the previous header.
    pub prev_blockhash: [u8; 32],
    /// The root of the merkle tree of the block's transactions.
    pub merkle_root: [u8; 32],
    /// The time that the miner claims, in seconds.
    pub time: u32,
    /// The work target in compact form.
    pub bits: u32,
    /// The nonce.
    pub nonce: u32,
}

/// The length of an encoded header.
pub const HEADER_LENGTH: usize = 80;

/// Two to the power 256.
pub open spec fn two_256() -> int {
    0x1_0000_0000_0000_0000_0000_0000_0000_0000_0000_0000_0000_0000_0000_0000_0000_0000int
}

/// The four bytes of `n`, least significant first.
pub open spec fn le32(n: u32) -> Seq<u8> {
    seq![
        (n % 0x100) as u8,
        (n / 0x100 % 0x100) as u8,
        (n / 0x1_0000 % 0x100) as u8,
        (n / 0x100_0000) as u8,
    ]
}

/// The number that four bytes stand for, least significant first.
pub open spec fn from_le32(b: Seq<u8>) -> int {
    b[0] + b[1] * 0x100 + b[2] * 0x1_0000 + b[3] * 0x100_0000
}

/// The 80 bytes of a header: version, previous hash, merkle root, time, bits
/// and nonce, each number least significant byte first.
pub open spec fn header_bytes(h: Header) -> Seq<u8> {
    le32(h.version) + h.prev_blockhash@ + h.merkle_root@ + le32(h.time) + le32(h.bits) + le32(h.nonce)
}

/// The number that the bytes stand for, most significant first.
pub open spec fn be_value(bytes: Seq<u8>) -> nat
    decreases bytes.len(),
{
    if bytes.len() == 0 {
        0
    } else {
        be_value(bytes.drop_last()) * 256 + bytes.last() as nat
    }
}

/// The bytes in the opposite order.
pub open spec fn reversed(bytes: Seq<u8>) -> Seq<u8> {
    Seq::new(bytes.len(), |i: int| bytes[bytes.len() - 1 - i])
}

/// 256 to the power `k`.
pub open spec fn pow256(k: nat) -> nat
    decreases k,
{
    if k == 0 {
        1
    } else {
        256 * pow256((k - 1) as nat)
    }
}

/// The target that compact bits stand for. The highest byte is an exponent
/// and the low three bytes a mantissa: the target is the mantissa times 256
/// to the power of the exponent less three, cut to 256 bits. A mantissa with
/// its sign bit set stands for zero.
#[verifier::opaque]
pub open spec fn compact_target(bits: u32) -> nat {
    let exponent = (bits / 0x100_0000) as nat;
    let mantissa = (bits % 0x100_0000) as nat;
    if exponent <= 3 {
        let shifted = mantissa / pow256((3 - exponent) as nat);
        if shifted > 0x7f_ffff {
            0
        } else {
            shifted
        }
    } else if mantissa > 0x7f_ffff {
        0
    } else {
        ((mantissa * pow256((exponent - 3) as nat)) as int % two_256()) as nat
    }
}

/// The double SHA-256 hash of the bytes.
pub uninterp spec fn sha256d(data: Seq<u8>) -> Seq<u8>;

/// The compact bits of a target.
pub uninterp spec fn compact_bits(target: nat) -> u32;

/// The hash of a header: the double SHA-256 hash of its 80 bytes.
pub open spec fn block_hash(h: Header) -> Seq<u8> {
    sha256d(header_bytes(h))
}

/// The number that a hash stands for: its bytes are the number's, least
/// significant first.
pub open spec fn hash_value(hash: Seq<u8>) -> nat {
    be_value(reversed(hash))
}

/// Whether the header's hash is at most the target of its bits.
pub open spec fn meets_target(h: Header) -> bool {
    hash_value(block_hash(h)) <= compact_target(h.bits)
}

/// `sha256d::Hash::hash` of the `bitcoin` crate's hashes: the 32 bytes of the
/// double SHA-256 hash of the data.
#[verifier::external_body]
fn double_sha256(data: &[u8]) -> (r: [u8; 32])
    ensures
        r@ == sha256d(data@),
{
    <::bitcoin::hashes::sha256d::Hash as ::bitcoin::hashes::Hash>::into_inner(
        <::bitcoin::hashes::sha256d::Hash as ::bitcoin::hashes::Hash>::hash(data),
    )
}

/// `BlockHeader::u256_from_compact_target` of the `bitcoin` crate: the target
/// that the compact bits stand for, as 32 bytes, most significant first.
#[verifier::external_body]
pub(crate) fn target_from_bits(bits: u32) -> (r: [u8; 32])
    ensures
        be_value(r@) == compact_target(bits),
{
    ::bitcoin::BlockHeader::u256_from_compact_target(bits).to_be_bytes()
}

/// `BlockHeader::compact_target_from_u256` of the `bitcoin` crate: the compact
/// bits of the target that the 32 bytes hold, most significant first.
#[verifier::external_body]
pub(crate) fn bits_from_target(target: &[u8; 32]) -> (r: u32)
    ensures
        r == compact_bits(be_value(target@)),
{
    ::bitcoin::BlockHeader::compact_target_from_u256(
        &::bitcoin::util::uint::Uint256::from_be_bytes(*target),
    )
}

/// `Uint256::mul_u32` of the `bitcoin` crate: the product of the 256-bit
/// number and the factor, cut to 256 bits.
#[verifier::external_body]
pub(crate) fn scale_target(target: &[u8; 32], factor: u32) -> (r: [u8; 32])
    ensures
        be_value(r@) == (be_value(target@) * factor) as int % two_256(),
{
    ::bitcoin::util::uint::Uint256::from_be_bytes(*target).mul_u32(factor).to_be_bytes()
}

/// The division of the `bitcoin` crate's `Uint256`: the quotient of the
/// 256-bit number by the divisor, rounded down.
#[verifier::external_body]
pub(crate) fn divide_target(target: &[u8; 32], divisor: u32) -> (r: [u8; 32])
    requires
        divisor > 0,
    ensures
        be_value(r@) == be_value(target@) / divisor as nat,
{
    (::bitcoin::util::uint::Uint256::from_be_bytes(*target)
        / ::bitcoin::util::uint::Uint256::from_u64(divisor as u64).unwrap()).to_be_bytes()
}

/// Appends the four bytes of `n`, least significant first.
fn push_le32(out: &mut Vec<u8>, n: u32)
    ensures
        final(out)@ == old(out)@ + le32(n),
{
    out.push((n % 0x100) as u8);
    out.push((n / 0x100 % 0x100) as u8);
    out.push((n / 0x1_0000 % 0x100) as u8);
    out.push((n / 0x100_0000) as u8);
    assert(out@ =~= old(out)@ + le32(n));
}

/// The bytes of a number made of four bytes are those bytes.
pub proof fn lemma_bytes_of_number(a: u32, b: u32, c: u32, d: u32)
    requires
        a < 0x100,
        b < 0x100,
        c < 0x100,
        d < 0x100,
    ensures
        ({
            let r = a + b * 0x100 + c * 0x1_0000 + d * 0x100_0000;
            &&& r <= u32::MAX
            &&& r % 0x100 == a
            &&& r / 0x100 % 0x100 == b
            &&& r / 0x1_0000 % 0x100 == c
            &&& r / 0x100_0000 == d
        }),
{
    assert({
        let r = a + b * 0x100 + c * 0x1_0000 + d * 0x100_0000;
        &&& r <= 0xffff_ffff
        &&& r % 0x100 == a
        &&& r / 0x100 % 0x100 == b
        &&& r / 0x1_0000 % 0x100 == c
        &&& r / 0x100_0000 == d
    }) by (bit_vector)
        requires
            a < 0x100,
            b < 0x100,
            c < 0x100,
            d < 0x100,
    ;
}

/// A number is made of its four bytes.
pub proof fn lemma_number_of_bytes(n: u32)
    ensures
        n % 0x100 + (n / 0x100 % 0x100) * 0x100 + (n / 0x1_0000 % 0x100) * 0x1_0000 + (n / 0x100_0000)
            * 0x100_0000 == n,
        n % 0x100 < 0x100,
        n / 0x100 % 0x100 < 0x100,
        n / 0x1_0000 % 0x100 < 0x100,
        n / 0x100_0000 < 0x100,
{
    assert(n % 0x100 + (n / 0x100 % 0x100) * 0x100 + (n / 0x1_0000 % 0x100) * 0x1_0000 + (n
        / 0x100_0000) * 0x100_0000 == n) by (bit_vector);
    assert(n % 0x100 < 0x100) by (bit_vector);
    assert(n / 0x100 % 0x100 < 0x100) by (bit_vector);
    assert(n / 0x1_0000 % 0x100 < 0x100) by (bit_vector);
    assert(n / 0x100_0000 < 0x100) by (bit_vector);
}

/// Four bytes are the bytes of the number they stand for.
proof fn lemma_le32_of_bytes(b0: u8, b1: u8, b2: u8, b3: u8)
    ensures
        0 <= b0 + b1 * 0x100 + b2 * 0x1_0000 + b3 * 0x100_0000 <= u32::MAX,
        le32((b0 + b1 * 0x100 + b2 * 0x1_0000 + b3 * 0x100_0000) as u32) == seq![b0, b1, b2, b3],
{
    lemma_bytes_of_number(b0 as u32, b1 as u32, b2 as u32, b3 as u32);
    let r: int = b0 + b1 * 0x100 + b2 * 0x1_0000 + b3 * 0x100_0000;
    assert(le32(r as u32) =~= seq![b0, b1, b2, b3]);
}

/// Reads four bytes at `at` as a number, least significant first.
fn read_le32(bytes: &[u8], at: usize) -> (r: u32)
    requires
        at + 4 <= bytes.len(),
    ensures
        r == from_le32(bytes@.subrange(at as int, at + 4)),
        le32(r) == bytes@.subrange(at as int, at + 4),
{
    let b0 = bytes[at];
    let b1 = bytes[at + 1];
    let b2 = bytes[at + 2];
    let b3 = bytes[at + 3];
    proof {
        lemma_le32_of_bytes(b0, b1, b2, b3);
        assert(bytes@.subrange(at as int, at + 4) =~= seq![b0, b1, b2, b3]);
    }
    b0 as u32 + b1 as u32 * 0x100 + b2 as u32 * 0x1_0000 + b3 as u32 * 0x100_0000
}

/// Reads 32 bytes at `at`.
fn read_hash(bytes: &[u8], at: usize) -> (r: [u8; 32])
    requires
        at + 32 <= bytes.len(),
    ensures
        r@ == bytes@.subrange(at as int, at + 32),
{
    let mut r = [0u8; 32];
    let mut i: usize = 0;
    while i < 32
        invariant
            i <= 32,
            at + 32 <= bytes.len(),
            forall|j: int| 0 <= j < i ==> r@[j] == bytes@[at + j],
        decreases 32 - i,
    {
        r[i] = bytes[at + i];
        i += 1;
    }
    assert(r@ =~= bytes@.subrange(at as int, at + 32));
    r
}

impl Header {
    /// The 80 bytes of the header.
    pub fn encode(&self) -> (r: Vec<u8>)
        ensures
            r@ == header_bytes(*self),
            r@.len() == HEADER_LENGTH,
    {
        let mut out: Vec<u8> = Vec::new();
        push_le32(&mut out, self.version);
        extend(&mut out, &self.prev_blockhash);
        extend(&mut out, &self.merkle_root);
        push_le32(&mut out, self.time);
        push_le32(&mut out, self.bits);
        push_le32(&mut out, self.nonce);
        out
    }

    /// The header that the bytes encode, if they are 80.
    pub fn decode(bytes: &[u8]) -> (r: Option<Header>)
        ensures
            r is Some <==> bytes@.len() == HEADER_LENGTH,
            r matches Some(h) ==> header_bytes(h) == bytes@,
    {
        if bytes.len() != HEADER_LENGTH {
            return None;
        }
        let h = Header {
            version: read_le32(bytes, 0),
            prev_blockhash: read_hash(bytes, 4),
            merkle_root: read_hash(bytes, 36),
            time: read_le32(bytes, 68),
            bits: read_le32(bytes, 72),
            nonce: read_le32(bytes, 76),
        };
        assert(header_bytes(h) =~= bytes@);
        Some(h)
    }

    /// The hash of the header.
    pub fn block_hash(&self) -> (r: [u8; 32])
        ensures
            r@ == block_hash(*self),
    {
        let bytes = self.encode();
        double_sha256(bytes.as_slice())
    }

    /// Whether the header's hash is at most the target of its bits.
    pub fn validate_pow(&self) -> (r: bool)
        ensures
            r == meets_target(*self),
    {
        let hash = self.block_hash();
        hash_at_most(&hash, &target_from_bits(self.bits))
    }
}

/// The header's fields are those that its bytes hold: two headers with the
/// same bytes are the same header.
pub proof fn lemma_header_bytes_injective(a: Header, b: Header)
    requires
        header_bytes(a) == header_bytes(b),
    ensures
        a == b,
{
    lemma_header_fields(a);
    lemma_header_fields(b);
    assert(a.prev_blockhash =~= b.prev_blockhash);
    assert(a.merkle_root =~= b.merkle_root);
}

/// Four bytes and the number they stand for determine each other.
pub proof fn lemma_le32_round_trip(n: u32)
    ensures
        le32(n).len() == 4,
        from_le32(le32(n)) == n,
{
    lemma_number_of_bytes(n);
}

/// Where each field lies in the bytes of a header.
pub proof fn lemma_header_fields(h: Header)
    ensures
        header_bytes(h).len() == HEADER_LENGTH,
        h.version == from_le32(header_bytes(h).subrange(0, 4)),
        h.prev_blockhash@ == header_bytes(h).subrange(4, 36),
        h.merkle_root@ == header_bytes(h).subrange(36, 68),
        h.time == from_le32(header_bytes(h).subrange(68, 72)),
        h.bits == from_le32(header_bytes(h).subrange(72, 76)),
        h.nonce == from_le32(header_bytes(h).subrange(76, 80)),
{
    let b = header_bytes(h);
    lemma_le32_round_trip(h.version);
    lemma_le32_round_trip(h.time);
    lemma_le32_round_trip(h.bits);
    lemma_le32_round_trip(h.nonce);
    assert(b.subrange(0, 4) =~= le32(h.version));
    assert(b.subrange(4, 36) =~= h.prev_blockhash@);
    assert(b.subrange(36, 68) =~= h.merkle_root@);
    assert(b.subrange(68, 72) =~= le32(h.time));
    assert(b.subrange(72, 76) =~= le32(h.bits));
    assert(b.subrange(76, 80) =~= le32(h.nonce));
}

/// Whether the number that `a` holds is at most the number that `b` holds,
/// both most significant byte first.
pub fn be_at_most(a: &[u8; 32], b: &[u8; 32]) -> (r: bool)
    ensures
        r == (be_value(a@) <= be_value(b@)),
{
    // 0: the prefix of a is less; 1: the prefixes are equal; 2: it is greater
    let mut state: u8 = 1;
    let mut i: usize = 0;
    assert(a@.take(0) =~= Seq::<u8>::empty());
    assert(b@.take(0) =~= Seq::<u8>::empty());
    while i < 32
        invariant
            i <= 32,
            state <= 2,
            state == 0 ==> be_value(a@.take(i as int)) < be_value(b@.take(i as int)),
            state == 1 ==> be_value(a@.take(i as int)) == be_value(b@.take(i as int)),
            state == 2 ==> be_value(a@.take(i as int)) > be_value(b@.take(i as int)),
        decreases 32 - i,
    {
        let x = a[i];
        let y = b[i];
        proof {
            assert(a@.take(i + 1).drop_last() =~= a@.take(i as int));
            assert(b@.take(i + 1).drop_last() =~= b@.take(i as int));
            assert(a@.take(i + 1).last() == x);
            assert(b@.take(i + 1).last() == y);
        }
        if state == 1 {
            if x < y {
                state = 0;
            } else if x > y {
                state = 2;
            }
        }
        i += 1;
    }
    assert(a@.take(32) =~= a@);
    assert(b@.take(32) =~= b@);
    state != 2
}

/// The bytes in the opposite order.
pub fn reverse(bytes: &[u8; 32]) -> (r: [u8; 32])
    ensures
        r@ == reversed(bytes@),
{
    let mut r = [0u8; 32];
    let mut i: usize = 0;
    while i < 32
        invariant
            i <= 32,
            forall|j: int| 0 <= j < i ==> r@[j] == bytes@[31 - j],
        decreases 32 - i,
    {
        r[i] = bytes[31 - i];
        i += 1;
    }
    assert(r@ =~= reversed(bytes@));
    r
}

/// Whether the number of the hash is at most the number that `target` holds,
/// most significant byte first.
pub fn hash_at_most(hash: &[u8; 32], target: &[u8; 32]) -> (r: bool)
    ensures
        r == (hash_value(hash@) <= be_value(target@)),
{
    let flipped = reverse(hash);
    be_at_most(&flipped, target)
}

} // verus!
