//! Extended public keys and their fixed-width binary form.

use vstd::prelude::*;
use crate::bitcoin::work::{lemma_bytes_of_number, lemma_number_of_bytes};

verus! {

/// The length of an encoded extended public key.
pub const XPUB_LENGTH: usize = 78;

/// The network that a key is meant for.
#[derive(Clone, Copy, Debug, PartialEq, Eq, Structural)]
pub enum Network {
    Bitcoin,
    Testnet,
    Signet,
    Regtest,
}

/// The fields of an extended public key.
#[derive(Clone, Copy, Debug)]
pub struct ExtendedPubKey {
    /// The network this key is to be used on.
    pub network: Network,
    /// How many derivations this key is from the master key.
    pub depth: u8,
    /// The fingerprint of the parent key.
    pub parent_fingerprint: [u8; 4],
    /// The child number, with the hardened flag in its highest bit.
    pub child_number: u32,
    /// The public key, as a compressed curve point.
    pub public_key: [u8; 33],
    /// The chain code.
    pub chain_code: [u8; 32],
}

/// Whether 33 bytes are the compressed form of a point of the curve secp256k1.
pub uninterp spec fn valid_public_key(bytes: Seq<u8>) -> bool;

/// The version bytes that open the encoding of a key of the network.
/// Every network but the main one shares those of the test network.
pub open spec fn version_bytes(network: Network) -> Seq<u8> {
    match network {
        Network::Bitcoin => seq![0x04u8, 0x88u8, 0xB2u8, 0x1Eu8],
        _ => seq![0x04u8, 0x35u8, 0x87u8, 0xCFu8],
    }
}

/// The four bytes of `n`, most significant first.
pub open spec fn be32(n: u32) -> Seq<u8> {
    seq![
        (n / 0x100_0000) as u8,
        (n / 0x1_0000 % 0x100) as u8,
        (n / 0x100 % 0x100) as u8,
        (n % 0x100) as u8,
    ]
}

/// The number that four bytes stand for, most significant first.
pub open spec fn from_be32(b: Seq<u8>) -> int {
    b[0] * 0x100_0000 + b[1] * 0x1_0000 + b[2] * 0x100 + b[3]
}

/// The 78 bytes that encode a key: version, depth, parent fingerprint, child
/// number, chain code, public key.
pub open spec fn encoding(key: ExtendedPubKey) -> Seq<u8> {
    version_bytes(key.network) + seq![key.depth] + key.parent_fingerprint@ + be32(key.child_number)
        + key.chain_code@ + key.public_key@
}

/// Whether the bytes encode a key: 78 bytes that open with the version bytes
/// of the main or of the test network and end with a point of the curve.
pub open spec fn decodable(bytes: Seq<u8>) -> bool {
    &&& bytes.len() == XPUB_LENGTH
    &&& (bytes.subrange(0, 4) == version_bytes(Network::Bitcoin) || bytes.subrange(0, 4)
        == version_bytes(Network::Testnet))
    &&& valid_public_key(bytes.subrange(45, 78))
}

/// Whether `key` is the key that the decodable bytes encode.
pub open spec fn decodes_to(bytes: Seq<u8>, key: ExtendedPubKey) -> bool {
    &&& key.network == if bytes.subrange(0, 4) == version_bytes(Network::Bitcoin) {
        Network::Bitcoin
    } else {
        Network::Testnet
    }
    &&& key.depth == bytes[4]
    &&& key.parent_fingerprint@ == bytes.subrange(5, 9)
    &&& key.child_number == from_be32(bytes.subrange(9, 13))
    &&& key.chain_code@ == bytes.subrange(13, 45)
    &&& key.public_key@ == bytes.subrange(45, 78)
}

/// Why bytes were not decoded.
#[derive(Clone, Copy, Debug, PartialEq, Eq, Structural)]
pub enum DecodeError {
    /// The input ended before the fixed width was read.
    UnexpectedEof,
    /// The bytes read are not an encoding; the number stands for the position reported.
    UnexpectedByte(u8),
}

/// `secp256k1::PublicKey::from_slice`, which accepts 33 bytes exactly when
/// they are the compressed form of a point of the curve.
#[verifier::external_body]
pub(crate) fn is_public_key(bytes: &[u8; 33]) -> (ok: bool)
    ensures
        ok == valid_public_key(bytes@),
{
    ::bitcoin::secp256k1::PublicKey::from_slice(bytes).is_ok()
}

/// `ExtendedPubKey::encode` of the `bitcoin` crate, which lays the fields out
/// in 78 bytes: version, depth, parent fingerprint, child number most
/// significant byte first, chain code, public key in compressed form.
#[verifier::external_body]
pub(crate) fn encode_key(key: &ExtendedPubKey) -> (bytes: [u8; 78])
    requires
        valid_public_key(key.public_key@),
    ensures
        bytes@ == encoding(*key),
{
    ::bitcoin::util::bip32::ExtendedPubKey {
        network: match key.network {
            Network::Bitcoin => ::bitcoin::Network::Bitcoin,
            Network::Testnet => ::bitcoin::Network::Testnet,
            Network::Signet => ::bitcoin::Network::Signet,
            Network::Regtest => ::bitcoin::Network::Regtest,
        },
        depth: key.depth,
        parent_fingerprint: ::bitcoin::util::bip32::Fingerprint::from(&key.parent_fingerprint[..]),
        child_number: ::bitcoin::util::bip32::ChildNumber::from(key.child_number),
        public_key: ::bitcoin::secp256k1::PublicKey::from_slice(&key.public_key).unwrap(),
        chain_code: ::bitcoin::util::bip32::ChainCode::from(&key.chain_code[..]),
    }.encode()
}

/// `ExtendedPubKey::decode` of the `bitcoin` crate, which accepts 78 bytes
/// that open with the version bytes of the main or the test network and end
/// with a point of the curve, and reads the fields from their places.
#[verifier::external_body]
pub(crate) fn decode_key(bytes: &[u8]) -> (r: Option<ExtendedPubKey>)
    ensures
        r is Some <==> decodable(bytes@),
        r matches Some(key) ==> decodes_to(bytes@, key),
{
    let k = ::bitcoin::util::bip32::ExtendedPubKey::decode(bytes).ok()?;
    Some(ExtendedPubKey {
        network: match k.network {
            ::bitcoin::Network::Bitcoin => Network::Bitcoin,
            ::bitcoin::Network::Testnet => Network::Testnet,
            ::bitcoin::Network::Signet => Network::Signet,
            ::bitcoin::Network::Regtest => Network::Regtest,
        },
        depth: k.depth,
        parent_fingerprint: k.parent_fingerprint.into_bytes(),
        child_number: u32::from(k.child_number),
        public_key: k.public_key.serialize(),
        chain_code: k.chain_code.into_bytes(),
    })
}

/// Four bytes and the number they stand for determine each other.
pub proof fn lemma_be32_round_trip(n: u32)
    ensures
        be32(n).len() == 4,
        from_be32(be32(n)) == n,
{
    lemma_number_of_bytes(n);
}

/// Encoding a key with a valid public key, of the main or the test network,
/// gives 78 bytes that decode, and they decode to that key and no other.
pub proof fn lemma_encoding_round_trip(key: ExtendedPubKey, other: ExtendedPubKey)
    requires
        valid_public_key(key.public_key@),
        key.network == Network::Bitcoin || key.network == Network::Testnet,
    ensures
        encoding(key).len() == XPUB_LENGTH,
        decodable(encoding(key)),
        decodes_to(encoding(key), key),
        decodes_to(encoding(key), other) ==> other == key,
{
    let e = encoding(key);
    lemma_encoding_parts(key);
    lemma_be32_round_trip(key.child_number);
    assert(version_bytes(Network::Bitcoin) != version_bytes(Network::Testnet)) by {
        assert(version_bytes(Network::Bitcoin)[1] == 0x88u8);
        assert(version_bytes(Network::Testnet)[1] == 0x35u8);
    }
    if decodes_to(e, other) {
        assert(other.parent_fingerprint =~= key.parent_fingerprint);
        assert(other.chain_code =~= key.chain_code);
        assert(other.public_key =~= key.public_key);
    }
}

/// Where each field lies in the encoding.
pub proof fn lemma_encoding_parts(key: ExtendedPubKey)
    ensures
        encoding(key).len() == XPUB_LENGTH,
        encoding(key).subrange(0, 4) == version_bytes(key.network),
        encoding(key)[4] == key.depth,
        encoding(key).subrange(5, 9) == key.parent_fingerprint@,
        encoding(key).subrange(9, 13) == be32(key.child_number),
        encoding(key).subrange(13, 45) == key.chain_code@,
        encoding(key).subrange(45, 78) == key.public_key@,
{
    let e = encoding(key);
    assert(version_bytes(key.network).len() == 4);
    assert(e.subrange(0, 4) =~= version_bytes(key.network));
    assert(e.subrange(5, 9) =~= key.parent_fingerprint@);
    assert(e.subrange(9, 13) =~= be32(key.child_number));
    assert(e.subrange(13, 45) =~= key.chain_code@);
    assert(e.subrange(45, 78) =~= key.public_key@);
}

/// Decodable bytes are the encoding of the key they decode to.
pub proof fn lemma_decoding_round_trip(bytes: Seq<u8>, key: ExtendedPubKey)
    requires
        decodable(bytes),
        decodes_to(bytes, key),
    ensures
        encoding(key) == bytes,
        valid_public_key(key.public_key@),
{
    let e = encoding(key);
    lemma_encoding_parts(key);
    let b = bytes.subrange(9, 13);
    assert(b[0] == bytes[9] && b[1] == bytes[10] && b[2] == bytes[11] && b[3] == bytes[12]);
    lemma_bytes_of_number(b[3] as u32, b[2] as u32, b[1] as u32, b[0] as u32);
    assert(be32(key.child_number) =~= b);
    assert forall|i: int| 0 <= i < 78 implies e[i] == bytes[i] by {
        if i < 4 {
            assert(e.subrange(0, 4)[i] == e[i]);
            assert(bytes.subrange(0, 4)[i] == bytes[i]);
        } else if i < 5 {
        } else if i < 9 {
            assert(e.subrange(5, 9)[i - 5] == e[i]);
            assert(bytes.subrange(5, 9)[i - 5] == bytes[i]);
        } else if i < 13 {
            assert(e.subrange(9, 13)[i - 9] == e[i]);
            assert(bytes.subrange(9, 13)[i - 9] == bytes[i]);
        } else if i < 45 {
            assert(e.subrange(13, 45)[i - 13] == e[i]);
            assert(bytes.subrange(13, 45)[i - 13] == bytes[i]);
        } else {
            assert(e.subrange(45, 78)[i - 45] == e[i]);
            assert(bytes.subrange(45, 78)[i - 45] == bytes[i]);
        }
    }
    assert(e =~= bytes);
}

} // verus!
