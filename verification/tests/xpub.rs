use bitcoin::secp256k1::{PublicKey, Secp256k1, SecretKey};
use nomic::bitcoin::xpub::{DecodeError, ExtendedPubKey, Network, XPUB_LENGTH};
use nomic::bitcoin::Xpub;
use std::str::FromStr;

fn public_key(seed: u8) -> [u8; 33] {
    let secp = Secp256k1::new();
    let secret = SecretKey::from_slice(&[seed; 32]).unwrap();
    PublicKey::from_secret_key(&secp, &secret).serialize()
}

fn key(network: Network, seed: u8) -> ExtendedPubKey {
    ExtendedPubKey {
        network,
        depth: 3,
        parent_fingerprint: [0xde, 0xad, 0xbe, 0xef],
        child_number: 0x8000_002c,
        public_key: public_key(seed),
        chain_code: [seed; 32],
    }
}

fn same(a: &ExtendedPubKey, b: &ExtendedPubKey) -> bool {
    a.network == b.network
        && a.depth == b.depth
        && a.parent_fingerprint == b.parent_fingerprint
        && a.child_number == b.child_number
        && a.public_key == b.public_key
        && a.chain_code == b.chain_code
}

#[test]
fn encoding_lays_the_fields_out() {
    let xpub = Xpub::new(key(Network::Bitcoin, 1)).unwrap();
    let bytes = xpub.encode();
    assert_eq!(bytes.len(), XPUB_LENGTH);
    assert_eq!(xpub.encoding_length(), 78);
    assert_eq!(&bytes[0..4], &[0x04, 0x88, 0xb2, 0x1e]);
    assert_eq!(bytes[4], 3);
    assert_eq!(&bytes[5..9], &[0xde, 0xad, 0xbe, 0xef]);
    assert_eq!(&bytes[9..13], &[0x80, 0x00, 0x00, 0x2c]);
    assert_eq!(&bytes[13..45], &[1u8; 32]);
    assert_eq!(&bytes[45..78], &public_key(1));
}

#[test]
fn encoding_then_decoding_gives_the_key_back() {
    for network in [Network::Bitcoin, Network::Testnet] {
        for seed in [1u8, 2, 77] {
            let given = key(network, seed);
            let bytes = Xpub::new(given).unwrap().encode();
            let decoded = Xpub::decode(&bytes).unwrap();
            assert!(same(decoded.deref(), &given));
            assert_eq!(decoded.encode(), bytes);
        }
    }
}

#[test]
fn test_networks_share_their_version_bytes() {
    let bytes = Xpub::new(key(Network::Regtest, 5)).unwrap().encode();
    assert_eq!(&bytes[0..4], &[0x04, 0x35, 0x87, 0xcf]);
    assert_eq!(bytes, Xpub::new(key(Network::Signet, 5)).unwrap().encode());
    let decoded = Xpub::decode(&bytes).unwrap();
    assert_eq!(decoded.deref().network, Network::Testnet);
}

#[test]
fn a_known_key_decodes_to_its_fields() {
    let text = "xpub661MyMwAqRbcFtXgS5sYJABqqG9YLmC4Q1Rdap9gSE8NqtwybGhePY2gZ29ESFjqJoCu1Rupje8YtGqsefD265TMg7usUDFdp6W1EGMcet8";
    let theirs = bitcoin::util::bip32::ExtendedPubKey::from_str(text).unwrap();
    let bytes = theirs.encode();
    let ours = Xpub::decode(&bytes).unwrap();
    assert_eq!(ours.deref().network, Network::Bitcoin);
    assert_eq!(ours.deref().depth, 0);
    assert_eq!(ours.deref().parent_fingerprint, [0, 0, 0, 0]);
    assert_eq!(ours.deref().child_number, 0);
    assert_eq!(ours.deref().public_key, theirs.public_key.serialize());
    assert_eq!(&ours.deref().chain_code[..], &theirs.chain_code[..]);
    assert_eq!(ours.encode(), bytes);
}

#[test]
fn encode_into_appends_the_fixed_width() {
    let xpub = Xpub::new(key(Network::Testnet, 9)).unwrap();
    let mut dest = vec![1u8, 2, 3];
    xpub.encode_into(&mut dest);
    assert_eq!(dest.len(), 81);
    assert_eq!(&dest[..3], &[1, 2, 3]);
    assert_eq!(&dest[3..], &xpub.encode()[..]);
}

#[test]
fn decoding_reads_78_bytes_and_no_more() {
    let xpub = Xpub::new(key(Network::Bitcoin, 4)).unwrap();
    let mut bytes = xpub.encode().to_vec();
    bytes.extend_from_slice(&[0xaa; 10]);
    let decoded = Xpub::decode(&bytes).unwrap();
    assert!(same(decoded.deref(), &key(Network::Bitcoin, 4)));
}

#[test]
fn decoding_refuses_what_is_no_key() {
    let bytes = Xpub::new(key(Network::Bitcoin, 4)).unwrap().encode();
    assert!(matches!(Xpub::decode(&bytes[..77]), Err(DecodeError::UnexpectedEof)));
    assert!(matches!(Xpub::decode(&[]), Err(DecodeError::UnexpectedEof)));
    let mut version = bytes;
    version[3] = 0x1f;
    assert!(matches!(Xpub::decode(&version), Err(DecodeError::UnexpectedByte(32))));
    let mut point = bytes;
    point[45] = 0x05;
    assert!(matches!(Xpub::decode(&point), Err(DecodeError::UnexpectedByte(32))));
    assert!(matches!(Xpub::decode(&[0u8; 78]), Err(DecodeError::UnexpectedByte(32))));
}

#[test]
fn a_key_needs_a_point_of_the_curve() {
    let mut bad = key(Network::Bitcoin, 1);
    bad.public_key = [0u8; 33];
    assert!(Xpub::new(bad).is_none());
    let mut uncompressed_tag = key(Network::Bitcoin, 1);
    uncompressed_tag.public_key[0] = 0x04;
    assert!(Xpub::new(uncompressed_tag).is_none());
    assert!(Xpub::new(key(Network::Bitcoin, 1)).is_some());
}
