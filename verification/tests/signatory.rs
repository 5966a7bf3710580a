use bitcoin::secp256k1::{PublicKey, Secp256k1, SecretKey};
use nomic::bitcoin::signatory::{SignatoryKeys, SignatorySet, Validator};
use nomic::bitcoin::xpub::{ExtendedPubKey, Network};
use nomic::bitcoin::Xpub;
use nomic::error::Error;

fn public_key(seed: u8) -> [u8; 33] {
    let secp = Secp256k1::new();
    let secret = SecretKey::from_slice(&[seed; 32]).unwrap();
    PublicKey::from_secret_key(&secp, &secret).serialize()
}

fn xpub(seed: u8) -> Xpub {
    Xpub::new(ExtendedPubKey {
        network: Network::Bitcoin,
        depth: 0,
        parent_fingerprint: [0; 4],
        child_number: 0,
        public_key: public_key(seed),
        chain_code: [seed; 32],
    })
    .unwrap()
}

fn validator(seed: u8, power: u64) -> Validator {
    Validator { consensus_key: [seed; 32], power }
}

#[test]
fn validators_without_a_key_are_left_out() {
    let mut keys = SignatoryKeys::new();
    keys.insert([1; 32], xpub(1));
    keys.insert([3; 32], xpub(3));
    let validators = vec![validator(1, 10), validator(2, 20), validator(3, 30)];
    let set = SignatorySet::from_validators(&validators, &keys, 500).unwrap();
    assert_eq!(set.len(), 2);
    assert_eq!(set.present_vp(), 40);
    assert_eq!(set.deposit_timeout(), 500);
    let first = set.get(0).unwrap();
    assert_eq!(first.consensus_key, [1; 32]);
    assert_eq!(first.pubkey, public_key(1));
    assert_eq!(first.voting_power, 10);
    let second = set.get(1).unwrap();
    assert_eq!(second.consensus_key, [3; 32]);
    assert_eq!(second.pubkey, public_key(3));
    assert_eq!(second.voting_power, 30);
    assert!(set.get(2).is_none());
}

#[test]
fn a_set_may_be_empty() {
    let keys = SignatoryKeys::new();
    let set = SignatorySet::from_validators(&vec![validator(1, 10)], &keys, 0).unwrap();
    assert_eq!(set.len(), 0);
    assert_eq!(set.present_vp(), 0);
    let mut expected = vec![0x08, 0, 0, 0, 0, 0, 0, 0, 0, 0xa0, 0x14];
    expected.extend_from_slice(&[7u8; 20]);
    expected.push(0x75);
    assert_eq!(set.output_script(&[7u8; 20]), expected);
}

#[test]
fn voting_power_beyond_64_bits_is_refused() {
    let mut keys = SignatoryKeys::new();
    keys.insert([1; 32], xpub(1));
    keys.insert([2; 32], xpub(2));
    let validators = vec![validator(1, u64::MAX), validator(2, 1), validator(3, u64::MAX)];
    assert!(matches!(
        SignatorySet::from_validators(&validators, &keys, 0),
        Err(Error::AmountOverflow)
    ));
    let fitting = vec![validator(1, u64::MAX - 1), validator(2, 1), validator(3, u64::MAX)];
    assert_eq!(SignatorySet::from_validators(&fitting, &keys, 0).unwrap().present_vp(), u64::MAX);
}

#[test]
fn a_later_key_replaces_an_earlier_one() {
    let mut keys = SignatoryKeys::new();
    assert!(keys.get([1; 32]).is_none());
    keys.insert([1; 32], xpub(1));
    assert_eq!(keys.get([1; 32]).unwrap().deref().public_key, public_key(1));
    keys.insert([1; 32], xpub(2));
    assert_eq!(keys.get([1; 32]).unwrap().deref().public_key, public_key(2));
    assert!(keys.get([2; 32]).is_none());
}

#[test]
fn the_script_holds_keys_weights_threshold_and_destination() {
    let mut keys = SignatoryKeys::new();
    keys.insert([1; 32], xpub(1));
    keys.insert([2; 32], xpub(2));
    let set = SignatorySet::from_validators(&vec![validator(1, 0x0102), validator(2, 5)], &keys, 0).unwrap();
    let mut expected = vec![0x21];
    expected.extend_from_slice(&public_key(1));
    expected.extend_from_slice(&[0xac, 0x63, 0x08, 0x02, 0x01, 0, 0, 0, 0, 0, 0, 0x67, 0x00, 0x68]);
    expected.extend_from_slice(&[0x7c, 0x21]);
    expected.extend_from_slice(&public_key(2));
    expected.extend_from_slice(&[0xac, 0x63, 0x08, 0x05, 0, 0, 0, 0, 0, 0, 0, 0x93, 0x68]);
    expected.extend_from_slice(&[0x08, 0xaf, 0, 0, 0, 0, 0, 0, 0, 0xa0]);
    expected.push(0x14);
    expected.extend_from_slice(&[9u8; 20]);
    expected.push(0x75);
    assert_eq!(set.output_script(&[9u8; 20]), expected);
}

#[test]
fn different_destinations_have_different_scripts() {
    let mut keys = SignatoryKeys::new();
    keys.insert([1; 32], xpub(1));
    let set = SignatorySet::from_validators(&vec![validator(1, 7)], &keys, 0).unwrap();
    let mut other = [9u8; 20];
    other[19] = 8;
    assert_ne!(set.output_script(&[9u8; 20]), set.output_script(&other));
    assert_eq!(set.output_script(&[9u8; 20]), set.output_script(&[9u8; 20]));
    let heavier = SignatorySet::from_validators(&vec![validator(1, 8)], &keys, 0).unwrap();
    assert_ne!(set.output_script(&[9u8; 20]), heavier.output_script(&[9u8; 20]));
}
