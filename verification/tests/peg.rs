use bitcoin::secp256k1::{PublicKey, Secp256k1, SecretKey};
use bitcoin::util::merkleblock::PartialMerkleTree;
use nomic::bitcoin::header_queue::{Config, HeaderQueue};
use nomic::bitcoin::ledger::{Accounts, Validators};
use nomic::bitcoin::transaction::{Transaction, TxOut};
use nomic::bitcoin::work::Header;
use nomic::bitcoin::xpub::{ExtendedPubKey, Network};
use nomic::bitcoin::{Bitcoin, Xpub};
use nomic::error::Error;

const DEST: [u8; 20] = [0xd0; 20];
const HEIGHT: u32 = 700_000;
const TIMEOUT: u64 = 5_000;

fn bytes32(bytes: &[u8]) -> [u8; 32] {
    let mut out = [0u8; 32];
    out.copy_from_slice(bytes);
    out
}

fn xpub(seed: u8) -> Xpub {
    let secp = Secp256k1::new();
    let secret = SecretKey::from_slice(&[seed; 32]).unwrap();
    Xpub::new(ExtendedPubKey {
        network: Network::Bitcoin,
        depth: 0,
        parent_fingerprint: [0; 4],
        child_number: 0,
        public_key: PublicKey::from_secret_key(&secp, &secret).serialize(),
        chain_code: [seed; 32],
    })
    .unwrap()
}

fn validators() -> Validators {
    let mut validators = Validators::new();
    validators.set([1; 20], [11; 32], 10);
    validators.set([2; 20], [12; 32], 20);
    validators
}

fn peg_with_root(merkle_root: [u8; 32]) -> Bitcoin {
    let config = Config { max_length: 8, retarget_interval: 4, target_timespan: 40, max_target_bits: 0x1f7f_ffff };
    let header = Header {
        version: 1,
        prev_blockhash: [0; 32],
        merkle_root,
        time: 1000,
        bits: 0x1f7f_ffff,
        nonce: 0,
    };
    let mut peg = Bitcoin::new(HeaderQueue::new(config, header, HEIGHT));
    assert_eq!(peg.set_signatory_key(Some([1; 20]), &validators(), xpub(1)), Ok(()));
    assert_eq!(peg.set_signatory_key(Some([2; 20]), &validators(), xpub(2)), Ok(()));
    assert_eq!(peg.init_chain(&validators().list(), TIMEOUT), Ok(()));
    peg
}

fn script_for(dest: &[u8; 20]) -> Vec<u8> {
    let peg = peg_with_root([0; 32]);
    let script = peg.checkpoint(0).unwrap().sigset.output_script(dest);
    script
}

fn deposit(outputs: Vec<(u64, Vec<u8>)>) -> (Vec<u8>, [u8; 32]) {
    let tx = bitcoin::Transaction {
        version: 2,
        lock_time: 0,
        input: vec![bitcoin::TxIn {
            previous_output: bitcoin::OutPoint::null(),
            script_sig: bitcoin::Script::new(),
            sequence: 0xffff_ffff,
            witness: bitcoin::Witness::default(),
        }],
        output: outputs
            .into_iter()
            .map(|(value, script)| bitcoin::TxOut { value, script_pubkey: bitcoin::Script::from(script) })
            .collect(),
    };
    (bitcoin::consensus::serialize(&tx), bytes32(&tx.txid()[..]))
}

fn proof_of(ids: &[[u8; 32]], matched: &[bool]) -> (Vec<u8>, [u8; 32]) {
    let txids: Vec<bitcoin::Txid> = ids
        .iter()
        .map(|id| bitcoin::consensus::deserialize::<bitcoin::Txid>(id).unwrap())
        .collect();
    let tree = PartialMerkleTree::from_txids(&txids, matched);
    let mut found = Vec::new();
    let mut indexes = Vec::new();
    let root = tree.extract_matches(&mut found, &mut indexes).unwrap();
    (bitcoin::consensus::serialize(&tree), bytes32(&root[..]))
}

struct Scenario {
    peg: Bitcoin,
    tx: Transaction,
    proof: Vec<u8>,
}

fn scenario() -> Scenario {
    let (raw, txid) = deposit(vec![(1_000, vec![0x51]), (70_000, script_for(&DEST))]);
    let (proof, root) = proof_of(&[txid], &[true]);
    assert_eq!(root, txid);
    let tx = Transaction::decode(&raw).unwrap();
    Scenario { peg: peg_with_root(root), tx, proof }
}

#[test]
fn a_transaction_is_decoded_with_its_id_and_outputs() {
    let (raw, txid) = deposit(vec![(1_000, vec![0x51]), (70_000, vec![1, 2, 3])]);
    let tx = Transaction::decode(&raw).unwrap();
    assert_eq!(tx.txid(), txid);
    assert_ne!(tx.txid().to_vec(), raw[..32].to_vec());
    assert_eq!(tx.output().len(), 2);
    assert_eq!(tx.output()[0].value, 1_000);
    assert_eq!(tx.output()[0].script_pubkey, vec![0x51]);
    assert_eq!(tx.output()[1].value, 70_000);
    assert_eq!(tx.output()[1].script_pubkey, vec![1, 2, 3]);
    assert!(Transaction::decode(&raw[..raw.len() - 1]).is_none());
    assert!(Transaction::decode(&[]).is_none());
    let mut longer = raw.clone();
    longer.push(0);
    assert!(Transaction::decode(&longer).is_none());
}

#[test]
fn a_deposit_is_credited_exactly_once() {
    let Scenario { mut peg, tx, proof } = scenario();
    assert_eq!(peg.balance(DEST), 0);
    assert_eq!(peg.relay_deposit(&tx, HEIGHT, &proof, 1, 0, DEST, 100), Ok(()));
    assert_eq!(peg.balance(DEST), 70_000);
    assert!(peg.processed_outpoints.contains((tx.txid(), 1)));
    assert_eq!(peg.processed_outpoints.expiry((tx.txid(), 1)), Some(TIMEOUT));
    assert_eq!(peg.relay_deposit(&tx, HEIGHT, &proof, 1, 0, DEST, 100), Err(Error::DuplicateOutpoint));
    assert_eq!(peg.balance(DEST), 70_000);
    assert_eq!(peg.relay_deposit(&tx, HEIGHT, &proof, 1, 0, DEST, TIMEOUT), Err(Error::DuplicateOutpoint));
    assert_eq!(peg.balance(DEST), 70_000);
    assert_eq!(peg.processed_outpoints.len(), 1);
}

#[test]
fn an_output_index_beyond_the_outputs_is_refused() {
    let Scenario { mut peg, tx, proof } = scenario();
    assert_eq!(peg.relay_deposit(&tx, HEIGHT, &proof, 2, 0, DEST, 100), Err(Error::VoutOutOfRange));
    assert_eq!(peg.relay_deposit(&tx, HEIGHT, &proof, u32::MAX, 0, DEST, 100), Err(Error::VoutOutOfRange));
    assert_eq!(peg.balance(DEST), 0);
    assert_eq!(peg.processed_outpoints.len(), 0);
    assert!(!peg.processed_outpoints.contains((tx.txid(), 2)));
    assert_eq!(peg.relay_deposit(&tx, HEIGHT, &proof, 1, 0, DEST, 100), Ok(()));
}

#[test]
fn a_deposit_at_an_unknown_height_is_refused() {
    let Scenario { mut peg, tx, proof } = scenario();
    assert_eq!(peg.relay_deposit(&tx, HEIGHT + 1, &proof, 1, 0, DEST, 100), Err(Error::UnknownHeight));
    assert_eq!(peg.relay_deposit(&tx, HEIGHT - 1, &proof, 1, 0, DEST, 100), Err(Error::UnknownHeight));
    assert_eq!(peg.relay_deposit(&tx, HEIGHT + 1, &[], 9, 9, DEST, u64::MAX), Err(Error::UnknownHeight));
    assert_eq!(peg.balance(DEST), 0);
}

#[test]
fn a_proof_that_does_not_lead_to_the_header_is_refused() {
    let Scenario { mut peg, tx, proof } = scenario();
    assert_eq!(peg.relay_deposit(&tx, HEIGHT, &[], 1, 0, DEST, 100), Err(Error::BadMerkleProof));
    assert_eq!(peg.relay_deposit(&tx, HEIGHT, &proof[..proof.len() - 1], 1, 0, DEST, 100), Err(Error::BadMerkleProof));
    let (other, _) = proof_of(&[[5u8; 32]], &[true]);
    assert_eq!(peg.relay_deposit(&tx, HEIGHT, &other, 1, 0, DEST, 100), Err(Error::BadMerkleProof));
    let (pair, _) = proof_of(&[tx.txid(), [5u8; 32]], &[true, false]);
    assert_eq!(peg.relay_deposit(&tx, HEIGHT, &pair, 1, 0, DEST, 100), Err(Error::BadMerkleProof));
    assert_eq!(peg.balance(DEST), 0);
    assert_eq!(peg.processed_outpoints.len(), 0);
}

#[test]
fn a_proof_must_match_the_transaction_alone() {
    let (raw, txid) = deposit(vec![(70_000, script_for(&DEST))]);
    let tx = Transaction::decode(&raw).unwrap();
    let (both, root) = proof_of(&[txid, [5u8; 32]], &[true, true]);
    let mut peg = peg_with_root(root);
    assert_eq!(peg.relay_deposit(&tx, HEIGHT, &both, 0, 0, DEST, 100), Err(Error::AmbiguousOrMismatchedProof));
    let (neither, same_root) = proof_of(&[txid, [5u8; 32]], &[false, false]);
    assert_eq!(same_root, root);
    assert_eq!(peg.relay_deposit(&tx, HEIGHT, &neither, 0, 0, DEST, 100), Err(Error::AmbiguousOrMismatchedProof));
    let (sibling, _) = proof_of(&[txid, [5u8; 32]], &[false, true]);
    assert_eq!(peg.relay_deposit(&tx, HEIGHT, &sibling, 0, 0, DEST, 100), Err(Error::AmbiguousOrMismatchedProof));
    assert_eq!(peg.balance(DEST), 0);
    let (only, _) = proof_of(&[txid, [5u8; 32]], &[true, false]);
    assert_eq!(peg.relay_deposit(&tx, HEIGHT, &only, 0, 0, DEST, 100), Ok(()));
    assert_eq!(peg.balance(DEST), 70_000);
}

#[test]
fn a_deposit_needs_its_checkpoint() {
    let Scenario { mut peg, tx, proof } = scenario();
    assert_eq!(peg.relay_deposit(&tx, HEIGHT, &proof, 1, 1, DEST, 100), Err(Error::NotFound));
    assert_eq!(peg.relay_deposit(&tx, HEIGHT, &proof, 1, u32::MAX, DEST, 100), Err(Error::NotFound));
    assert_eq!(peg.balance(DEST), 0);
}

#[test]
fn a_deposit_after_the_timeout_is_refused() {
    let Scenario { mut peg, tx, proof } = scenario();
    assert_eq!(peg.relay_deposit(&tx, HEIGHT, &proof, 1, 0, DEST, TIMEOUT + 1), Err(Error::DepositExpired));
    assert_eq!(peg.balance(DEST), 0);
    assert_eq!(peg.relay_deposit(&tx, HEIGHT, &proof, 1, 0, DEST, TIMEOUT), Ok(()));
}

#[test]
fn a_deposit_must_pay_to_the_script_of_the_destination() {
    let Scenario { mut peg, tx, proof } = scenario();
    assert_eq!(peg.relay_deposit(&tx, HEIGHT, &proof, 0, 0, DEST, 100), Err(Error::ScriptMismatch));
    assert_eq!(peg.relay_deposit(&tx, HEIGHT, &proof, 1, 0, [0xd1; 20], 100), Err(Error::ScriptMismatch));
    assert_eq!(peg.balance(DEST), 0);
    assert_eq!(peg.balance([0xd1; 20]), 0);
    assert_eq!(peg.processed_outpoints.len(), 0);
}

#[test]
fn a_balance_beyond_64_bits_is_refused() {
    let (raw, txid) = deposit(vec![(u64::MAX, script_for(&DEST)), (1, script_for(&DEST))]);
    let tx = Transaction::decode(&raw).unwrap();
    let (proof, root) = proof_of(&[txid], &[true]);
    let mut peg = peg_with_root(root);
    assert_eq!(peg.relay_deposit(&tx, HEIGHT, &proof, 1, 0, DEST, 100), Ok(()));
    assert_eq!(peg.relay_deposit(&tx, HEIGHT, &proof, 0, 0, DEST, 100), Err(Error::AmountOverflow));
    assert_eq!(peg.balance(DEST), 1);
    assert!(!peg.processed_outpoints.contains((txid, 0)));
}

#[test]
fn a_given_extraction_is_checked_like_a_proof() {
    let Scenario { mut peg, tx, proof: _ } = scenario();
    let id = tx.txid();
    assert_eq!(peg.credit_deposit(&tx, HEIGHT, None, 1, 0, DEST, 100), Err(Error::BadMerkleProof));
    assert_eq!(peg.credit_deposit(&tx, HEIGHT, Some(([1; 32], vec![id])), 1, 0, DEST, 100), Err(Error::BadMerkleProof));
    assert_eq!(peg.credit_deposit(&tx, HEIGHT, Some((id, vec![])), 1, 0, DEST, 100), Err(Error::AmbiguousOrMismatchedProof));
    assert_eq!(peg.credit_deposit(&tx, HEIGHT, Some((id, vec![id, id])), 1, 0, DEST, 100), Err(Error::AmbiguousOrMismatchedProof));
    assert_eq!(peg.credit_deposit(&tx, HEIGHT, Some((id, vec![[1; 32]])), 1, 0, DEST, 100), Err(Error::AmbiguousOrMismatchedProof));
    assert_eq!(peg.credit_deposit(&tx, HEIGHT, Some((id, vec![id])), 1, 0, DEST, 100), Ok(()));
    assert_eq!(peg.balance(DEST), 70_000);
}

#[test]
fn a_transaction_from_parts_is_relayed_like_a_decoded_one() {
    let script = script_for(&DEST);
    let tx = Transaction::from_parts([3; 32], vec![TxOut { value: 12, script_pubkey: script }]);
    let mut peg = peg_with_root([3; 32]);
    let (proof, _) = proof_of(&[[3; 32]], &[true]);
    assert_eq!(peg.relay_deposit(&tx, HEIGHT, &proof, 0, 0, DEST, 0), Ok(()));
    assert_eq!(peg.balance(DEST), 12);
    assert_eq!(peg.header(HEIGHT).unwrap().merkle_root, [3; 32]);
    assert!(peg.header(HEIGHT + 1).is_none());
}

#[test]
fn a_signatory_key_needs_a_signer_with_a_consensus_key() {
    let config = Config { max_length: 8, retarget_interval: 4, target_timespan: 40, max_target_bits: 0x1f7f_ffff };
    let header = Header { version: 1, prev_blockhash: [0; 32], merkle_root: [0; 32], time: 0, bits: 0, nonce: 0 };
    let mut peg = Bitcoin::new(HeaderQueue::new(config, header, 0));
    let validators = validators();
    assert_eq!(peg.set_signatory_key(Some([9; 20]), &validators, xpub(1)), Err(Error::NoConsensusKey));
    assert_eq!(peg.set_signatory_key(None, &validators, xpub(1)), Err(Error::Unauthorized));
    assert!(peg.signatory_key([11; 32]).is_none());
    assert_eq!(peg.set_signatory_key(Some([1; 20]), &validators, xpub(1)), Ok(()));
    assert_eq!(peg.signatory_key([11; 32]).unwrap().encode(), xpub(1).encode());
    assert!(peg.signatory_key([12; 32]).is_none());
    assert_eq!(peg.set_signatory_key(Some([1; 20]), &validators, xpub(5)), Ok(()));
    assert_eq!(peg.signatory_key([11; 32]).unwrap().encode(), xpub(5).encode());
}

#[test]
fn the_chain_starts_with_one_building_checkpoint() {
    let mut peg = peg_with_root([0; 32]);
    let first = peg.checkpoint(0).unwrap();
    assert_eq!(first.sigset.len(), 2);
    assert_eq!(first.sigset.present_vp(), 30);
    assert_eq!(first.sigset.deposit_timeout(), TIMEOUT);
    assert!(matches!(peg.checkpoint(1), Err(Error::NotFound)));
    assert_eq!(peg.current_sigset().unwrap().present_vp(), 30);
    assert_eq!(peg.init_chain(&validators().list(), TIMEOUT), Err(Error::InvalidCheckpointState));
    assert_eq!(peg.checkpoints.len(), 1);
}

#[test]
fn balances_and_validators_are_kept_by_address() {
    let mut accounts = Accounts::new();
    assert_eq!(accounts.balance([1; 20]), 0);
    assert_eq!(accounts.deposit([1; 20], 5), Ok(()));
    assert_eq!(accounts.deposit([1; 20], 6), Ok(()));
    assert_eq!(accounts.deposit([2; 20], u64::MAX), Ok(()));
    assert_eq!(accounts.deposit([2; 20], 1), Err(Error::AmountOverflow));
    assert_eq!(accounts.balance([1; 20]), 11);
    assert_eq!(accounts.balance([2; 20]), u64::MAX);
    let validators = validators();
    assert_eq!(validators.consensus_key([1; 20]), Some([11; 32]));
    assert_eq!(validators.consensus_key([3; 20]), None);
    assert_eq!(validators.voting_power([2; 20]), 20);
    assert_eq!(validators.voting_power([3; 20]), 0);
    assert_eq!(validators.list().len(), 2);
}

#[test]
fn validators_keep_the_order_in_which_they_were_set() {
    let mut validators = Validators::new();
    assert_eq!(validators.list().len(), 0);
    validators.set([5; 20], [15; 32], 50);
    validators.set([4; 20], [14; 32], 40);
    validators.set([5; 20], [16; 32], 60);
    let list = validators.list();
    assert_eq!(list.len(), 2);
    assert_eq!((list[0].consensus_key, list[0].power), ([16; 32], 60));
    assert_eq!((list[1].consensus_key, list[1].power), ([14; 32], 40));
    assert_eq!(validators.consensus_key([5; 20]), Some([16; 32]));
}
