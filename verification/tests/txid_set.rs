use nomic::bitcoin::txid_set::OutpointSet;
use nomic::error::Error;

#[test]
fn an_outpoint_is_recorded_once_while_unexpired() {
    let mut set = OutpointSet::new();
    let outpoint = ([7u8; 32], 1);
    assert!(!set.contains(outpoint));
    assert_eq!(set.insert(outpoint, 100, 10), Ok(()));
    assert!(set.contains(outpoint));
    assert_eq!(set.expiry(outpoint), Some(100));
    assert_eq!(set.insert(outpoint, 200, 50), Err(Error::DuplicateOutpoint));
    assert_eq!(set.insert(outpoint, 200, 100), Err(Error::DuplicateOutpoint));
    assert_eq!(set.expiry(outpoint), Some(100));
    assert_eq!(set.len(), 1);
}

#[test]
fn an_expired_record_is_overwritten() {
    let mut set = OutpointSet::new();
    let outpoint = ([7u8; 32], 1);
    assert_eq!(set.insert(outpoint, 100, 10), Ok(()));
    assert!(set.is_blocked(outpoint, 100));
    assert!(!set.is_blocked(outpoint, 101));
    assert_eq!(set.insert(outpoint, 300, 101), Ok(()));
    assert_eq!(set.expiry(outpoint), Some(300));
    assert_eq!(set.len(), 1);
}

#[test]
fn outpoints_differ_by_id_and_by_index() {
    let mut set = OutpointSet::new();
    assert_eq!(set.insert(([7u8; 32], 1), 100, 10), Ok(()));
    assert_eq!(set.insert(([7u8; 32], 2), 100, 10), Ok(()));
    let mut other = [7u8; 32];
    other[31] = 8;
    assert_eq!(set.insert((other, 1), 100, 10), Ok(()));
    assert_eq!(set.len(), 3);
    assert!(!set.contains((other, 2)));
}

#[test]
fn pruning_drops_what_has_expired() {
    let mut set = OutpointSet::new();
    assert_eq!(set.insert(([1u8; 32], 0), 100, 0), Ok(()));
    assert_eq!(set.insert(([2u8; 32], 0), 200, 0), Ok(()));
    assert_eq!(set.insert(([3u8; 32], 0), 150, 0), Ok(()));
    set.prune(150);
    assert!(!set.contains(([1u8; 32], 0)));
    assert!(set.contains(([2u8; 32], 0)));
    assert!(set.contains(([3u8; 32], 0)));
    assert_eq!(set.len(), 2);
    set.prune(151);
    assert!(!set.contains(([3u8; 32], 0)));
    set.prune(0);
    assert_eq!(set.len(), 1);
}
