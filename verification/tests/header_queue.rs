use nomic::bitcoin::header_queue::{Config, HeaderQueue};
use nomic::bitcoin::work::{be_at_most, hash_at_most, reverse, Header};
use nomic::error::Error;

const EASY: u32 = 0x1f7f_ffff;

fn config(max_length: u32) -> Config {
    Config { max_length, retarget_interval: 4, target_timespan: 40, max_target_bits: EASY }
}

fn bytes32(bytes: &[u8]) -> [u8; 32] {
    let mut out = [0u8; 32];
    out.copy_from_slice(bytes);
    out
}

fn genesis() -> Header {
    let theirs = bitcoin::blockdata::constants::genesis_block(bitcoin::Network::Bitcoin).header;
    Header {
        version: theirs.version as u32,
        prev_blockhash: bytes32(&theirs.prev_blockhash[..]),
        merkle_root: bytes32(&theirs.merkle_root[..]),
        time: theirs.time,
        bits: theirs.bits,
        nonce: theirs.nonce,
    }
}

fn anchor() -> Header {
    Header { version: 1, prev_blockhash: [0; 32], merkle_root: [9; 32], time: 1000, bits: EASY, nonce: 0 }
}

fn mine(prev: &Header, time: u32, bits: u32) -> Header {
    let mut header = Header {
        version: 1,
        prev_blockhash: prev.block_hash(),
        merkle_root: [time as u8; 32],
        time,
        bits,
        nonce: 0,
    };
    while !header.validate_pow() {
        header.nonce += 1;
    }
    header
}

fn chain(from: &Header, count: u32) -> Vec<Header> {
    let mut headers = Vec::new();
    let mut prev = *from;
    for _ in 0..count {
        let next = mine(&prev, prev.time + 10, prev.bits);
        headers.push(next);
        prev = next;
    }
    headers
}

fn same(a: &Header, b: &Header) -> bool {
    a.encode() == b.encode()
}

#[test]
fn the_genesis_header_has_its_known_hash() {
    let header = genesis();
    let theirs = bitcoin::blockdata::constants::genesis_block(bitcoin::Network::Bitcoin).header;
    assert_eq!(header.encode(), bitcoin::consensus::serialize(&theirs));
    assert_eq!(header.block_hash(), bytes32(&theirs.block_hash()[..]));
    let mut shown = header.block_hash();
    shown.reverse();
    assert_eq!(
        shown.to_vec(),
        vec![
            0x00, 0x00, 0x00, 0x00, 0x00, 0x19, 0xd6, 0x68, 0x9c, 0x08, 0x5a, 0xe1, 0x65, 0x83, 0x1e, 0x93,
            0x4f, 0xf7, 0x63, 0xae, 0x46, 0xa2, 0xa6, 0xc1, 0x72, 0xb3, 0xf1, 0xb6, 0x0a, 0x8c, 0xe2, 0x6f
        ]
    );
    assert!(header.validate_pow());
}

#[test]
fn a_header_has_80_bytes_in_a_fixed_layout() {
    let header = Header {
        version: 0x0403_0201,
        prev_blockhash: [0xaa; 32],
        merkle_root: [0xbb; 32],
        time: 0x0807_0605,
        bits: 0x0c0b_0a09,
        nonce: 0x100f_0e0d,
    };
    let bytes = header.encode();
    assert_eq!(bytes.len(), 80);
    assert_eq!(&bytes[0..4], &[1, 2, 3, 4]);
    assert_eq!(&bytes[4..36], &[0xaa; 32]);
    assert_eq!(&bytes[36..68], &[0xbb; 32]);
    assert_eq!(&bytes[68..80], &[5, 6, 7, 8, 9, 10, 11, 12, 13, 14, 15, 16]);
    let decoded = Header::decode(&bytes).unwrap();
    assert_eq!(decoded.version, 0x0403_0201);
    assert_eq!(decoded.prev_blockhash, [0xaa; 32]);
    assert_eq!(decoded.merkle_root, [0xbb; 32]);
    assert_eq!(decoded.time, 0x0807_0605);
    assert_eq!(decoded.bits, 0x0c0b_0a09);
    assert_eq!(decoded.nonce, 0x100f_0e0d);
    assert!(Header::decode(&bytes[..79]).is_none());
    assert!(Header::decode(&[0u8; 81]).is_none());
}

#[test]
fn work_is_compared_as_numbers() {
    let mut small = [0u8; 32];
    small[31] = 1;
    let mut big = [0u8; 32];
    big[0] = 1;
    assert!(be_at_most(&small, &big));
    assert!(!be_at_most(&big, &small));
    assert!(be_at_most(&big, &big));
    assert_eq!(reverse(&small), big);
    assert!(hash_at_most(&big, &small));
    assert!(!hash_at_most(&small, &small));
    let mut high = [0u8; 32];
    high[5] = 0x10;
    let mut low = [0xffu8; 32];
    low[..6].copy_from_slice(&[0, 0, 0, 0, 0, 0x0f]);
    assert!(be_at_most(&low, &high));
    assert!(!be_at_most(&high, &low));
}

#[test]
fn a_header_that_misses_its_target_is_refused() {
    let mut header = genesis();
    header.nonce += 1;
    assert!(!header.validate_pow());
    let negative = Header { bits: 0x1d80_0000, ..genesis() };
    assert!(!negative.validate_pow());
}

#[test]
fn accepted_headers_are_found_at_their_heights() {
    let mut queue = HeaderQueue::new(config(8), anchor(), 100);
    assert_eq!(queue.height(), 100);
    let headers = chain(&anchor(), 3);
    assert_eq!(queue.add_headers(&headers), Ok(()));
    assert_eq!(queue.height(), 103);
    assert_eq!(queue.len(), 4);
    assert!(same(&queue.get_by_height(100).unwrap(), &anchor()));
    for (i, header) in headers.iter().enumerate() {
        assert!(same(&queue.get_by_height(101 + i as u32).unwrap(), header));
    }
    assert!(queue.get_by_height(99).is_none());
    assert!(queue.get_by_height(104).is_none());
    assert!(queue.get_by_height(0).is_none());
    assert!(queue.get_by_height(u32::MAX).is_none());
}

#[test]
fn no_headers_change_nothing() {
    let mut queue = HeaderQueue::new(config(8), anchor(), 100);
    assert_eq!(queue.add_headers(&vec![]), Ok(()));
    assert_eq!(queue.height(), 100);
    assert_eq!(queue.len(), 1);
}

#[test]
fn a_header_that_does_not_link_is_refused() {
    let mut queue = HeaderQueue::new(config(8), anchor(), 100);
    let stranger = Header { nonce: 77, ..anchor() };
    let headers = chain(&stranger, 1);
    assert_eq!(queue.add_headers(&headers), Err(Error::InvalidHeader));
    assert_eq!(queue.height(), 100);
    assert!(queue.get_by_height(101).is_none());
}

#[test]
fn a_batch_with_one_bad_header_is_refused_whole() {
    let mut queue = HeaderQueue::new(config(8), anchor(), 100);
    let mut headers = chain(&anchor(), 3);
    let mut unworked = headers[2];
    loop {
        unworked.nonce += 1;
        if !unworked.validate_pow() {
            break;
        }
    }
    headers[2] = unworked;
    assert_eq!(queue.add_headers(&headers), Err(Error::InvalidHeader));
    assert_eq!(queue.height(), 100);
    assert_eq!(queue.len(), 1);
    headers.pop();
    assert_eq!(queue.add_headers(&headers), Ok(()));
    assert_eq!(queue.height(), 102);
}

#[test]
fn a_header_with_other_bits_is_refused() {
    let mut queue = HeaderQueue::new(config(8), anchor(), 100);
    let easier = mine(&anchor(), 1010, 0x207f_ffff);
    assert_eq!(queue.add_headers(&vec![easier]), Err(Error::InvalidHeader));
    let harder = mine(&anchor(), 1010, 0x1f5f_ffff);
    assert_eq!(queue.add_headers(&vec![harder]), Err(Error::InvalidHeader));
    assert_eq!(queue.height(), 100);
}

#[test]
fn the_difficulty_is_adjusted_at_the_interval() {
    let mut queue = HeaderQueue::new(config(8), anchor(), 100);
    let headers = chain(&anchor(), 3);
    assert_eq!(queue.add_headers(&headers), Ok(()));
    let unadjusted = mine(&headers[2], 1040, EASY);
    assert_eq!(queue.add_headers(&vec![unadjusted]), Err(Error::InvalidHeader));
    let adjusted = mine(&headers[2], 1040, 0x1f5f_ffff);
    assert_eq!(queue.add_headers(&vec![adjusted]), Ok(()));
    assert_eq!(queue.height(), 104);
    let next = mine(&adjusted, 1050, 0x1f5f_ffff);
    assert_eq!(queue.add_headers(&vec![next]), Ok(()));
}

#[test]
fn the_adjustment_is_held_within_bounds() {
    let slow = [
        mine(&anchor(), 1100, EASY),
        mine(&mine(&anchor(), 1100, EASY), 1200, EASY),
    ];
    let third = mine(&slow[1], 5000, EASY);
    let mut queue = HeaderQueue::new(config(8), anchor(), 100);
    assert_eq!(queue.add_headers(&vec![slow[0], slow[1], third]), Ok(()));
    let capped = mine(&third, 5010, EASY);
    assert_eq!(queue.add_headers(&vec![capped]), Ok(()));

    let fast = chain(&Header { time: 1000, ..anchor() }, 2);
    let back = mine(&fast[1], 1001, EASY);
    let mut quick = HeaderQueue::new(config(8), anchor(), 100);
    assert_eq!(quick.add_headers(&vec![fast[0], fast[1], back]), Ok(()));
    let quarter = mine(&back, 1002, 0x1f1f_ffff);
    assert_eq!(quick.add_headers(&vec![quarter]), Ok(()));
}

#[test]
fn an_adjustment_needs_the_first_header_of_the_interval() {
    let mut queue = HeaderQueue::new(config(8), anchor(), 102);
    let next = chain(&anchor(), 1);
    assert_eq!(queue.add_headers(&next), Ok(()));
    let at_interval = mine(&next[0], 1020, EASY);
    assert_eq!(queue.add_headers(&vec![at_interval]), Err(Error::InvalidHeader));
    assert_eq!(queue.height(), 103);
}

#[test]
fn the_window_keeps_the_most_recent_headers() {
    let mut queue = HeaderQueue::new(config(4), anchor(), 100);
    let headers = chain(&anchor(), 3);
    assert_eq!(queue.add_headers(&headers), Ok(()));
    assert_eq!(queue.len(), 4);
    let fourth = mine(&headers[2], 1040, 0x1f5f_ffff);
    let fifth = mine(&fourth, 1050, 0x1f5f_ffff);
    assert_eq!(queue.add_headers(&vec![fourth, fifth]), Ok(()));
    assert_eq!(queue.len(), 4);
    assert_eq!(queue.height(), 105);
    assert!(queue.get_by_height(100).is_none());
    assert!(queue.get_by_height(101).is_none());
    assert!(same(&queue.get_by_height(102).unwrap(), &headers[1]));
    assert!(same(&queue.get_by_height(105).unwrap(), &fifth));
}

#[test]
fn heights_stay_within_32_bits() {
    let mut queue = HeaderQueue::new(config(8), anchor(), u32::MAX - 1);
    let headers = chain(&anchor(), 2);
    assert_eq!(queue.add_headers(&headers), Err(Error::InvalidHeader));
    assert_eq!(queue.add_headers(&vec![headers[0]]), Ok(()));
    assert_eq!(queue.height(), u32::MAX);
}

#[test]
fn rules_need_a_window_as_long_as_the_interval() {
    assert!(config(4).is_valid());
    assert!(!config(3).is_valid());
    assert!(!Config { target_timespan: 0, ..config(4) }.is_valid());
    assert!(!Config { retarget_interval: 0, ..config(4) }.is_valid());
    assert!(!Config { target_timespan: 0x4000_0000, ..config(4) }.is_valid());
}
