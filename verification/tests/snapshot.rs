use bech32::ToBase32;
use nomic::snapshot::{parse_address, parse_u64, read_recipients};
use nomic::error::Error;

#[test]
fn numbers_are_read_as_std_reads_them() {
    let texts = [
        "", "+", "-", "0", "+0", "007", "42", "+42", "-42", "4 2", " 42", "42 ", "4.2", "1e3", "++1",
        "18446744073709551615", "18446744073709551616", "+18446744073709551615",
        "99999999999999999999999999", "0000000000000000000000000001", "12a", "a12", "٣",
    ];
    for text in texts {
        assert_eq!(parse_u64(text.as_bytes()), text.parse::<u64>().ok(), "{:?}", text);
    }
}

#[test]
fn numbers_have_their_decimal_value() {
    assert_eq!(parse_u64(b"1234567890"), Some(1_234_567_890));
    assert_eq!(parse_u64(b"18446744073709551615"), Some(u64::MAX));
    assert_eq!(parse_u64(b"18446744073709551616"), None);
    assert_eq!(parse_u64(&[0xff, 0x31]), None);
}

#[test]
fn addresses_are_the_bytes_of_a_bech32_string() {
    let bytes: Vec<u8> = (1..=20).collect();
    let text = bech32::encode("nomic", bytes.to_base32(), bech32::Variant::Bech32).unwrap();
    let mut expected = [0u8; 20];
    expected.copy_from_slice(&bytes);
    assert_eq!(parse_address(text.as_bytes()), Some(expected));
    assert_ne!(parse_address(text.as_bytes()).unwrap().to_vec(), text.as_bytes()[..20].to_vec());
    let upper = text.to_uppercase();
    assert_eq!(parse_address(upper.as_bytes()), Some(expected));
}

#[test]
fn addresses_of_another_length_are_refused() {
    let short = bech32::encode("nomic", [1u8; 19].to_base32(), bech32::Variant::Bech32).unwrap();
    let long = bech32::encode("nomic", [1u8; 21].to_base32(), bech32::Variant::Bech32).unwrap();
    assert_eq!(parse_address(short.as_bytes()), None);
    assert_eq!(parse_address(long.as_bytes()), None);
    assert_eq!(parse_address(b"nomic1qqqq"), None);
    assert_eq!(parse_address(b""), None);
    assert_eq!(parse_address(&[0xff, 0xfe]), None);
}

#[test]
fn records_without_an_address_of_44_bytes_are_skipped() {
    let text = bech32::encode("nomic", [3u8; 20].to_base32(), bech32::Variant::Bech32).unwrap();
    let table = format!("a,b,c,d\nfoo,1,2,3\n{},1,2,3\n,9,x,\n", text);
    assert_eq!(read_recipients(table.as_bytes()), Ok(vec![([3u8; 20], vec![(1, 2)])]));
    assert_eq!(read_recipients(b""), Ok(vec![]));
    assert_eq!(read_recipients(b"only,a,header\n"), Ok(vec![]));
}

#[test]
fn records_that_cannot_be_read_are_refused() {
    let text = bech32::encode("nomic", [3u8; 20].to_base32(), bech32::Variant::Bech32).unwrap();
    let uneven = format!("a,b,c\n{},1,2\n{},1\n", text, text);
    assert_eq!(read_recipients(uneven.as_bytes()), Err(Error::BadSnapshot));
    let no_number = format!("a,b,c\n{},1,two\n", text);
    assert_eq!(read_recipients(no_number.as_bytes()), Err(Error::BadSnapshot));
    let no_address = format!("a,b,c\n{},1,2\n", "x".repeat(44));
    assert_eq!(read_recipients(no_address.as_bytes()), Err(Error::BadSnapshot));
}
