//! Reading the snapshots that the airdrops start from: tables of addresses
//! and balances in comma-separated form.

use vstd::prelude::*;
use crate::bitcoin::Address;
use crate::error::Error;

verus! {

/// The records of a comma-separated table after its header line, each record
/// as the bytes of its fields, if the table is well formed.
pub uninterp spec fn csv_records(data: Seq<u8>) -> Option<Seq<Seq<Seq<u8>>>>;

/// The human-readable part and the data values of a bech32 string, without
/// its checksum, if the string is well formed.
pub uninterp spec fn bech32_decoded(text: Seq<u8>) -> Option<(Seq<u8>, Seq<u8>)>;

/// The bytes that values of five bits regroup to, if they regroup without a rest.
pub uninterp spec fn base32_bytes(values: Seq<u8>) -> Option<Seq<u8>>;

/// The rows as byte strings.
pub open spec fn rows_view(rows: Seq<Vec<Vec<u8>>>) -> Seq<Seq<Seq<u8>>> {
    Seq::new(rows.len(), |i: int| Seq::new(rows[i]@.len(), |j: int| rows[i]@[j]@))
}

/// `csv::Reader::from_reader` and its `records`: the records of the table
/// after the header line, or nothing when a record cannot be read.
#[verifier::external_body]
pub(crate) fn read_records(data: &[u8]) -> (r: Option<Vec<Vec<Vec<u8>>>>)
    ensures
        match r {
            Some(rows) => csv_records(data@) == Some(rows_view(rows@)),
            None => csv_records(data@) is None,
        },
{
    ::csv::Reader::from_reader(data).into_records().map(
        |record| record.map(|fields| fields.iter().map(|field| field.as_bytes().to_vec()).collect()),
    ).collect::<Result<Vec<Vec<Vec<u8>>>, ::csv::Error>>().ok()
}

/// `bech32::decode`: the human-readable part in lower case and the data
/// values without the checksum.
#[verifier::external_body]
pub(crate) fn bech32_decode(text: &[u8]) -> (r: Option<(Vec<u8>, Vec<u8>)>)
    ensures
        match r {
            Some((hrp, values)) => bech32_decoded(text@) == Some((hrp@, values@)),
            None => bech32_decoded(text@) is None,
        },
{
    let (hrp, values, _) = ::bech32::decode(::std::str::from_utf8(text).ok()?).ok()?;
    Some((hrp.into_bytes(), values.iter().map(|v| v.to_u8()).collect()))
}

/// `FromBase32::from_base32` of the `bech32` crate for bytes: the bytes that
/// the five-bit values regroup to.
#[verifier::external_body]
pub(crate) fn from_base32(values: &[u8]) -> (r: Option<Vec<u8>>)
    ensures
        match r {
            Some(bytes) => base32_bytes(values@) == Some(bytes@),
            None => base32_bytes(values@) is None,
        },
{
    let fives = values.iter().map(|v| ::bech32::u5::try_from_u8(*v)).collect::<Result<
        Vec<::bech32::u5>,
        ::bech32::Error,
    >>().ok()?;
    <Vec<u8> as ::bech32::FromBase32>::from_base32(&fives).ok()
}

/// The number that decimal digits stand for.
pub open spec fn digits_value(digits: Seq<u8>) -> nat
    decreases digits.len(),
{
    if digits.len() == 0 {
        0
    } else {
        digits_value(digits.drop_last()) * 10 + (digits.last() - 0x30) as nat
    }
}

/// Whether every byte is a decimal digit.
pub open spec fn all_digits(digits: Seq<u8>) -> bool {
    forall|i: int| 0 <= i < digits.len() ==> 0x30 <= #[trigger] digits[i] <= 0x39
}

/// The text without a leading plus sign.
pub open spec fn unsigned(text: Seq<u8>) -> Seq<u8> {
    if text.len() > 0 && text[0] == 0x2b {
        text.skip(1)
    } else {
        text
    }
}

/// The number that the text stands for: decimal digits, at least one, after
/// an optional plus sign, with a value that fits in 64 bits.
pub open spec fn parsed_u64(text: Seq<u8>) -> Option<u64> {
    let digits = unsigned(text);
    if digits.len() > 0 && all_digits(digits) && digits_value(digits) <= u64::MAX {
        Some(digits_value(digits) as u64)
    } else {
        None
    }
}

/// More digits do not make a number smaller.
pub proof fn lemma_digits_grow(digits: Seq<u8>, i: int)
    requires
        all_digits(digits),
        0 <= i <= digits.len(),
    ensures
        digits_value(digits.take(i)) <= digits_value(digits),
    decreases digits.len() - i,
{
    if i == digits.len() {
        assert(digits.take(i) =~= digits);
    } else {
        lemma_digits_grow(digits, i + 1);
        assert(digits.take(i + 1).drop_last() =~= digits.take(i));
        assert(digits.take(i + 1).last() == digits[i]);
    }
}

/// The number that the text stands for.
pub fn parse_u64(text: &[u8]) -> (r: Option<u64>)
    ensures
        r == parsed_u64(text@),
{
    let n = text.len();
    let start: usize = if n > 0 && text[0] == 0x2b {
        1
    } else {
        0
    };
    let ghost digits = unsigned(text@);
    assert(digits =~= text@.skip(start as int));
    if start == n {
        return None;
    }
    let mut value: u64 = 0;
    let mut i: usize = start;
    assert(digits.take(0) =~= Seq::<u8>::empty());
    while i < n
        invariant
            start <= i <= n,
            n == text@.len(),
            digits == text@.skip(start as int),
            digits == unsigned(text@),
            forall|j: int| 0 <= j < i - start ==> 0x30 <= #[trigger] digits[j] <= 0x39,
            value == digits_value(digits.take(i - start)),
        decreases n - i,
    {
        let b = text[i];
        assert(b == digits[i - start]);
        if b < 0x30 || b > 0x39 {
            return None;
        }
        let d = (b - 0x30) as u64;
        proof {
            assert(digits.take(i - start + 1).drop_last() =~= digits.take(i - start));
            assert(digits.take(i - start + 1).last() == b);
        }
        if value > (u64::MAX - d) / 10 {
            proof {
                assert(value * 10 + d > u64::MAX);
                assert(digits_value(digits.take(i - start + 1)) == value * 10 + d);
                if all_digits(digits) {
                    lemma_digits_grow(digits, i - start + 1);
                }
            }
            return None;
        }
        value = value * 10 + d;
        i += 1;
    }
    assert(digits.take(n - start) =~= digits);
    Some(value)
}

/// The address with the bytes.
pub open spec fn address_from(bytes: Seq<u8>) -> Address {
    choose|a: Address| a@ == bytes
}

/// The address that a bech32 string holds: the 20 bytes that its data
/// values regroup to.
pub open spec fn address_of(text: Seq<u8>) -> Option<Address> {
    match bech32_decoded(text) {
        Some((_, values)) => match base32_bytes(values) {
            Some(bytes) => if bytes.len() == 20 {
                Some(address_from(bytes))
            } else {
                None
            },
            None => None,
        },
        None => None,
    }
}

/// The address that a bech32 string holds.
pub fn parse_address(text: &[u8]) -> (r: Option<Address>)
    ensures
        r == address_of(text@),
{
    let (_, values) = match bech32_decode(text) {
        Some(decoded) => decoded,
        None => {
            return None;
        },
    };
    let bytes = match from_base32(values.as_slice()) {
        Some(bytes) => bytes,
        None => {
            return None;
        },
    };
    if bytes.len() != 20 {
        return None;
    }
    let mut address = [0u8; 20];
    let mut i: usize = 0;
    while i < 20
        invariant
            i <= 20,
            bytes@.len() == 20,
            forall|j: int| 0 <= j < i ==> address@[j] == bytes@[j],
        decreases 20 - i,
    {
        address[i] = bytes[i];
        i += 1;
    }
    proof {
        assert(address@ =~= bytes@);
        let chosen = address_from(bytes@);
        assert(chosen@ == bytes@);
        assert(chosen =~= address);
    }
    Some(address)
}

/// The fields of a record as byte strings.
pub open spec fn row_view(row: Seq<Vec<u8>>) -> Seq<Seq<u8>> {
    Seq::new(row.len(), |j: int| row[j]@)
}

/// A recipient of the second airdrop: an address and, for each network, the
/// stake and the number of delegations.
pub type Recipient = (Address, Vec<(u64, u64)>);

/// A recipient, as contracts see it.
pub type RecipientView = (Address, Seq<(u64, u64)>);

/// The recipients, as contracts see them.
pub open spec fn recipients_view(recipients: Seq<Recipient>) -> Seq<RecipientView> {
    Seq::new(recipients.len(), |i: int| (recipients[i].0, recipients[i].1@))
}

/// The numbers that the fields stand for, if each stands for one.
pub open spec fn values_of(fields: Seq<Seq<u8>>) -> Option<Seq<u64>> {
    if forall|i: int| 0 <= i < fields.len() ==> parsed_u64(#[trigger] fields[i]) is Some {
        Some(Seq::new(fields.len(), |i: int| parsed_u64(fields[i]).unwrap()))
    } else {
        None
    }
}

/// The numbers two by two; a last number without a partner is left out.
pub open spec fn pairs_of(values: Seq<u64>) -> Seq<(u64, u64)> {
    Seq::new(values.len() / 2, |i: int| (values[2 * i], values[2 * i + 1]))
}

/// What a record of the second snapshot holds: nothing, when its first field
/// is not 44 bytes long; else a recipient, whose address the first field
/// holds and whose numbers the other fields hold. The outer `None` stands for
/// a record that is none of the two.
pub open spec fn recipient_row(row: Seq<Seq<u8>>) -> Option<Option<RecipientView>> {
    if row.len() == 0 {
        None
    } else if row[0].len() != 44 {
        Some(None)
    } else {
        match (address_of(row[0]), values_of(row.skip(1))) {
            (Some(address), Some(values)) => Some(Some((address, pairs_of(values)))),
            _ => None,
        }
    }
}

/// The recipients that the records hold, in order, if every record holds a
/// recipient or nothing.
pub open spec fn recipients_of(rows: Seq<Seq<Seq<u8>>>) -> Option<Seq<RecipientView>>
    decreases rows.len(),
{
    if rows.len() == 0 {
        Some(Seq::empty())
    } else {
        match recipients_of(rows.drop_last()) {
            None => None,
            Some(rest) => match recipient_row(rows.last()) {
                None => None,
                Some(None) => Some(rest),
                Some(Some(recipient)) => Some(rest.push(recipient)),
            },
        }
    }
}

/// If the first records hold something that is neither a recipient nor
/// nothing, so do all records.
pub proof fn lemma_recipients_prefix(rows: Seq<Seq<Seq<u8>>>, i: int)
    requires
        0 <= i <= rows.len(),
        recipients_of(rows.take(i)) is None,
    ensures
        recipients_of(rows) is None,
    decreases rows.len() - i,
{
    if i == rows.len() {
        assert(rows.take(i) =~= rows);
    } else {
        assert(rows.take(i + 1).drop_last() =~= rows.take(i));
        lemma_recipients_prefix(rows, i + 1);
    }
}

/// The numbers that the fields after the first stand for.
fn parse_values(row: &Vec<Vec<u8>>) -> (r: Option<Vec<u64>>)
    requires
        row@.len() > 0,
    ensures
        match r {
            Some(values) => values_of(row_view(row@).skip(1)) == Some(values@),
            None => values_of(row_view(row@).skip(1)) is None,
        },
{
    let ghost fields = row_view(row@).skip(1);
    let mut values: Vec<u64> = Vec::new();
    let mut i: usize = 1;
    while i < row.len()
        invariant
            1 <= i <= row@.len(),
            fields == row_view(row@).skip(1),
            values@.len() == i - 1,
            forall|j: int| 0 <= j < i - 1 ==> parsed_u64(#[trigger] fields[j]) == Some(values@[j]),
        decreases row@.len() - i,
    {
        assert(fields[i - 1] == row@[i as int]@);
        match parse_u64(row[i].as_slice()) {
            Some(v) => {
                values.push(v);
            },
            None => {
                assert(parsed_u64(fields[i - 1]) is None);
                return None;
            },
        }
        i += 1;
    }
    assert(values@ =~= Seq::new(fields.len(), |i: int| parsed_u64(fields[i]).unwrap()));
    Some(values)
}

/// The numbers two by two.
fn pair_up(values: &Vec<u64>) -> (r: Vec<(u64, u64)>)
    ensures
        r@ == pairs_of(values@),
{
    let mut pairs: Vec<(u64, u64)> = Vec::new();
    let n = values.len() / 2;
    let mut i: usize = 0;
    while i < n
        invariant
            i <= n,
            n == values@.len() / 2,
            n * 2 <= values.len(),
            pairs@.len() == i,
            forall|j: int| 0 <= j < i ==> pairs@[j] == (values@[2 * j], values@[2 * j + 1]),
        decreases n - i,
    {
        pairs.push((values[2 * i], values[2 * i + 1]));
        i += 1;
    }
    assert(pairs@ =~= pairs_of(values@));
    pairs
}

/// What a record of the second snapshot holds.
fn parse_recipient(row: &Vec<Vec<u8>>) -> (r: Option<Option<Recipient>>)
    ensures
        match r {
            None => recipient_row(row_view(row@)) is None,
            Some(None) => recipient_row(row_view(row@)) == Some(None::<RecipientView>),
            Some(Some(recipient)) => recipient_row(row_view(row@)) == Some(
                Some((recipient.0, recipient.1@)),
            ),
        },
{
    if row.len() == 0 {
        return None;
    }
    assert(row_view(row@)[0] == row@[0]@);
    if row[0].len() != 44 {
        return Some(None);
    }
    let address = parse_address(row[0].as_slice());
    let values = parse_values(row);
    match (address, values) {
        (Some(address), Some(values)) => Some(Some((address, pair_up(&values)))),
        _ => None,
    }
}

/// The recipients of the second airdrop that the table holds. Refused with
/// `BadSnapshot` when the table is not well formed, or when a record with an
/// address of 44 bytes holds no valid address or a field that is no number.
pub fn read_recipients(data: &[u8]) -> (r: Result<Vec<Recipient>, Error>)
    ensures
        match r {
            Ok(recipients) => csv_records(data@) matches Some(rows) && recipients_of(rows) == Some(
                recipients_view(recipients@),
            ),
            Err(e) => e == Error::BadSnapshot && (csv_records(data@) matches Some(rows)
                ==> recipients_of(rows) is None),
        },
{
    let rows = match read_records(data) {
        Some(rows) => rows,
        None => {
            return Err(Error::BadSnapshot);
        },
    };
    let ghost all = rows_view(rows@);
    let mut recipients: Vec<Recipient> = Vec::new();
    let mut i: usize = 0;
    assert(all.take(0) =~= Seq::<Seq<Seq<u8>>>::empty());
    assert(recipients_view(recipients@) =~= Seq::<RecipientView>::empty());
    while i < rows.len()
        invariant
            i <= rows@.len(),
            all == rows_view(rows@),
            csv_records(data@) == Some(all),
            recipients_of(all.take(i as int)) == Some(recipients_view(recipients@)),
        decreases rows@.len() - i,
    {
        proof {
            assert(all.take(i + 1).drop_last() =~= all.take(i as int));
            assert(all.take(i + 1).last() =~= row_view(rows@[i as int]@));
        }
        let ghost before = recipients_view(recipients@);
        match parse_recipient(&rows[i]) {
            None => {
                proof {
                    lemma_recipients_prefix(all, i + 1);
                }
                return Err(Error::BadSnapshot);
            },
            Some(None) => {},
            Some(Some(recipient)) => {
                let ghost view = (recipient.0, recipient.1@);
                recipients.push(recipient);
                assert(recipients_view(recipients@) =~= before.push(view));
            },
        }
        i += 1;
    }
    assert(all.take(rows@.len() as int) =~= all);
    Ok(recipients)
}

} // verus!
