use bech32::ToBase32;
use nomic::airdrop::{airdrop1_units, read_balances, Account, Airdrop, Claim, LegacyBalances, Paid, Part};
use nomic::allotment::allot;
use nomic::error::Error;

fn address(byte: u8) -> [u8; 20] {
    [byte; 20]
}

fn bech32_of(bytes: &[u8]) -> String {
    bech32::encode("nomic", bytes.to_base32(), bech32::Variant::Bech32).unwrap()
}

#[test]
fn unlock_moves_locked_to_claimable() {
    let mut part = Part { locked: 7, claimable: 5, claimed: 3 };
    part.unlock();
    assert_eq!(part, Part { locked: 0, claimable: 12, claimed: 3 });
}

#[test]
fn unlock_of_nothing_changes_nothing() {
    let mut part = Part { locked: 0, claimable: 5, claimed: 3 };
    part.unlock();
    assert_eq!(part, Part { locked: 0, claimable: 5, claimed: 3 });
}

#[test]
fn claim_returns_the_claimable_amount() {
    let mut part = Part { locked: 1, claimable: 40, claimed: 2 };
    assert_eq!(part.claim(), Ok(40));
    assert_eq!(part, Part { locked: 1, claimable: 0, claimed: 42 });
}

#[test]
fn claim_of_nothing_is_refused() {
    let mut part = Part { locked: 9, claimable: 0, claimed: 2 };
    assert_eq!(part.claim(), Err(Error::NoBalance));
    assert_eq!(part, Part { locked: 9, claimable: 0, claimed: 2 });
}

#[test]
fn defaults_are_empty() {
    assert_eq!(Part::default(), Part { locked: 0, claimable: 0, claimed: 0 });
    assert_eq!(Account::default().btc_deposit, Part::default());
}

#[test]
fn score_is_capped() {
    assert_eq!(Airdrop::score(5, 100), 5);
    assert_eq!(Airdrop::score(1_000_000_000, 0), 1_000_000_000);
    assert_eq!(Airdrop::score(1_000_000_001, 0), 1_000_000_000);
    assert_eq!(Airdrop::score(u64::MAX, 7), 1_000_000_000);
}

#[test]
fn airdrop1_amounts_are_rounded_quotients() {
    assert_eq!(airdrop1_units(1_000_000, 2_000_000), 443_364);
    assert_eq!(airdrop1_units(0, 0), 0);
    assert_eq!(airdrop1_units(5_000_000_000, 5_000_000_000), 246_313_609);
    assert_eq!(airdrop1_units(20, 0), 1);
    assert_eq!(airdrop1_units(10, 0), 0);
    assert_eq!(airdrop1_units(11, 0), 1);
}

#[test]
fn airdrop_to_locks_a_third_in_three_parts() {
    let mut airdrop = Airdrop::new();
    airdrop.airdrop_to(address(1), 100);
    let account = airdrop.get(address(1)).unwrap();
    assert_eq!(account.airdrop1, Part::default());
    assert_eq!(account.btc_deposit.locked, 33);
    assert_eq!(account.btc_withdraw.locked, 33);
    assert_eq!(account.ibc_transfer.locked, 33);
    assert_eq!(airdrop.get(address(2)), None);
}

#[test]
fn init_airdrop1_amount_sets_the_claimable_amount() {
    let mut airdrop = Airdrop::new();
    airdrop.airdrop_to(address(1), 300);
    assert_eq!(airdrop.init_airdrop1_amount(address(1), 1_000_000, 2_000_000), 443_364);
    let account = airdrop.get(address(1)).unwrap();
    assert_eq!(account.airdrop1, Part { locked: 0, claimable: 443_364, claimed: 0 });
    assert_eq!(account.btc_deposit.locked, 100);
}

#[test]
fn get_mut_changes_the_account() {
    let mut airdrop = Airdrop::new();
    assert!(airdrop.get_mut(address(1)).is_none());
    airdrop.airdrop_to(address(1), 9);
    match airdrop.get_mut(address(1)) {
        Some(account) => account.btc_deposit.unlock(),
        None => panic!("the account exists"),
    }
    assert_eq!(airdrop.get(address(1)).unwrap().btc_deposit, Part { locked: 0, claimable: 3, claimed: 0 });
}

#[test]
fn signer_acct_mut_needs_a_signer_with_an_account() {
    let mut airdrop = Airdrop::new();
    airdrop.airdrop_to(address(1), 9);
    assert!(matches!(airdrop.signer_acct_mut(None), Err(Error::Unauthorized)));
    assert!(matches!(airdrop.signer_acct_mut(Some(address(2))), Err(Error::NoAccount)));
    assert!(matches!(airdrop.signer_acct_mut(Some(address(1))), Ok(_)));
}

#[test]
fn pay_as_funding_needs_a_payment_context() {
    assert_eq!(Airdrop::pay_as_funding(None, 5), Err(Error::NoPaidContext));
    let mut paid = Paid { given: 1 };
    assert_eq!(Airdrop::pay_as_funding(Some(&mut paid), 5), Ok(()));
    assert_eq!(paid.given, 6);
    let mut full = Paid { given: u64::MAX };
    assert_eq!(Airdrop::pay_as_funding(Some(&mut full), 1), Err(Error::AmountOverflow));
    assert_eq!(full.given, u64::MAX);
}

#[test]
fn claims_pay_the_claimable_amount_once() {
    let mut airdrop = Airdrop::new();
    airdrop.init_airdrop1_amount(address(1), 1_000_000, 2_000_000);
    let mut paid = Paid { given: 0 };
    assert_eq!(airdrop.claim_airdrop1(Some(address(1)), Some(&mut paid)), Ok(()));
    assert_eq!(paid.given, 443_364);
    assert_eq!(
        airdrop.get(address(1)).unwrap().airdrop1,
        Part { locked: 0, claimable: 0, claimed: 443_364 }
    );
    assert_eq!(airdrop.claim_airdrop1(Some(address(1)), Some(&mut paid)), Err(Error::NoBalance));
    assert_eq!(paid.given, 443_364);
}

#[test]
fn claims_are_refused_in_order() {
    let mut airdrop = Airdrop::new();
    airdrop.airdrop_to(address(1), 30);
    let mut paid = Paid { given: 0 };
    assert_eq!(airdrop.claim_btc_deposit(None, Some(&mut paid)), Err(Error::Unauthorized));
    assert_eq!(airdrop.claim_btc_deposit(Some(address(2)), Some(&mut paid)), Err(Error::NoAccount));
    assert_eq!(airdrop.claim_btc_deposit(Some(address(1)), Some(&mut paid)), Err(Error::NoBalance));
    match airdrop.get_mut(address(1)) {
        Some(account) => {
            account.btc_deposit.unlock();
            account.btc_withdraw.unlock();
            account.ibc_transfer.unlock();
        }
        None => panic!("the account exists"),
    }
    let before = airdrop.get(address(1)).unwrap();
    assert_eq!(airdrop.claim_btc_deposit(Some(address(1)), None), Err(Error::NoPaidContext));
    assert_eq!(airdrop.get(address(1)).unwrap(), before);
    let mut full = Paid { given: u64::MAX - 5 };
    assert_eq!(airdrop.claim_btc_deposit(Some(address(1)), Some(&mut full)), Err(Error::AmountOverflow));
    assert_eq!(airdrop.get(address(1)).unwrap(), before);
    assert_eq!(airdrop.claim_btc_deposit(Some(address(1)), Some(&mut paid)), Ok(()));
    assert_eq!(airdrop.claim_btc_withdraw(Some(address(1)), Some(&mut paid)), Ok(()));
    assert_eq!(airdrop.claim_ibc_transfer(Some(address(1)), Some(&mut paid)), Ok(()));
    assert_eq!(airdrop.claim(Some(address(1)), Some(&mut paid), Claim::IbcTransfer), Err(Error::NoBalance));
    assert_eq!(paid.given, 30);
    let after = airdrop.get(address(1)).unwrap();
    assert_eq!(after.btc_deposit, Part { locked: 0, claimable: 0, claimed: 10 });
    assert_eq!(after.btc_withdraw, Part { locked: 0, claimable: 0, claimed: 10 });
    assert_eq!(after.ibc_transfer, Part { locked: 0, claimable: 0, claimed: 10 });
}

#[test]
fn allotments_follow_the_scores() {
    let recipients = vec![
        (address(1), vec![(100, 1), (50, 2)]),
        (address(2), vec![(300, 1), (2_000_000_000, 5)]),
    ];
    let (amounts, total) = allot(&recipients).unwrap();
    assert_eq!(amounts, vec![(address(1), 437_500_087_499), (address(2), 3_062_499_912_000)]);
    assert_eq!(total, 3_499_999_999_499);
}

#[test]
fn allotments_need_well_shaped_recipients() {
    assert_eq!(allot(&vec![]), Err(Error::BadSnapshot));
    assert_eq!(allot(&vec![(address(1), vec![])]), Err(Error::BadSnapshot));
    assert_eq!(allot(&vec![(address(1), vec![(0, 3)])]), Err(Error::BadSnapshot));
    assert_eq!(
        allot(&vec![(address(1), vec![(5, 1)]), (address(2), vec![(5, 1), (6, 1)])]),
        Err(Error::BadSnapshot)
    );
    let narrower = vec![(address(1), vec![(5, 1), (6, 1)]), (address(2), vec![(15, 1)])];
    let (amounts, _) = allot(&narrower).unwrap();
    assert_eq!(amounts[0], (address(1), 437_500_000_000 + 1_749_999_999_999));
    assert_eq!(amounts[1], (address(2), 1_312_500_000_000));
}

#[test]
fn airdrop2_snapshot_is_handed_out() {
    let first = bech32_of(&address(1));
    let second = bech32_of(&address(2));
    assert_eq!(first.len(), 44);
    let table = format!(
        "address,staked_a,count_a,staked_b,count_b\n{},100,1,50,2\nshort,1,1,1,1\n{},300,1,2000000000,5\n",
        first, second
    );
    let recipients = Airdrop::get_recipients_from_csv(table.as_bytes()).unwrap();
    assert_eq!(
        recipients,
        vec![
            (address(1), vec![(100, 1), (50, 2)]),
            (address(2), vec![(300, 1), (2_000_000_000, 5)]),
        ]
    );
    let mut airdrop = Airdrop::new();
    assert_eq!(airdrop.init_from_airdrop2_csv(table.as_bytes()), Ok((3_499_999_999_499, 2)));
    let account = airdrop.get(address(1)).unwrap();
    assert_eq!(account.btc_deposit.locked, 145_833_362_499);
    assert_eq!(account.btc_withdraw.locked, 145_833_362_499);
    assert_eq!(account.ibc_transfer.locked, 145_833_362_499);
    assert_eq!(account.airdrop1, Part::default());
    assert_eq!(airdrop.get(address(2)).unwrap().ibc_transfer.locked, 1_020_833_304_000);
}

#[test]
fn airdrop2_snapshot_with_a_bad_record_changes_nothing() {
    let first = bech32_of(&address(1));
    let mut broken = first.clone();
    broken.replace_range(43..44, if first.ends_with('q') { "p" } else { "q" });
    let tables = vec![
        format!("address,staked,count\n{},100,1\n{},7,1\n", first, broken),
        format!("address,staked,count\n{},100,x\n", first),
        format!("address,staked,count\n{},100,1\n\"unterminated", first),
        String::from("address,staked,count\n"),
    ];
    for table in tables {
        let mut airdrop = Airdrop::new();
        airdrop.airdrop_to(address(9), 3);
        assert_eq!(airdrop.init_from_airdrop2_csv(table.as_bytes()), Err(Error::BadSnapshot));
        assert_eq!(airdrop.get(address(1)), None);
        assert_eq!(airdrop.get(address(9)).unwrap().btc_deposit.locked, 1);
    }
}

#[test]
fn airdrop1_snapshot_sets_claimable_amounts() {
    let table = format!(
        "address,liquid,staked\n{},1000000,2000000\n{},20,0\n",
        bech32_of(&address(1)),
        bech32_of(&address(2))
    );
    assert_eq!(
        read_balances(table.as_bytes()),
        Ok(vec![(address(1), 1_000_000, 2_000_000), (address(2), 20, 0)])
    );
    let mut airdrop = Airdrop::new();
    assert_eq!(airdrop.init_from_airdrop1_csv(table.as_bytes()), Ok((443_365, 2)));
    assert_eq!(airdrop.get(address(1)).unwrap().airdrop1.claimable, 443_364);
    assert_eq!(airdrop.get(address(2)).unwrap().airdrop1.claimable, 1);
}

#[test]
fn airdrop1_snapshot_with_a_bad_record_changes_nothing() {
    let good = bech32_of(&address(1));
    let tables = vec![
        format!("address,liquid,staked\n{},1,2\n{},3\n", good, good),
        format!("address,liquid,staked\n{},1,-2\n", good),
        format!("address,liquid,staked\n{},1,2\n", bech32_of(&[7u8; 19])),
        String::from("address,liquid,staked\nnot an address,1,2\n"),
    ];
    for table in tables {
        let mut airdrop = Airdrop::new();
        assert_eq!(airdrop.init_from_airdrop1_csv(table.as_bytes()), Err(Error::BadSnapshot));
        assert_eq!(airdrop.get(address(1)), None);
    }
}

#[test]
fn airdrop1_sum_that_overflows_is_refused() {
    let mut airdrop = Airdrop::new();
    assert_eq!(airdrop.airdrop1(&vec![]), Ok((0, 0)));
    assert_eq!(
        airdrop.airdrop1(&vec![(address(1), u64::MAX, u64::MAX), (address(1), 20, 0)]),
        Ok((246_313_610, 2))
    );
    assert_eq!(airdrop.get(address(1)).unwrap().airdrop1.claimable, 1);
}

#[test]
fn migrate_marks_what_was_claimed_before() {
    let mut airdrop = Airdrop::new();
    airdrop.init_airdrop1_amount(address(1), 20, 0);
    airdrop.init_airdrop1_amount(address(2), 1_000_000, 2_000_000);
    airdrop.init_airdrop1_amount(address(3), 11, 0);
    airdrop.init_airdrop1_amount(address(4), 0, 0);
    let mut legacy = LegacyBalances::new();
    legacy.set(address(1), 0);
    legacy.set(address(3), 5);
    legacy.set(address(4), 0);
    assert_eq!(legacy.balance(address(1)), Some(0));
    assert_eq!(legacy.balance(address(2)), None);
    assert_eq!(airdrop.migrate(&legacy), Ok((443_365, 2)));
    assert_eq!(airdrop.get(address(1)).unwrap().airdrop1, Part { locked: 0, claimable: 0, claimed: 1 });
    assert_eq!(
        airdrop.get(address(2)).unwrap().airdrop1,
        Part { locked: 0, claimable: 0, claimed: 443_364 }
    );
    assert_eq!(airdrop.get(address(3)).unwrap().airdrop1, Part { locked: 0, claimable: 1, claimed: 0 });
    assert_eq!(airdrop.get(address(4)).unwrap().airdrop1, Part::default());
    assert_eq!(airdrop.migrate(&legacy), Ok((0, 0)));
}
