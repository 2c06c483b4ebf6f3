use pete_staking::{
    initialize, settle_stake, settle_withdraw, stake, withdraw, AccountKey, ErrorCode, Party,
    StakeLog, StakingError, StakingStorage, Transfer,
};

const MONTH: i64 = 2592000;

fn key(tag: u8) -> AccountKey {
    AccountKey::new([tag; 32])
}

fn paid() -> Result<(), String> {
    Ok(())
}

fn snapshot(storage: &StakingStorage) -> (Vec<pete_staking::Package>, Vec<StakeLog>) {
    storage.clone().into_parts()
}

#[test]
fn stake_asks_for_the_deposit_of_the_tier() {
    let storage = initialize();
    let deposits: [u64; 6] = [500000, 1000000, 2000000, 3000000, 4000000, 5000000];
    for (i, deposit) in deposits.iter().enumerate() {
        assert_eq!(
            stake(&storage, &key(1), i as u8),
            Ok(Transfer {
                from: Party::Account(key(1)),
                to: Party::Escrow,
                amount: *deposit,
                authority: Party::Account(key(1)),
            })
        );
    }
}

#[test]
fn stake_decides_without_changing_anything() {
    let storage = initialize();
    let before = snapshot(&storage);
    stake(&storage, &key(1), 0).unwrap();
    assert_eq!(snapshot(&storage), before);
}

#[test]
fn stake_rejects_an_index_past_the_catalog() {
    let mut storage = initialize();
    let before = snapshot(&storage);
    assert_eq!(stake(&storage, &key(1), 6), Err(ErrorCode::InvalidPackageIndex));
    assert_eq!(stake(&storage, &key(1), 255), Err(ErrorCode::InvalidPackageIndex));
    assert_eq!(
        settle_stake(&mut storage, key(1), 6, 0, paid()),
        Err(StakingError::Rejected(ErrorCode::InvalidPackageIndex))
    );
    assert_eq!(snapshot(&storage), before);
}

#[test]
fn settle_stake_takes_a_slot_and_adds_a_record() {
    let mut storage = initialize();
    assert_eq!(settle_stake(&mut storage, key(1), 2, 1700000000, paid()), Ok(()));
    assert_eq!(storage.packages().get(2).unwrap().slot_count, 1);
    for i in [0u8, 1, 3, 4, 5] {
        assert_eq!(storage.packages().get(i).unwrap().slot_count, 0);
    }
    assert_eq!(storage.stake_logs().len(), 1);
    assert_eq!(
        storage.stake_logs().record(0),
        Some(StakeLog {
            staker: key(1),
            package_index: 2,
            stake_timestamp: 1700000000,
            terminated: false,
        })
    );
}

#[test]
fn staking_twice_is_rejected() {
    for index in 0..6u8 {
        let mut storage = initialize();
        settle_stake(&mut storage, key(1), index, 5, paid()).unwrap();
        let before = snapshot(&storage);
        assert_eq!(stake(&storage, &key(1), index), Err(ErrorCode::AccountAlreadyStaked));
        assert_eq!(
            settle_stake(&mut storage, key(1), index, 6, paid()),
            Err(StakingError::Rejected(ErrorCode::AccountAlreadyStaked))
        );
        assert_eq!(snapshot(&storage), before);
    }
}

#[test]
fn one_staker_may_hold_a_stake_in_each_tier() {
    let mut storage = initialize();
    for index in 0..6u8 {
        assert_eq!(settle_stake(&mut storage, key(1), index, 5, paid()), Ok(()));
    }
    assert_eq!(storage.stake_logs().len(), 6);
    for index in 0..6u8 {
        assert_eq!(storage.packages().get(index).unwrap().slot_count, 1);
    }
}

#[test]
fn a_full_tier_rejects_everyone() {
    let mut storage = initialize();
    for tag in 0..30u8 {
        assert_eq!(settle_stake(&mut storage, key(tag), 5, tag as i64, paid()), Ok(()));
    }
    assert_eq!(storage.packages().get(5).unwrap().slot_count, 30);
    let before = snapshot(&storage);
    assert_eq!(stake(&storage, &key(30), 5), Err(ErrorCode::PackageSlotFulFilled));
    assert_eq!(stake(&storage, &key(200), 5), Err(ErrorCode::PackageSlotFulFilled));
    assert_eq!(
        settle_stake(&mut storage, key(30), 5, 99, paid()),
        Err(StakingError::Rejected(ErrorCode::PackageSlotFulFilled))
    );
    assert_eq!(snapshot(&storage), before);
    assert_eq!(stake(&storage, &key(3), 5), Err(ErrorCode::AccountAlreadyStaked));
    assert!(stake(&storage, &key(30), 4).is_ok());
}

#[test]
fn every_tier_fills_at_its_own_limit() {
    let limits: [u8; 6] = [80, 70, 60, 50, 40, 30];
    let mut storage = initialize();
    for (index, limit) in limits.iter().enumerate() {
        for tag in 0..*limit {
            assert_eq!(settle_stake(&mut storage, key(tag), index as u8, 0, paid()), Ok(()));
        }
        assert_eq!(stake(&storage, &key(250), index as u8), Err(ErrorCode::PackageSlotFulFilled));
    }
    assert_eq!(storage.stake_logs().len(), 330);
}

#[test]
fn a_withdrawal_does_not_free_the_slot() {
    let mut storage = initialize();
    for tag in 0..30u8 {
        settle_stake(&mut storage, key(tag), 5, 0, paid()).unwrap();
    }
    assert_eq!(settle_withdraw(&mut storage, key(0), 5, 12 * MONTH, paid()), Ok(()));
    assert_eq!(storage.packages().get(5).unwrap().slot_count, 30);
    assert_eq!(stake(&storage, &key(0), 5), Err(ErrorCode::PackageSlotFulFilled));
    assert_eq!(stake(&storage, &key(77), 5), Err(ErrorCode::PackageSlotFulFilled));
}

#[test]
fn a_failed_deposit_leaves_everything_as_it_was() {
    let mut storage = initialize();
    settle_stake(&mut storage, key(1), 0, 5, paid()).unwrap();
    let before = snapshot(&storage);
    assert_eq!(
        settle_stake(&mut storage, key(2), 0, 6, Err(String::from("insufficient funds"))),
        Err(StakingError::TransferFailure(String::from("insufficient funds")))
    );
    assert_eq!(snapshot(&storage), before);
    assert!(stake(&storage, &key(2), 0).is_ok());
}

#[test]
fn a_rejection_comes_before_a_failed_deposit() {
    let mut storage = initialize();
    assert_eq!(
        settle_stake(&mut storage, key(2), 9, 6, Err(String::from("down"))),
        Err(StakingError::Rejected(ErrorCode::InvalidPackageIndex))
    );
}

#[test]
fn stake_then_withdraw_moves_deposit_then_reward() {
    let rewards: [u64; 6] = [539583, 1108333, 2250000, 3525000, 4750000, 6000000];
    let deposits: [u64; 6] = [500000, 1000000, 2000000, 3000000, 4000000, 5000000];
    let months: [i64; 6] = [1, 2, 3, 6, 9, 12];
    for index in 0..6usize {
        let mut storage = initialize();
        let staker = key(index as u8 + 1);
        let deposit = stake(&storage, &staker, index as u8).unwrap();
        assert_eq!(deposit, Transfer::into_escrow(staker, deposits[index]));
        settle_stake(&mut storage, staker, index as u8, 1000, paid()).unwrap();
        let now = 1000 + months[index] * MONTH;
        let payout = withdraw(&storage, &staker, index as u8, now).unwrap();
        assert_eq!(
            payout,
            Transfer {
                from: Party::Escrow,
                to: Party::Account(staker),
                amount: rewards[index],
                authority: Party::Escrow,
            }
        );
        assert_eq!(settle_withdraw(&mut storage, staker, index as u8, now, paid()), Ok(()));
    }
}

#[test]
fn stake_times_may_be_any_number() {
    let mut storage = initialize();
    assert_eq!(settle_stake(&mut storage, key(1), 0, i64::MIN, paid()), Ok(()));
    assert_eq!(settle_stake(&mut storage, key(2), 0, i64::MAX, paid()), Ok(()));
    assert_eq!(storage.stake_logs().record(0).unwrap().stake_timestamp, i64::MIN);
    assert_eq!(storage.stake_logs().record(1).unwrap().stake_timestamp, i64::MAX);
}
