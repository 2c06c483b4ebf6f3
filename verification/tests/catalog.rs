use pete_staking::{
    charge_escrow, initialize, AccountKey, ErrorCode, Package, PackageCatalog, Party, StakeLedger,
    StakeLog, StakingStorage, Transfer,
};

fn key(tag: u8) -> AccountKey {
    AccountKey::new([tag; 32])
}

#[test]
fn initialize_makes_the_six_tiers() {
    let storage = initialize();
    let expected: [(&str, u64, u64, i64, u8); 6] = [
        ("Pete's Pebble Pounch", 500000, 539583, 2592000, 80),
        ("Golden Wheel Guild", 1000000, 1108333, 5184000, 70),
        ("Burrower's Bounty", 2000000, 2250000, 7776000, 60),
        ("Cheek Pounch Chest", 3000000, 3525000, 15552000, 50),
        ("Hamster Haven Hoard", 4000000, 4750000, 23328000, 40),
        ("Oxonis Wizard", 5000000, 6000000, 31104000, 30),
    ];
    assert_eq!(storage.packages().len(), 6);
    for (i, (name, deposit, reward, period, limit)) in expected.iter().enumerate() {
        let package = storage.packages().get(i as u8).unwrap();
        assert_eq!(package.name, *name);
        assert_eq!(package.deposit_amount, *deposit);
        assert_eq!(package.reward_amount, *reward);
        assert_eq!(package.period, *period);
        assert_eq!(package.slot_limit, *limit);
        assert_eq!(package.slot_count, 0);
    }
    assert_eq!(storage.stake_logs().len(), 0);
}

#[test]
fn periods_are_multiples_of_thirty_days() {
    let month: i64 = 60 * 60 * 24 * 30;
    let storage = initialize();
    let months: [i64; 6] = [1, 2, 3, 6, 9, 12];
    for (i, m) in months.iter().enumerate() {
        assert_eq!(storage.packages().get(i as u8).unwrap().period, month * m);
    }
}

#[test]
fn get_rejects_an_index_past_the_catalog() {
    let catalog = PackageCatalog::initialize();
    assert!(catalog.get(5).is_ok());
    assert_eq!(catalog.get(6).err(), Some(ErrorCode::InvalidPackageIndex));
    assert_eq!(catalog.get(255).err(), Some(ErrorCode::InvalidPackageIndex));
}

#[test]
fn reserve_slot_counts_up_to_the_limit() {
    let mut catalog = PackageCatalog::initialize();
    for taken in 0..30u8 {
        assert_eq!(catalog.get(5).unwrap().slot_count, taken);
        assert_eq!(catalog.reserve_slot(5), Ok(()));
    }
    assert_eq!(catalog.get(5).unwrap().slot_count, 30);
    assert_eq!(catalog.reserve_slot(5), Err(ErrorCode::PackageSlotFulFilled));
    assert_eq!(catalog.get(5).unwrap().slot_count, 30);
    assert_eq!(catalog.get(4).unwrap().slot_count, 0);
}

#[test]
fn reserve_slot_rejects_an_index_past_the_catalog() {
    let mut catalog = PackageCatalog::initialize();
    assert_eq!(catalog.reserve_slot(6), Err(ErrorCode::InvalidPackageIndex));
    for i in 0..6u8 {
        assert_eq!(catalog.get(i).unwrap().slot_count, 0);
    }
}

#[test]
fn reserve_slot_leaves_the_terms_alone() {
    let mut catalog = PackageCatalog::initialize();
    let before = catalog.get(2).unwrap().clone();
    catalog.reserve_slot(2).unwrap();
    let after = catalog.get(2).unwrap().clone();
    assert_eq!(after, Package { slot_count: 1, ..before });
}

#[test]
fn a_tier_over_its_limit_counts_as_full() {
    let odd = Package {
        name: String::from("odd"),
        deposit_amount: 1,
        period: 1,
        reward_amount: 2,
        slot_limit: 3,
        slot_count: 255,
    };
    let mut catalog = PackageCatalog::from_packages(vec![odd.clone()]);
    assert_eq!(catalog.reserve_slot(0), Err(ErrorCode::PackageSlotFulFilled));
    assert_eq!(catalog.into_packages(), vec![odd]);
}

#[test]
fn ledger_appends_in_order_and_checks_nothing() {
    let mut ledger = StakeLedger::new();
    assert_eq!(ledger.len(), 0);
    let first = StakeLog { staker: key(1), package_index: 0, stake_timestamp: 10, terminated: false };
    let second = StakeLog { staker: key(1), package_index: 0, stake_timestamp: 20, terminated: false };
    ledger.append(first);
    ledger.append(second);
    assert_eq!(ledger.len(), 2);
    assert_eq!(ledger.record(0), Some(first));
    assert_eq!(ledger.record(1), Some(second));
    assert_eq!(ledger.record(2), None);
}

#[test]
fn find_active_skips_closed_and_foreign_records() {
    let logs = vec![
        StakeLog { staker: key(1), package_index: 0, stake_timestamp: 1, terminated: true },
        StakeLog { staker: key(2), package_index: 0, stake_timestamp: 2, terminated: false },
        StakeLog { staker: key(1), package_index: 1, stake_timestamp: 3, terminated: false },
        StakeLog { staker: key(1), package_index: 0, stake_timestamp: 4, terminated: false },
        StakeLog { staker: key(1), package_index: 0, stake_timestamp: 5, terminated: false },
    ];
    let ledger = StakeLedger::from_logs(logs.clone());
    assert_eq!(ledger.active_position(&key(1), 0), Some(3));
    assert_eq!(ledger.find_active(&key(1), 0), Some(logs[3]));
    assert_eq!(ledger.active_position(&key(2), 0), Some(1));
    assert_eq!(ledger.active_position(&key(1), 1), Some(2));
    assert_eq!(ledger.active_position(&key(2), 1), None);
    assert_eq!(ledger.find_active(&key(3), 0), None);
    assert!(ledger.has_record(&key(1), 0));
    assert!(!ledger.has_record(&key(2), 1));
}

#[test]
fn terminate_marks_the_earliest_open_record_only() {
    let logs = vec![
        StakeLog { staker: key(1), package_index: 0, stake_timestamp: 1, terminated: true },
        StakeLog { staker: key(1), package_index: 0, stake_timestamp: 4, terminated: false },
        StakeLog { staker: key(2), package_index: 0, stake_timestamp: 5, terminated: false },
    ];
    let mut ledger = StakeLedger::from_logs(logs.clone());
    assert_eq!(ledger.terminate(&key(1), 0), Ok(()));
    let after = ledger.clone().into_logs();
    assert_eq!(after[0], logs[0]);
    assert_eq!(after[1], StakeLog { terminated: true, ..logs[1] });
    assert_eq!(after[2], logs[2]);
    assert_eq!(ledger.terminate(&key(1), 0), Err(ErrorCode::StakeAlreadyTerminated));
    assert_eq!(ledger.terminate(&key(1), 1), Err(ErrorCode::AccountNeverStaked));
    assert_eq!(ledger.terminate(&key(3), 0), Err(ErrorCode::AccountNeverStaked));
    assert_eq!(ledger.into_logs(), after);
}

#[test]
fn keys_are_equal_when_their_bytes_are() {
    let mut bytes = [7u8; 32];
    assert_eq!(AccountKey::new(bytes), key(7));
    assert_eq!(key(7).to_bytes(), bytes);
    bytes[31] = 8;
    assert_ne!(AccountKey::new(bytes), key(7));
    bytes[31] = 7;
    bytes[0] = 0;
    assert_ne!(AccountKey::new(bytes), key(7));
}

#[test]
fn charge_escrow_pays_the_escrow_from_the_operator() {
    let operator = key(9);
    assert_eq!(
        charge_escrow(operator, 123456789),
        Transfer {
            from: Party::Account(operator),
            to: Party::Escrow,
            amount: 123456789,
            authority: Party::Account(operator),
        }
    );
    assert_eq!(charge_escrow(operator, 0).amount, 0);
    assert_eq!(charge_escrow(operator, u64::MAX).amount, u64::MAX);
}

#[test]
fn transfers_name_their_parties() {
    let staker = key(4);
    let paid_in = Transfer::into_escrow(staker, 5);
    assert_eq!(paid_in.from, Party::Account(staker));
    assert_eq!(paid_in.to, Party::Escrow);
    assert_eq!(paid_in.authority, Party::Account(staker));
    let paid_out = Transfer::from_escrow(staker, 6);
    assert_eq!(paid_out.from, Party::Escrow);
    assert_eq!(paid_out.to, Party::Account(staker));
    assert_eq!(paid_out.authority, Party::Escrow);
    assert_eq!(paid_out.amount, 6);
}

#[test]
fn error_messages() {
    assert_eq!(ErrorCode::InvalidPackageIndex.message(), "Invalid package index. It must be 0 ~ 5");
    assert_eq!(ErrorCode::AccountAlreadyStaked.message(), "Account already staked on same package");
    assert_eq!(ErrorCode::PackageSlotFulFilled.message(), "Package slot fulfilled");
    assert_eq!(ErrorCode::AccountNeverStaked.message(), "Account never staked");
    assert_eq!(ErrorCode::InvalidLockTime.message(), "Lock time period is not satisfied");
    assert_eq!(ErrorCode::StakeAlreadyTerminated.message(), "Stake already terminated");
}

#[test]
fn storage_comes_apart_and_together_again() {
    let mut storage = initialize();
    pete_staking::settle_stake(&mut storage, key(1), 3, 77, Ok::<(), ()>(())).unwrap();
    let (packages, logs) = storage.into_parts();
    assert_eq!(packages.len(), 6);
    assert_eq!(packages[3].slot_count, 1);
    assert_eq!(
        logs,
        vec![StakeLog { staker: key(1), package_index: 3, stake_timestamp: 77, terminated: false }]
    );
    let again = StakingStorage::from_parts(packages.clone(), logs.clone());
    assert_eq!(again.into_parts(), (packages, logs));
}
