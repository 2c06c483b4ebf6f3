use vstd::prelude::*;
use crate::account::AccountKey;
use crate::catalog::{
    has_free_slot, initial_catalog, reserve, same_terms, valid_index, within_limits, Package,
    PackageCatalog, PackageView,
};
use crate::error::{ErrorCode, StakingError};
use crate::ledger::{
    first_active, has_active, has_record, history_kept, lemma_first_active_exists,
    lemma_tier_records_close, lemma_tier_records_push, one_active_each, opened_record,
    record_active, terminate_first, tier_records, StakeLedger, StakeLog, StakeLogView,
};
use crate::transfer::{payment_from_escrow, payment_into_escrow, Transfer, TransferView};

verus! {

/// The whole state of the staking ledger: the catalog of tiers and the stake
/// records.
#[derive(Clone, Debug)]
pub struct StakingStorage {
    packages: PackageCatalog,
    stake_logs: StakeLedger,
}

/// A [`StakingStorage`] over mathematical values.
pub struct StorageView {
    pub packages: Seq<PackageView>,
    pub stake_logs: Seq<StakeLogView>,
}

impl View for StakingStorage {
    type V = StorageView;

    closed spec fn view(&self) -> StorageView {
        StorageView { packages: self.packages@, stake_logs: self.stake_logs@ }
    }
}

/// The state before the first stake: the six tiers, and no record.
pub open spec fn initial_storage() -> StorageView {
    StorageView { packages: initial_catalog(), stake_logs: Seq::empty() }
}

/// What holds of every state that the operations of this module lead to from
/// [`initial_storage`]:
/// no tier has admitted more stakes than its limit; every record is of a tier
/// of the catalog; the count of a tier is the number of records that the tier
/// has, open or paid out; and no staker holds two open stakes in one tier.
pub open spec fn consistent(s: StorageView) -> bool {
    &&& within_limits(s.packages)
    &&& forall|i: int|
        0 <= i < s.stake_logs.len() ==> (#[trigger] s.stake_logs[i]).package_index
            < s.packages.len()
    &&& forall|k: int|
        0 <= k < s.packages.len() ==> (#[trigger] s.packages[k]).slot_count == tier_records(
            s.stake_logs,
            k as nat,
        )
    &&& one_active_each(s.stake_logs)
}

/// What becomes of a request of `staker` to stake in tier `package_index`:
/// the transfer that has to be made for it, or the reason why it is turned
/// down. The grounds are tried in this order: there is no such tier; the
/// staker holds an open stake in it; the tier is full.
pub open spec fn stake_decision(
    s: StorageView,
    staker: Seq<u8>,
    package_index: nat,
) -> Result<TransferView, ErrorCode> {
    if !valid_index(s.packages, package_index) {
        Err(ErrorCode::InvalidPackageIndex)
    } else if has_active(s.stake_logs, staker, package_index) {
        Err(ErrorCode::AccountAlreadyStaked)
    } else if !has_free_slot(s.packages[package_index as int]) {
        Err(ErrorCode::PackageSlotFulFilled)
    } else {
        Ok(payment_into_escrow(staker, s.packages[package_index as int].deposit_amount))
    }
}

/// The state after `staker` has staked in tier `package_index` at time `now`:
/// the tier has one more slot taken, and a new open record stands at the end.
pub open spec fn after_stake(s: StorageView, staker: Seq<u8>, package_index: nat, now: int) -> StorageView {
    StorageView {
        packages: reserve(s.packages, package_index),
        stake_logs: s.stake_logs.push(opened_record(staker, package_index, now)),
    }
}

/// The time from which the open stake of `staker` in tier `package_index` can
/// be withdrawn: its time of entry and the tier's holding period.
pub open spec fn unlock_time(s: StorageView, staker: Seq<u8>, package_index: nat) -> int {
    s.stake_logs[first_active(s.stake_logs, staker, package_index)].stake_timestamp
        + s.packages[package_index as int].period
}

/// What becomes of a request of `staker` to withdraw from tier
/// `package_index` at time `now`: the transfer that has to be made for it, or
/// the reason why it is turned down. The grounds are tried in this order:
/// there is no such tier; the staker has no record in it; every record that
/// the staker has in it is paid out; the holding period has not run out.
pub open spec fn withdraw_decision(
    s: StorageView,
    staker: Seq<u8>,
    package_index: nat,
    now: int,
) -> Result<TransferView, ErrorCode> {
    if !valid_index(s.packages, package_index) {
        Err(ErrorCode::InvalidPackageIndex)
    } else if !has_record(s.stake_logs, staker, package_index) {
        Err(ErrorCode::AccountNeverStaked)
    } else if !has_active(s.stake_logs, staker, package_index) {
        Err(ErrorCode::StakeAlreadyTerminated)
    } else if now < unlock_time(s, staker, package_index) {
        Err(ErrorCode::InvalidLockTime)
    } else {
        Ok(payment_from_escrow(staker, s.packages[package_index as int].reward_amount))
    }
}

/// The state after `staker` has withdrawn from tier `package_index`: the
/// earliest open stake of the staker there is marked as paid out. The catalog
/// is as before: a slot, once taken, stays taken.
pub open spec fn after_withdraw(s: StorageView, staker: Seq<u8>, package_index: nat) -> StorageView {
    StorageView {
        packages: s.packages,
        stake_logs: terminate_first(s.stake_logs, staker, package_index),
    }
}

/// A decision with the transfer as its view.
pub open spec fn decision_view(
    decision: Result<Transfer, ErrorCode>,
) -> Result<TransferView, ErrorCode> {
    match decision {
        Ok(transfer) => Ok(transfer@),
        Err(code) => Err(code),
    }
}

/// How an operation ends, given what was decided of it, what the transfer
/// service reported and the state that a success leads to: the state after
/// it, and the answer to the caller. A request that is turned down, and one
/// whose transfer failed, leave the state as it was.
pub open spec fn settlement<E>(
    before: StorageView,
    decision: Result<TransferView, ErrorCode>,
    paid: Result<(), E>,
    success: StorageView,
) -> (StorageView, Result<(), StakingError<E>>) {
    match decision {
        Err(code) => (before, Err(StakingError::Rejected(code))),
        Ok(_) => match paid {
            Err(failure) => (before, Err(StakingError::TransferFailure(failure))),
            Ok(_) => (success, Ok(())),
        },
    }
}

/// The state before the first stake is consistent.
pub proof fn lemma_initial_storage_consistent()
    ensures
        consistent(initial_storage()),
{
    let s = initial_storage();
    assert forall|k: int| 0 <= k < s.packages.len() implies (#[trigger] s.packages[k]).slot_count
        == tier_records(s.stake_logs, k as nat) by {}
}

/// A stake that goes through leads from a consistent state to a consistent
/// state, and leaves the terms of every tier as they were.
pub proof fn lemma_stake_keeps_consistent(s: StorageView, staker: Seq<u8>, package_index: nat, now: int)
    requires
        consistent(s),
        stake_decision(s, staker, package_index) is Ok,
    ensures
        consistent(after_stake(s, staker, package_index, now)),
        same_terms(s.packages, after_stake(s, staker, package_index, now).packages),
{
    let t = after_stake(s, staker, package_index, now);
    let record = opened_record(staker, package_index, now);
    assert forall|k: int| 0 <= k < t.packages.len() implies (#[trigger] t.packages[k]).slot_count
        == tier_records(t.stake_logs, k as nat) by {
        lemma_tier_records_push(s.stake_logs, record, k as nat);
        assert(s.packages[k].slot_count == tier_records(s.stake_logs, k as nat));
    }
    assert forall|i: int| 0 <= i < t.packages.len() implies (#[trigger] t.packages[i]).slot_count
        <= t.packages[i].slot_limit by {
        assert(s.packages[i].slot_count <= s.packages[i].slot_limit);
    }
    assert forall|i: int, j: int|
        0 <= i < j < t.stake_logs.len() && !(#[trigger] t.stake_logs[i]).terminated && !(
        #[trigger] t.stake_logs[j]).terminated implies !(t.stake_logs[i].staker
        == t.stake_logs[j].staker && t.stake_logs[i].package_index
        == t.stake_logs[j].package_index) by {
        if j < s.stake_logs.len() {
            assert(t.stake_logs[i] == s.stake_logs[i]);
            assert(t.stake_logs[j] == s.stake_logs[j]);
        } else {
            assert(t.stake_logs[i] == s.stake_logs[i]);
            if t.stake_logs[i].staker == staker && t.stake_logs[i].package_index == package_index {
                assert(record_active(s.stake_logs[i], staker, package_index));
            }
        }
    }
    assert forall|i: int| 0 <= i < t.stake_logs.len() implies (#[trigger] t.stake_logs[i]).package_index
        < t.packages.len() by {
        if i < s.stake_logs.len() {
            assert(t.stake_logs[i] == s.stake_logs[i]);
        }
    }
}

/// A withdrawal that goes through leads from a consistent state to a
/// consistent state, and leaves the catalog as it was.
pub proof fn lemma_withdraw_keeps_consistent(
    s: StorageView,
    staker: Seq<u8>,
    package_index: nat,
    now: int,
)
    requires
        consistent(s),
        withdraw_decision(s, staker, package_index, now) is Ok,
    ensures
        consistent(after_withdraw(s, staker, package_index)),
        after_withdraw(s, staker, package_index).packages == s.packages,
{
    let t = after_withdraw(s, staker, package_index);
    lemma_first_active_exists(s.stake_logs, staker, package_index);
    let p = first_active(s.stake_logs, staker, package_index);
    assert forall|k: int| 0 <= k < t.packages.len() implies (#[trigger] t.packages[k]).slot_count
        == tier_records(t.stake_logs, k as nat) by {
        lemma_tier_records_close(s.stake_logs, p, k as nat);
    }
    assert forall|i: int, j: int|
        0 <= i < j < t.stake_logs.len() && !(#[trigger] t.stake_logs[i]).terminated && !(
        #[trigger] t.stake_logs[j]).terminated implies !(t.stake_logs[i].staker
        == t.stake_logs[j].staker && t.stake_logs[i].package_index
        == t.stake_logs[j].package_index) by {
        assert(t.stake_logs[i] == s.stake_logs[i]);
        assert(t.stake_logs[j] == s.stake_logs[j]);
    }
    assert forall|i: int| 0 <= i < t.stake_logs.len() implies (#[trigger] t.stake_logs[i]).package_index
        < t.packages.len() by {
        assert(t.stake_logs[i].package_index == s.stake_logs[i].package_index);
    }
}

impl StakingStorage {
    /// The state that holds the given tiers and records, as they are.
    pub fn from_parts(packages: Vec<Package>, stake_logs: Vec<StakeLog>) -> (storage: StakingStorage)
        ensures
            storage@.packages == packages@.map_values(|p: Package| p@),
            storage@.stake_logs == stake_logs@.map_values(|r: StakeLog| r@),
    {
        StakingStorage {
            packages: PackageCatalog::from_packages(packages),
            stake_logs: StakeLedger::from_logs(stake_logs),
        }
    }

    /// The tiers and the records of the state.
    pub fn into_parts(self) -> (parts: (Vec<Package>, Vec<StakeLog>))
        ensures
            parts.0@.map_values(|p: Package| p@) == self@.packages,
            parts.1@.map_values(|r: StakeLog| r@) == self@.stake_logs,
    {
        (self.packages.into_packages(), self.stake_logs.into_logs())
    }

    /// The catalog of tiers.
    pub fn packages(&self) -> (catalog: &PackageCatalog)
        ensures
            catalog@ == self@.packages,
    {
        &self.packages
    }

    /// The stake records.
    pub fn stake_logs(&self) -> (ledger: &StakeLedger)
        ensures
            ledger@ == self@.stake_logs,
    {
        &self.stake_logs
    }
}

/// Sets the ledger up: the six tiers of the catalog, none with a slot taken,
/// and no stake record.
pub fn initialize() -> (storage: StakingStorage)
    ensures
        storage@ == initial_storage(),
        consistent(storage@),
{
    let storage = StakingStorage {
        packages: PackageCatalog::initialize(),
        stake_logs: StakeLedger::new(),
    };
    proof {
        lemma_initial_storage_consistent();
    }
    storage
}

/// Decides a request of `staker` to stake in tier `package_index`.
///
/// `Ok` carries the transfer that has to go through for the stake to be
/// entered: the tier's deposit, from the staker into the escrow, on the
/// staker's authority. Nothing is changed: the stake is entered by
/// [`settle_stake`], once the transfer has been tried.
pub fn stake(
    storage: &StakingStorage,
    staker: &AccountKey,
    package_index: u8,
) -> (decision: Result<Transfer, ErrorCode>)
    ensures
        decision_view(decision) == stake_decision(storage@, staker@, package_index as nat),
{
    let package = match storage.packages.get(package_index) {
        Ok(package) => package,
        Err(code) => {
            return Err(code);
        },
    };
    if storage.stake_logs.find_active(staker, package_index).is_some() {
        return Err(ErrorCode::AccountAlreadyStaked);
    }
    if package.slot_count >= package.slot_limit {
        return Err(ErrorCode::PackageSlotFulFilled);
    }
    Ok(Transfer::into_escrow(*staker, package.deposit_amount))
}

/// Ends a stake of `staker` in tier `package_index`, given the time `now` and
/// what the transfer service reported of the deposit in `paid`.
///
/// Where the request is one that [`stake`] turns down, it is turned down
/// here too, with the same reason. Where the transfer failed, its failure is
/// handed on. In both cases the state is left as it was. Otherwise a slot of
/// the tier is taken and an open record of the stake, entered at `now`, is
/// added: both or neither.
pub fn settle_stake<E>(
    storage: &mut StakingStorage,
    staker: AccountKey,
    package_index: u8,
    now: i64,
    paid: Result<(), E>,
) -> (outcome: Result<(), StakingError<E>>)
    ensures
        (final(storage)@, outcome) == settlement(
            old(storage)@,
            stake_decision(old(storage)@, staker@, package_index as nat),
            paid,
            after_stake(old(storage)@, staker@, package_index as nat, now as int),
        ),
        consistent(old(storage)@) ==> consistent(final(storage)@),
        same_terms(old(storage)@.packages, final(storage)@.packages),
        history_kept(old(storage)@.stake_logs, final(storage)@.stake_logs),
{
    if let Err(code) = stake(storage, &staker, package_index) {
        return Err(StakingError::Rejected(code));
    }
    if let Err(failure) = paid {
        return Err(StakingError::TransferFailure(failure));
    }
    if let Err(code) = storage.packages.reserve_slot(package_index) {
        return Err(StakingError::Rejected(code));
    }
    storage.stake_logs.append(
        StakeLog { staker, package_index, stake_timestamp: now, terminated: false },
    );
    proof {
        assert(storage@ == after_stake(old(storage)@, staker@, package_index as nat, now as int));
        if consistent(old(storage)@) {
            lemma_stake_keeps_consistent(old(storage)@, staker@, package_index as nat, now as int);
        }
    }
    Ok(())
}

/// Decides a request of `staker` to withdraw from tier `package_index` at
/// time `now`.
///
/// `Ok` carries the transfer that has to go through for the stake to be paid
/// out: the tier's reward, from the escrow to the staker, on the escrow's own
/// authority. Nothing is changed: the stake is marked by [`settle_withdraw`],
/// once the transfer has been tried.
pub fn withdraw(
    storage: &StakingStorage,
    staker: &AccountKey,
    package_index: u8,
    now: i64,
) -> (decision: Result<Transfer, ErrorCode>)
    ensures
        decision_view(decision) == withdraw_decision(
            storage@,
            staker@,
            package_index as nat,
            now as int,
        ),
{
    let package = match storage.packages.get(package_index) {
        Ok(package) => package,
        Err(code) => {
            return Err(code);
        },
    };
    match storage.stake_logs.find_active(staker, package_index) {
        Some(record) => {
            proof {
                lemma_first_active_exists(storage@.stake_logs, staker@, package_index as nat);
            }
            if (now as i128) < record.stake_timestamp as i128 + package.period as i128 {
                Err(ErrorCode::InvalidLockTime)
            } else {
                Ok(Transfer::from_escrow(*staker, package.reward_amount))
            }
        },
        None => {
            if storage.stake_logs.has_record(staker, package_index) {
                Err(ErrorCode::StakeAlreadyTerminated)
            } else {
                Err(ErrorCode::AccountNeverStaked)
            }
        },
    }
}

/// Ends a withdrawal of `staker` from tier `package_index`, given the time
/// `now` and what the transfer service reported of the payout in `paid`.
///
/// Where the request is one that [`withdraw`] turns down at `now`, it is
/// turned down here too, with the same reason. Where the transfer failed, its
/// failure is handed on. In both cases the state is left as it was. Otherwise
/// the earliest open stake of the staker in the tier is marked as paid out,
/// and nothing else changes.
pub fn settle_withdraw<E>(
    storage: &mut StakingStorage,
    staker: AccountKey,
    package_index: u8,
    now: i64,
    paid: Result<(), E>,
) -> (outcome: Result<(), StakingError<E>>)
    ensures
        (final(storage)@, outcome) == settlement(
            old(storage)@,
            withdraw_decision(old(storage)@, staker@, package_index as nat, now as int),
            paid,
            after_withdraw(old(storage)@, staker@, package_index as nat),
        ),
        consistent(old(storage)@) ==> consistent(final(storage)@),
        final(storage)@.packages == old(storage)@.packages,
        history_kept(old(storage)@.stake_logs, final(storage)@.stake_logs),
{
    if let Err(code) = withdraw(storage, &staker, package_index, now) {
        return Err(StakingError::Rejected(code));
    }
    if let Err(failure) = paid {
        return Err(StakingError::TransferFailure(failure));
    }
    if let Err(code) = storage.stake_logs.terminate(&staker, package_index) {
        return Err(StakingError::Rejected(code));
    }
    proof {
        assert(storage@ == after_withdraw(old(storage)@, staker@, package_index as nat));
        if consistent(old(storage)@) {
            lemma_withdraw_keeps_consistent(
                old(storage)@,
                staker@,
                package_index as nat,
                now as int,
            );
        }
    }
    Ok(())
}

} // verus!
