use vstd::prelude::*;
use crate::account::AccountKey;
use crate::error::ErrorCode;

verus! {

/// The record of one stake: who entered which tier and when, and whether the
/// stake has been paid out.
#[derive(Clone, Copy, Debug, PartialEq, Eq)]
pub struct StakeLog {
    /// The account that made the deposit.
    pub staker: AccountKey,
    /// The tier that was entered.
    pub package_index: u8,
    /// Time of entry, in seconds.
    pub stake_timestamp: i64,
    /// False until the stake is withdrawn, true ever after.
    pub terminated: bool,
}

/// A [`StakeLog`] over mathematical values.
pub struct StakeLogView {
    pub staker: Seq<u8>,
    pub package_index: nat,
    pub stake_timestamp: int,
    pub terminated: bool,
}

impl View for StakeLog {
    type V = StakeLogView;

    open spec fn view(&self) -> StakeLogView {
        StakeLogView {
            staker: self.staker@,
            package_index: self.package_index as nat,
            stake_timestamp: self.stake_timestamp as int,
            terminated: self.terminated,
        }
    }
}

/// Whether the record is one of `staker` in tier `package_index`.
pub open spec fn record_matches(record: StakeLogView, staker: Seq<u8>, package_index: nat) -> bool {
    record.staker == staker && record.package_index == package_index
}

/// Whether the record is an open stake of `staker` in tier `package_index`.
pub open spec fn record_active(record: StakeLogView, staker: Seq<u8>, package_index: nat) -> bool {
    record_matches(record, staker, package_index) && !record.terminated
}

/// Whether `staker` has ever staked in tier `package_index`.
pub open spec fn has_record(logs: Seq<StakeLogView>, staker: Seq<u8>, package_index: nat) -> bool {
    exists|i: int| 0 <= i < logs.len() && record_matches(#[trigger] logs[i], staker, package_index)
}

/// Whether `staker` holds an open stake in tier `package_index`.
pub open spec fn has_active(logs: Seq<StakeLogView>, staker: Seq<u8>, package_index: nat) -> bool {
    exists|i: int| 0 <= i < logs.len() && record_active(#[trigger] logs[i], staker, package_index)
}

/// Whether `i` is the place of the earliest open stake of `staker` in tier
/// `package_index`.
pub open spec fn is_first_active(
    logs: Seq<StakeLogView>,
    staker: Seq<u8>,
    package_index: nat,
    i: int,
) -> bool {
    &&& 0 <= i < logs.len()
    &&& record_active(logs[i], staker, package_index)
    &&& forall|j: int| 0 <= j < i ==> !record_active(#[trigger] logs[j], staker, package_index)
}

/// The place of the earliest open stake of `staker` in tier `package_index`.
/// It means something only where there is such a stake.
pub open spec fn first_active(logs: Seq<StakeLogView>, staker: Seq<u8>, package_index: nat) -> int {
    choose|i: int| is_first_active(logs, staker, package_index, i)
}

/// The record, marked as paid out.
pub open spec fn closed_record(record: StakeLogView) -> StakeLogView {
    StakeLogView { terminated: true, ..record }
}

/// The records after the earliest open stake of `staker` in tier
/// `package_index` has been paid out: that one record is marked, and no other
/// differs.
pub open spec fn terminate_first(
    logs: Seq<StakeLogView>,
    staker: Seq<u8>,
    package_index: nat,
) -> Seq<StakeLogView> {
    let i = first_active(logs, staker, package_index);
    logs.update(i, closed_record(logs[i]))
}

/// The record that a stake of `staker` in tier `package_index` at time `now`
/// begins with.
pub open spec fn opened_record(staker: Seq<u8>, package_index: nat, now: int) -> StakeLogView {
    StakeLogView { staker, package_index, stake_timestamp: now, terminated: false }
}

/// Number of records, open or paid out, that tier `package_index` has.
pub open spec fn tier_records(logs: Seq<StakeLogView>, package_index: nat) -> nat
    decreases logs.len(),
{
    if logs.len() == 0 {
        0
    } else {
        tier_records(logs.drop_last(), package_index) + if logs.last().package_index
            == package_index {
            1nat
        } else {
            0nat
        }
    }
}

/// Whether `after` holds every record of `before` in its place, as it was or
/// marked as paid out: no record is removed, and none is opened again.
pub open spec fn history_kept(before: Seq<StakeLogView>, after: Seq<StakeLogView>) -> bool {
    &&& before.len() <= after.len()
    &&& forall|i: int|
        0 <= i < before.len() ==> (#[trigger] after[i]) == before[i] || (!before[i].terminated
            && after[i] == closed_record(before[i]))
}

/// Whether no staker holds two open stakes in one tier.
pub open spec fn one_active_each(logs: Seq<StakeLogView>) -> bool {
    forall|i: int, j: int|
        0 <= i < j < logs.len() && !(#[trigger] logs[i]).terminated && !(#[trigger] logs[j]).terminated
            ==> !(logs[i].staker == logs[j].staker && logs[i].package_index
            == logs[j].package_index)
}

/// There is at most one earliest open stake.
pub proof fn lemma_first_active_unique(
    logs: Seq<StakeLogView>,
    staker: Seq<u8>,
    package_index: nat,
    i: int,
)
    requires
        is_first_active(logs, staker, package_index, i),
    ensures
        first_active(logs, staker, package_index) == i,
        has_active(logs, staker, package_index),
{
    let k = first_active(logs, staker, package_index);
    assert(is_first_active(logs, staker, package_index, k));
    if k < i {
        assert(!record_active(logs[k], staker, package_index));
    }
    if i < k {
        assert(!record_active(logs[i], staker, package_index));
    }
}

/// Where a staker holds an open stake in a tier, there is an earliest one.
pub proof fn lemma_first_active_exists(logs: Seq<StakeLogView>, staker: Seq<u8>, package_index: nat)
    requires
        has_active(logs, staker, package_index),
    ensures
        is_first_active(logs, staker, package_index, first_active(logs, staker, package_index)),
{
    let w = choose|i: int| 0 <= i < logs.len() && record_active(#[trigger] logs[i], staker, package_index);
    lemma_least_active(logs, staker, package_index, w);
}

/// Below any open stake lies an earliest one.
proof fn lemma_least_active(logs: Seq<StakeLogView>, staker: Seq<u8>, package_index: nat, w: int)
    requires
        0 <= w < logs.len(),
        record_active(logs[w], staker, package_index),
    ensures
        exists|i: int| is_first_active(logs, staker, package_index, i),
    decreases w,
{
    if exists|j: int| 0 <= j < w && record_active(#[trigger] logs[j], staker, package_index) {
        let j = choose|j: int| 0 <= j < w && record_active(#[trigger] logs[j], staker, package_index);
        lemma_least_active(logs, staker, package_index, j);
    } else {
        assert(is_first_active(logs, staker, package_index, w));
    }
}

/// A new record counts for its own tier and for no other.
pub proof fn lemma_tier_records_push(logs: Seq<StakeLogView>, record: StakeLogView, package_index: nat)
    ensures
        tier_records(logs.push(record), package_index) == tier_records(logs, package_index) + if record.package_index
            == package_index {
            1nat
        } else {
            0nat
        },
{
    assert(logs.push(record).drop_last() =~= logs);
    assert(logs.push(record).last() == record);
}

/// Paying a stake out changes no tier's number of records.
pub proof fn lemma_tier_records_close(logs: Seq<StakeLogView>, i: int, package_index: nat)
    requires
        0 <= i < logs.len(),
    ensures
        tier_records(logs.update(i, closed_record(logs[i])), package_index) == tier_records(
            logs,
            package_index,
        ),
    decreases logs.len(),
{
    let after = logs.update(i, closed_record(logs[i]));
    if i == logs.len() - 1 {
        assert(after.drop_last() =~= logs.drop_last());
    } else {
        assert(after.drop_last() =~= logs.drop_last().update(i, closed_record(logs.drop_last()[i])));
        lemma_tier_records_close(logs.drop_last(), i, package_index);
    }
}

/// The stake records, in the order in which the stakes were made.
///
/// A record is never removed, and the only change ever made to one is that it
/// is marked as paid out. The ledger itself lets a staker open any number of
/// stakes: that a staker holds one open stake per tier at most is the rule of
/// [`stake`](crate::engine::stake).
#[derive(Clone, Debug)]
pub struct StakeLedger {
    logs: Vec<StakeLog>,
}

impl View for StakeLedger {
    type V = Seq<StakeLogView>;

    closed spec fn view(&self) -> Seq<StakeLogView> {
        self.logs@.map_values(|r: StakeLog| r@)
    }
}

impl StakeLedger {
    /// The ledger without a record.
    pub fn new() -> (ledger: StakeLedger)
        ensures
            ledger@ == Seq::<StakeLogView>::empty(),
    {
        let ledger = StakeLedger { logs: Vec::new() };
        assert(ledger@ =~= Seq::<StakeLogView>::empty());
        ledger
    }

    /// The ledger that holds the given records, in the given order.
    pub fn from_logs(logs: Vec<StakeLog>) -> (ledger: StakeLedger)
        ensures
            ledger@ == logs@.map_values(|r: StakeLog| r@),
    {
        StakeLedger { logs }
    }

    /// The records of the ledger, in order.
    pub fn into_logs(self) -> (logs: Vec<StakeLog>)
        ensures
            logs@.map_values(|r: StakeLog| r@) == self@,
    {
        self.logs
    }

    /// Number of records.
    pub fn len(&self) -> (count: usize)
        ensures
            count == self@.len(),
    {
        self.logs.len()
    }

    /// The record at place `i`, if there is one.
    pub fn record(&self, i: usize) -> (found: Option<StakeLog>)
        ensures
            i < self@.len() ==> found is Some && found->Some_0@ == self@[i as int],
            i >= self@.len() ==> found is None,
    {
        if i < self.logs.len() {
            Some(self.logs[i])
        } else {
            None
        }
    }

    /// Adds a record at the end. Nothing is checked: any record is taken.
    pub fn append(&mut self, record: StakeLog)
        ensures
            final(self)@ == old(self)@.push(record@),
            history_kept(old(self)@, final(self)@),
    {
        self.logs.push(record);
        assert(self@ =~= old(self)@.push(record@));
    }

    /// The earliest open stake of `staker` in tier `package_index`, or `None`
    /// where the staker holds no open stake there.
    pub fn find_active(&self, staker: &AccountKey, package_index: u8) -> (found: Option<StakeLog>)
        ensures
            has_active(self@, staker@, package_index as nat) ==> found is Some && found->Some_0@
                == self@[first_active(self@, staker@, package_index as nat)],
            !has_active(self@, staker@, package_index as nat) ==> found is None,
    {
        match self.active_position(staker, package_index) {
            Some(i) => Some(self.logs[i]),
            None => None,
        }
    }

    /// The place of the earliest open stake of `staker` in tier
    /// `package_index`, or `None` where the staker holds no open stake there.
    pub fn active_position(&self, staker: &AccountKey, package_index: u8) -> (found: Option<usize>)
        ensures
            has_active(self@, staker@, package_index as nat) ==> found is Some && found->Some_0
                == first_active(self@, staker@, package_index as nat),
            !has_active(self@, staker@, package_index as nat) ==> found is None,
            found is Some ==> is_first_active(
                self@,
                staker@,
                package_index as nat,
                found->Some_0 as int,
            ),
    {
        let mut i: usize = 0;
        while i < self.logs.len()
            invariant
                i <= self.logs.len(),
                forall|j: int|
                    0 <= j < i ==> !record_active(
                        #[trigger] self@[j],
                        staker@,
                        package_index as nat,
                    ),
            decreases self.logs.len() - i,
        {
            let log = &self.logs[i];
            if !log.terminated && log.package_index == package_index && log.staker == *staker {
                proof {
                    assert(self@[i as int] == log@);
                    lemma_first_active_unique(self@, staker@, package_index as nat, i as int);
                }
                return Some(i);
            }
            assert(self@[i as int] == log@);
            i += 1;
        }
        None
    }

    /// Whether `staker` has ever staked in tier `package_index`.
    pub fn has_record(&self, staker: &AccountKey, package_index: u8) -> (found: bool)
        ensures
            found == has_record(self@, staker@, package_index as nat),
    {
        let mut i: usize = 0;
        while i < self.logs.len()
            invariant
                i <= self.logs.len(),
                forall|j: int|
                    0 <= j < i ==> !record_matches(
                        #[trigger] self@[j],
                        staker@,
                        package_index as nat,
                    ),
            decreases self.logs.len() - i,
        {
            let log = &self.logs[i];
            assert(self@[i as int] == log@);
            if log.package_index == package_index && log.staker == *staker {
                return true;
            }
            i += 1;
        }
        false
    }

    /// Marks the earliest open stake of `staker` in tier `package_index` as
    /// paid out.
    ///
    /// Fails with `AccountNeverStaked` where the staker has no record in the
    /// tier, and with `StakeAlreadyTerminated` where every record that the
    /// staker has there is paid out already; the ledger is then left as it was.
    pub fn terminate(
        &mut self,
        staker: &AccountKey,
        package_index: u8,
    ) -> (done: Result<(), ErrorCode>)
        ensures
            has_active(old(self)@, staker@, package_index as nat) ==> done == Ok::<(), ErrorCode>(
                (),
            ) && final(self)@ == terminate_first(old(self)@, staker@, package_index as nat),
            !has_active(old(self)@, staker@, package_index as nat) ==> final(self)@ == old(
                self,
            )@,
            !has_active(old(self)@, staker@, package_index as nat) && has_record(
                old(self)@,
                staker@,
                package_index as nat,
            ) ==> done == Err::<(), ErrorCode>(ErrorCode::StakeAlreadyTerminated),
            !has_record(old(self)@, staker@, package_index as nat) ==> done == Err::<
                (),
                ErrorCode,
            >(ErrorCode::AccountNeverStaked),
            history_kept(old(self)@, final(self)@),
    {
        match self.active_position(staker, package_index) {
            Some(i) => {
                self.logs[i].terminated = true;
                assert(self@ =~= terminate_first(old(self)@, staker@, package_index as nat));
                Ok(())
            },
            None => {
                if self.has_record(staker, package_index) {
                    Err(ErrorCode::StakeAlreadyTerminated)
                } else {
                    assert(!has_active(old(self)@, staker@, package_index as nat));
                    Err(ErrorCode::AccountNeverStaked)
                }
            },
        }
    }
}

} // verus!
