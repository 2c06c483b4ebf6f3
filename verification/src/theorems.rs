//! What follows from the rules of [`crate::engine`] when operations are
//! taken one after another. Each statement is over the views of the states,
//! in the terms in which the operations' own contracts are written.

use vstd::prelude::*;
use crate::catalog::{has_free_slot, initial_catalog, same_terms, valid_index, PackageView};
use crate::engine::{
    after_stake, after_withdraw, consistent, initial_storage, lemma_initial_storage_consistent,
    lemma_stake_keeps_consistent, lemma_withdraw_keeps_consistent, stake_decision, unlock_time,
    withdraw_decision, StorageView,
};
use crate::error::ErrorCode;
use crate::ledger::{
    closed_record, first_active, has_active, has_record, history_kept, is_first_active,
    lemma_first_active_exists, lemma_first_active_unique, opened_record, record_active,
    record_matches, tier_records,
};
use crate::transfer::{payment_from_escrow, payment_into_escrow, TransferView};

verus! {

/// Once a stake has been entered, it is the staker's open stake in the tier:
/// the earliest one, since the staker held none before.
pub proof fn lemma_new_stake_is_first_active(s: StorageView, staker: Seq<u8>, package_index: nat, now: int)
    requires
        stake_decision(s, staker, package_index) is Ok,
    ensures
        first_active(after_stake(s, staker, package_index, now).stake_logs, staker, package_index)
            == s.stake_logs.len(),
        has_active(after_stake(s, staker, package_index, now).stake_logs, staker, package_index),
        has_record(after_stake(s, staker, package_index, now).stake_logs, staker, package_index),
        unlock_time(after_stake(s, staker, package_index, now), staker, package_index) == now
            + s.packages[package_index as int].period,
{
    let t = after_stake(s, staker, package_index, now);
    let n = s.stake_logs.len() as int;
    assert(t.stake_logs[n] == opened_record(staker, package_index, now));
    assert forall|j: int| 0 <= j < n implies !record_active(
        #[trigger] t.stake_logs[j],
        staker,
        package_index,
    ) by {
        assert(t.stake_logs[j] == s.stake_logs[j]);
    }
    assert(is_first_active(t.stake_logs, staker, package_index, n));
    lemma_first_active_unique(t.stake_logs, staker, package_index, n);
    assert(record_matches(t.stake_logs[n], staker, package_index));
}

/// A staker who has just staked in a tier cannot stake in it again: the
/// second request is turned down with `AccountAlreadyStaked`.
pub proof fn theorem_second_stake_rejected(s: StorageView, staker: Seq<u8>, package_index: nat, now: int)
    requires
        stake_decision(s, staker, package_index) is Ok,
    ensures
        stake_decision(after_stake(s, staker, package_index, now), staker, package_index) == Err::<
            TransferView,
            ErrorCode,
        >(ErrorCode::AccountAlreadyStaked),
{
    lemma_new_stake_is_first_active(s, staker, package_index, now);
}

/// In a tier that has as many records as it has slots, a staker who holds no
/// open stake there is turned down with `PackageSlotFulFilled`, whoever it
/// is. (A staker who does hold one is turned down with
/// `AccountAlreadyStaked`, which is tried first.)
pub proof fn theorem_full_tier_rejects(s: StorageView, staker: Seq<u8>, package_index: nat)
    requires
        consistent(s),
        valid_index(s.packages, package_index),
        tier_records(s.stake_logs, package_index)
            == s.packages[package_index as int].slot_limit,
    ensures
        !has_active(s.stake_logs, staker, package_index) ==> stake_decision(
            s,
            staker,
            package_index,
        ) == Err::<TransferView, ErrorCode>(ErrorCode::PackageSlotFulFilled),
        has_active(s.stake_logs, staker, package_index) ==> stake_decision(s, staker, package_index)
            == Err::<TransferView, ErrorCode>(ErrorCode::AccountAlreadyStaked),
{
    assert(s.packages[package_index as int].slot_count == tier_records(
        s.stake_logs,
        package_index,
    ));
}

/// The state after the stakers of `stakers` have asked, one after another, to
/// stake in tier `package_index`, the i-th at time `times[i]`. A request that
/// is turned down leaves the state as it was.
pub open spec fn after_stakes(
    s: StorageView,
    stakers: Seq<Seq<u8>>,
    times: Seq<int>,
    package_index: nat,
) -> StorageView
    decreases stakers.len(),
{
    if stakers.len() == 0 {
        s
    } else {
        let before = after_stakes(s, stakers.drop_last(), times.drop_last(), package_index);
        if stake_decision(before, stakers.last(), package_index) is Ok {
            after_stake(before, stakers.last(), package_index, times.last())
        } else {
            before
        }
    }
}

/// Whether every request of the run of [`after_stakes`] goes through.
pub open spec fn stakes_all_accepted(
    s: StorageView,
    stakers: Seq<Seq<u8>>,
    times: Seq<int>,
    package_index: nat,
) -> bool
    decreases stakers.len(),
{
    if stakers.len() == 0 {
        true
    } else {
        &&& stakes_all_accepted(s, stakers.drop_last(), times.drop_last(), package_index)
        &&& stake_decision(
            after_stakes(s, stakers.drop_last(), times.drop_last(), package_index),
            stakers.last(),
            package_index,
        ) is Ok
    }
}

/// Whether no two places of `stakers` hold the same staker.
pub open spec fn distinct_stakers(stakers: Seq<Seq<u8>>) -> bool {
    forall|i: int, j: int|
        0 <= i < j < stakers.len() ==> #[trigger] stakers[i] != #[trigger] stakers[j]
}

/// As long as slots are free, distinct stakers without an open stake in the
/// tier are all admitted, each taking one slot.
pub proof fn lemma_stakes_fill_slots(
    s: StorageView,
    stakers: Seq<Seq<u8>>,
    times: Seq<int>,
    package_index: nat,
)
    requires
        consistent(s),
        valid_index(s.packages, package_index),
        stakers.len() == times.len(),
        distinct_stakers(stakers),
        forall|i: int|
            0 <= i < stakers.len() ==> !has_active(s.stake_logs, #[trigger] stakers[i], package_index),
        s.packages[package_index as int].slot_count + stakers.len()
            <= s.packages[package_index as int].slot_limit,
    ensures
        stakes_all_accepted(s, stakers, times, package_index),
        consistent(after_stakes(s, stakers, times, package_index)),
        after_stakes(s, stakers, times, package_index).packages.len() == s.packages.len(),
        after_stakes(s, stakers, times, package_index).packages[package_index as int].slot_count
            == s.packages[package_index as int].slot_count + stakers.len(),
        after_stakes(s, stakers, times, package_index).packages[package_index as int].slot_limit
            == s.packages[package_index as int].slot_limit,
        after_stakes(s, stakers, times, package_index).stake_logs.len() == s.stake_logs.len()
            + stakers.len(),
        forall|x: Seq<u8>|
            #![trigger has_active(after_stakes(s, stakers, times, package_index).stake_logs, x, package_index)]
            has_active(
                after_stakes(s, stakers, times, package_index).stake_logs,
                x,
                package_index,
            ) <==> (has_active(s.stake_logs, x, package_index) || stakers.contains(x)),
    decreases stakers.len(),
{
    let t = after_stakes(s, stakers, times, package_index);
    if stakers.len() == 0 {
        assert forall|x: Seq<u8>|
            #![trigger has_active(t.stake_logs, x, package_index)]
            has_active(t.stake_logs, x, package_index) <==> (has_active(
                s.stake_logs,
                x,
                package_index,
            ) || stakers.contains(x)) by {}
    } else {
        let front = stakers.drop_last();
        let last = stakers.last();
        let now = times.last();
        assert forall|i: int, j: int| 0 <= i < j < front.len() implies #[trigger] front[i]
            != #[trigger] front[j] by {
            assert(front[i] == stakers[i]);
            assert(front[j] == stakers[j]);
        }
        assert forall|i: int| 0 <= i < front.len() implies !has_active(
            s.stake_logs,
            #[trigger] front[i],
            package_index,
        ) by {
            assert(front[i] == stakers[i]);
        }
        lemma_stakes_fill_slots(s, front, times.drop_last(), package_index);
        let b = after_stakes(s, front, times.drop_last(), package_index);
        assert(!front.contains(last)) by {
            if front.contains(last) {
                let i = choose|i: int| 0 <= i < front.len() && front[i] == last;
                assert(stakers[i] == front[i]);
                assert(stakers[stakers.len() - 1] == last);
            }
        }
        assert(!has_active(s.stake_logs, last, package_index)) by {
            assert(stakers[stakers.len() - 1] == last);
        }
        assert(!has_active(b.stake_logs, last, package_index));
        assert(stake_decision(b, last, package_index) is Ok);
        lemma_stake_keeps_consistent(b, last, package_index, now);
        lemma_new_stake_is_first_active(b, last, package_index, now);
        assert(t == after_stake(b, last, package_index, now));
        assert forall|x: Seq<u8>|
            #![trigger has_active(t.stake_logs, x, package_index)]
            has_active(t.stake_logs, x, package_index) <==> (has_active(
                s.stake_logs,
                x,
                package_index,
            ) || stakers.contains(x)) by {
            let n = b.stake_logs.len() as int;
            if has_active(t.stake_logs, x, package_index) {
                let i = choose|i: int|
                    0 <= i < t.stake_logs.len() && record_active(
                        #[trigger] t.stake_logs[i],
                        x,
                        package_index,
                    );
                if i < n {
                    assert(t.stake_logs[i] == b.stake_logs[i]);
                    assert(has_active(b.stake_logs, x, package_index));
                    if front.contains(x) {
                        let k = choose|k: int| 0 <= k < front.len() && front[k] == x;
                        assert(stakers[k] == x);
                    }
                } else {
                    assert(x == last);
                    assert(stakers[stakers.len() - 1] == x);
                }
            }
            if has_active(s.stake_logs, x, package_index) || stakers.contains(x) {
                if x == last {
                } else {
                    if stakers.contains(x) {
                        let k = choose|k: int| 0 <= k < stakers.len() && stakers[k] == x;
                        assert(front[k] == x);
                        assert(front.contains(x));
                    }
                    assert(has_active(b.stake_logs, x, package_index));
                    let i = choose|i: int|
                        0 <= i < b.stake_logs.len() && record_active(
                            #[trigger] b.stake_logs[i],
                            x,
                            package_index,
                        );
                    assert(t.stake_logs[i] == b.stake_logs[i]);
                }
            }
        }
    }
}

/// After as many distinct stakers as a tier has free slots have staked in it,
/// one after another, every one of them was admitted and the tier is full:
/// the next request is turned down whoever makes it, with
/// `PackageSlotFulFilled` where the staker holds no open stake in the tier
/// and with `AccountAlreadyStaked` where it does.
pub proof fn theorem_tier_fills_up(
    s: StorageView,
    stakers: Seq<Seq<u8>>,
    times: Seq<int>,
    package_index: nat,
    next: Seq<u8>,
)
    requires
        consistent(s),
        valid_index(s.packages, package_index),
        stakers.len() == times.len(),
        distinct_stakers(stakers),
        forall|i: int|
            0 <= i < stakers.len() ==> !has_active(s.stake_logs, #[trigger] stakers[i], package_index),
        s.packages[package_index as int].slot_count + stakers.len()
            == s.packages[package_index as int].slot_limit,
    ensures
        stakes_all_accepted(s, stakers, times, package_index),
        !has_active(s.stake_logs, next, package_index) && !stakers.contains(next)
            ==> stake_decision(
            after_stakes(s, stakers, times, package_index),
            next,
            package_index,
        ) == Err::<TransferView, ErrorCode>(ErrorCode::PackageSlotFulFilled),
        has_active(s.stake_logs, next, package_index) || stakers.contains(next)
            ==> stake_decision(
            after_stakes(s, stakers, times, package_index),
            next,
            package_index,
        ) == Err::<TransferView, ErrorCode>(ErrorCode::AccountAlreadyStaked),
{
    lemma_stakes_fill_slots(s, stakers, times, package_index);
    let t = after_stakes(s, stakers, times, package_index);
    assert(has_active(t.stake_logs, next, package_index) <==> (has_active(
        s.stake_logs,
        next,
        package_index,
    ) || stakers.contains(next)));
}

/// A staker without a record in a tier cannot withdraw from it: the request
/// is turned down with `AccountNeverStaked`, at any time.
pub proof fn theorem_withdraw_without_stake(s: StorageView, staker: Seq<u8>, package_index: nat, now: int)
    requires
        valid_index(s.packages, package_index),
        !has_record(s.stake_logs, staker, package_index),
    ensures
        withdraw_decision(s, staker, package_index, now) == Err::<TransferView, ErrorCode>(
            ErrorCode::AccountNeverStaked,
        ),
{
}

/// A stake is paid out once. After a withdrawal that went through, a second
/// one by the same staker from the same tier is turned down with
/// `StakeAlreadyTerminated`, at any time.
pub proof fn theorem_second_withdraw_rejected(
    s: StorageView,
    staker: Seq<u8>,
    package_index: nat,
    now: int,
    later: int,
)
    requires
        consistent(s),
        withdraw_decision(s, staker, package_index, now) is Ok,
    ensures
        withdraw_decision(after_withdraw(s, staker, package_index), staker, package_index, later)
            == Err::<TransferView, ErrorCode>(ErrorCode::StakeAlreadyTerminated),
{
    lemma_withdrawal_closes_the_stake(s, staker, package_index);
}

/// After a withdrawal the staker holds no open stake in the tier, and still
/// has a record there.
pub proof fn lemma_withdrawal_closes_the_stake(s: StorageView, staker: Seq<u8>, package_index: nat)
    requires
        consistent(s),
        has_active(s.stake_logs, staker, package_index),
    ensures
        !has_active(after_withdraw(s, staker, package_index).stake_logs, staker, package_index),
        has_record(after_withdraw(s, staker, package_index).stake_logs, staker, package_index),
{
    let t = after_withdraw(s, staker, package_index);
    lemma_first_active_exists(s.stake_logs, staker, package_index);
    let p = first_active(s.stake_logs, staker, package_index);
    assert(t.stake_logs[p] == closed_record(s.stake_logs[p]));
    assert(record_matches(t.stake_logs[p], staker, package_index));
    if has_active(t.stake_logs, staker, package_index) {
        let j = choose|j: int|
            0 <= j < t.stake_logs.len() && record_active(
                #[trigger] t.stake_logs[j],
                staker,
                package_index,
            );
        assert(j != p);
        assert(t.stake_logs[j] == s.stake_logs[j]);
        assert(!s.stake_logs[j].terminated && !s.stake_logs[p].terminated);
        if j < p {
            assert(!(s.stake_logs[j].staker == s.stake_logs[p].staker));
        } else {
            assert(!(s.stake_logs[p].staker == s.stake_logs[j].staker));
        }
    }
}

/// A staker who holds an open stake in a tier cannot withdraw from it before
/// the holding period has run out: the request is turned down with
/// `InvalidLockTime`.
pub proof fn theorem_withdraw_before_unlock(s: StorageView, staker: Seq<u8>, package_index: nat, now: int)
    requires
        valid_index(s.packages, package_index),
        has_active(s.stake_logs, staker, package_index),
        now < unlock_time(s, staker, package_index),
    ensures
        withdraw_decision(s, staker, package_index, now) == Err::<TransferView, ErrorCode>(
            ErrorCode::InvalidLockTime,
        ),
{
    let i = choose|i: int|
        0 <= i < s.stake_logs.len() && record_active(
            #[trigger] s.stake_logs[i],
            staker,
            package_index,
        );
    assert(record_matches(s.stake_logs[i], staker, package_index));
}

/// A stake entered at `entered` in a tier with holding period `p` can be
/// withdrawn from `entered + p` on and not before: an earlier request is
/// turned down with `InvalidLockTime`.
pub proof fn theorem_stake_locked_for_period(
    s: StorageView,
    staker: Seq<u8>,
    package_index: nat,
    entered: int,
    now: int,
)
    requires
        stake_decision(s, staker, package_index) is Ok,
    ensures
        now < entered + s.packages[package_index as int].period ==> withdraw_decision(
            after_stake(s, staker, package_index, entered),
            staker,
            package_index,
            now,
        ) == Err::<TransferView, ErrorCode>(ErrorCode::InvalidLockTime),
        now >= entered + s.packages[package_index as int].period ==> withdraw_decision(
            after_stake(s, staker, package_index, entered),
            staker,
            package_index,
            now,
        ) is Ok,
{
    lemma_new_stake_is_first_active(s, staker, package_index, entered);
}

/// A stake and its withdrawal move two amounts and no other: the tier's
/// deposit from the staker into the escrow, on the staker's authority, and
/// then the tier's reward from the escrow to the staker, on the escrow's
/// own.
pub proof fn theorem_stake_and_withdraw_amounts(
    s: StorageView,
    staker: Seq<u8>,
    package_index: nat,
    entered: int,
    now: int,
)
    requires
        stake_decision(s, staker, package_index) is Ok,
        now >= entered + s.packages[package_index as int].period,
    ensures
        stake_decision(s, staker, package_index) == Ok::<TransferView, ErrorCode>(
            payment_into_escrow(staker, s.packages[package_index as int].deposit_amount),
        ),
        withdraw_decision(after_stake(s, staker, package_index, entered), staker, package_index, now)
            == Ok::<TransferView, ErrorCode>(
            payment_from_escrow(staker, s.packages[package_index as int].reward_amount),
        ),
{
    lemma_new_stake_is_first_active(s, staker, package_index, entered);
}

/// A staker whose stake in a tier has been paid out can stake in it again,
/// as long as the tier has a free slot. The new stake gets a record of its
/// own at the end; the record of the earlier stake stays where it was, paid
/// out, and every other record is untouched. The new stake is then the one
/// that a withdrawal goes by.
pub proof fn theorem_restake_after_withdrawal(
    s: StorageView,
    staker: Seq<u8>,
    package_index: nat,
    now: int,
    again: int,
)
    requires
        consistent(s),
        withdraw_decision(s, staker, package_index, now) is Ok,
        has_free_slot(s.packages[package_index as int]),
    ensures
        ({
            let w = after_withdraw(s, staker, package_index);
            let r = after_stake(w, staker, package_index, again);
            let p = first_active(s.stake_logs, staker, package_index);
            &&& stake_decision(w, staker, package_index) == Ok::<TransferView, ErrorCode>(
                payment_into_escrow(staker, s.packages[package_index as int].deposit_amount),
            )
            &&& r.stake_logs.len() == s.stake_logs.len() + 1
            &&& r.stake_logs.last() == opened_record(staker, package_index, again)
            &&& 0 <= p < s.stake_logs.len()
            &&& r.stake_logs[p] == closed_record(s.stake_logs[p])
            &&& forall|i: int|
                0 <= i < s.stake_logs.len() && i != p ==> #[trigger] r.stake_logs[i]
                    == s.stake_logs[i]
            &&& first_active(r.stake_logs, staker, package_index) == s.stake_logs.len()
            &&& unlock_time(r, staker, package_index) == again
                + s.packages[package_index as int].period
            &&& consistent(r)
        }),
{
    let w = after_withdraw(s, staker, package_index);
    let r = after_stake(w, staker, package_index, again);
    lemma_first_active_exists(s.stake_logs, staker, package_index);
    lemma_withdrawal_closes_the_stake(s, staker, package_index);
    lemma_withdraw_keeps_consistent(s, staker, package_index, now);
    assert(stake_decision(w, staker, package_index) is Ok);
    lemma_new_stake_is_first_active(w, staker, package_index, again);
    lemma_stake_keeps_consistent(w, staker, package_index, again);
}

/// A request that changes the state when it goes through.
pub enum Operation {
    /// `staker` stakes in tier `package_index` at time `now`.
    Stake { staker: Seq<u8>, package_index: nat, now: int },
    /// `staker` withdraws from tier `package_index` at time `now`.
    Withdraw { staker: Seq<u8>, package_index: nat, now: int },
}

/// The state after a request: the state that the operation leads to where
/// the request goes through, and the state as it was where it is turned
/// down.
pub open spec fn after_operation(s: StorageView, operation: Operation) -> StorageView {
    match operation {
        Operation::Stake { staker, package_index, now } => {
            if stake_decision(s, staker, package_index) is Ok {
                after_stake(s, staker, package_index, now)
            } else {
                s
            }
        },
        Operation::Withdraw { staker, package_index, now } => {
            if withdraw_decision(s, staker, package_index, now) is Ok {
                after_withdraw(s, staker, package_index)
            } else {
                s
            }
        },
    }
}

/// The state after the requests of `operations`, taken one after another.
pub open spec fn after_operations(s: StorageView, operations: Seq<Operation>) -> StorageView
    decreases operations.len(),
{
    if operations.len() == 0 {
        s
    } else {
        after_operation(after_operations(s, operations.drop_last()), operations.last())
    }
}

/// One request keeps a consistent state consistent, leaves the terms of
/// every tier alone, lowers no tier's count, and keeps every record.
pub proof fn lemma_operation_keeps_consistent(s: StorageView, operation: Operation)
    requires
        consistent(s),
    ensures
        consistent(after_operation(s, operation)),
        same_terms(s.packages, after_operation(s, operation).packages),
        forall|k: int|
            0 <= k < s.packages.len() ==> s.packages[k].slot_count <= (#[trigger] after_operation(
                s,
                operation,
            ).packages[k]).slot_count,
        history_kept(s.stake_logs, after_operation(s, operation).stake_logs),
{
    match operation {
        Operation::Stake { staker, package_index, now } => {
            if stake_decision(s, staker, package_index) is Ok {
                lemma_stake_keeps_consistent(s, staker, package_index, now);
            }
        },
        Operation::Withdraw { staker, package_index, now } => {
            if withdraw_decision(s, staker, package_index, now) is Ok {
                lemma_withdraw_keeps_consistent(s, staker, package_index, now);
                lemma_first_active_exists(s.stake_logs, staker, package_index);
            }
        },
    }
}

/// Whatever is asked of a consistent state, and in whatever order, the state
/// stays consistent: no tier is ever over its limit, and no staker ever holds
/// two open stakes in one tier. The tiers stay the same in number and in
/// their terms, the count of a tier never goes down, and no record is ever
/// removed, changed in what it says of the stake, or opened again.
pub proof fn theorem_consistency_is_kept(s: StorageView, operations: Seq<Operation>)
    requires
        consistent(s),
    ensures
        consistent(after_operations(s, operations)),
        same_terms(s.packages, after_operations(s, operations).packages),
        forall|k: int|
            0 <= k < s.packages.len() ==> s.packages[k].slot_count <= (
            #[trigger] after_operations(s, operations).packages[k]).slot_count,
        history_kept(s.stake_logs, after_operations(s, operations).stake_logs),
    decreases operations.len(),
{
    if operations.len() > 0 {
        let before = after_operations(s, operations.drop_last());
        let after = after_operations(s, operations);
        theorem_consistency_is_kept(s, operations.drop_last());
        lemma_operation_keeps_consistent(before, operations.last());
        assert forall|i: int| 0 <= i < s.packages.len() implies (#[trigger] after.packages[i]) == (
        PackageView { slot_count: after.packages[i].slot_count, ..s.packages[i] }) by {
            assert(before.packages[i] == (PackageView {
                slot_count: before.packages[i].slot_count,
                ..s.packages[i]
            }));
        }
        assert forall|k: int| 0 <= k < s.packages.len() implies s.packages[k].slot_count <= (
        #[trigger] after.packages[k]).slot_count by {
            assert(s.packages[k].slot_count <= before.packages[k].slot_count);
        }
        assert forall|i: int| 0 <= i < s.stake_logs.len() implies (#[trigger] after.stake_logs[i])
            == s.stake_logs[i] || (!s.stake_logs[i].terminated && after.stake_logs[i]
            == closed_record(s.stake_logs[i])) by {
            assert(before.stake_logs[i] == s.stake_logs[i] || (!s.stake_logs[i].terminated
                && before.stake_logs[i] == closed_record(s.stake_logs[i])));
        }
    }
}

/// Every state that requests lead to from the state before the first stake
/// is consistent, and its catalog holds the six tiers on their first terms.
pub proof fn theorem_every_state_is_consistent(operations: Seq<Operation>)
    ensures
        consistent(after_operations(initial_storage(), operations)),
        same_terms(initial_catalog(), after_operations(initial_storage(), operations).packages),
{
    lemma_initial_storage_consistent();
    theorem_consistency_is_kept(initial_storage(), operations);
}

} // verus!
