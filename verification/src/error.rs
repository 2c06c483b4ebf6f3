use vstd::prelude::*;

verus! {

/// Why a stake or a withdrawal was turned down.
#[derive(Clone, Copy, Debug, PartialEq, Eq, Structural)]
pub enum ErrorCode {
    /// The tier index does not name a tier of the catalog.
    InvalidPackageIndex,
    /// The staker already holds an open stake in the tier.
    AccountAlreadyStaked,
    /// Every slot of the tier has been taken.
    PackageSlotFulFilled,
    /// The staker has never staked in the tier.
    AccountNeverStaked,
    /// The holding period of the stake has not yet run out.
    InvalidLockTime,
    /// Every stake of the staker in the tier has already been paid out.
    StakeAlreadyTerminated,
}

impl ErrorCode {
    /// The message that goes with the error.
    pub fn message(&self) -> (text: &'static str)
        ensures
            text@ == self.message_text(),
    {
        match self {
            ErrorCode::InvalidPackageIndex => "Invalid package index. It must be 0 ~ 5",
            ErrorCode::AccountAlreadyStaked => "Account already staked on same package",
            ErrorCode::PackageSlotFulFilled => "Package slot fulfilled",
            ErrorCode::AccountNeverStaked => "Account never staked",
            ErrorCode::InvalidLockTime => "Lock time period is not satisfied",
            ErrorCode::StakeAlreadyTerminated => "Stake already terminated",
        }
    }

    /// The text of [`ErrorCode::message`], as a sequence of characters.
    pub open spec fn message_text(&self) -> Seq<char> {
        match self {
            ErrorCode::InvalidPackageIndex => "Invalid package index. It must be 0 ~ 5"@,
            ErrorCode::AccountAlreadyStaked => "Account already staked on same package"@,
            ErrorCode::PackageSlotFulFilled => "Package slot fulfilled"@,
            ErrorCode::AccountNeverStaked => "Account never staked"@,
            ErrorCode::InvalidLockTime => "Lock time period is not satisfied"@,
            ErrorCode::StakeAlreadyTerminated => "Stake already terminated"@,
        }
    }
}

/// Why an operation did not go through: the ledger turned it down, or the
/// transfer that goes with it failed.
///
/// `E` is whatever the transfer service reports; it is handed on as it came.
#[derive(Clone, Debug, PartialEq, Eq)]
pub enum StakingError<E> {
    /// The ledger turned the request down, for the reason given.
    Rejected(ErrorCode),
    /// The transfer service failed, with the failure it reported.
    TransferFailure(E),
}

} // verus!
