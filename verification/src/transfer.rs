use vstd::prelude::*;
use crate::account::AccountKey;

verus! {

/// One end of a movement of value.
#[derive(Clone, Copy, Debug, PartialEq, Eq)]
pub enum Party {
    /// An account outside the ledger, named by its key.
    Account(AccountKey),
    /// The escrow that holds the deposits and pays the rewards.
    Escrow,
}

/// A [`Party`] with the account's key as its bytes.
pub enum PartyView {
    Account(Seq<u8>),
    Escrow,
}

impl View for Party {
    type V = PartyView;

    open spec fn view(&self) -> PartyView {
        match self {
            Party::Account(key) => PartyView::Account(key@),
            Party::Escrow => PartyView::Escrow,
        }
    }
}

/// An instruction to the transfer service: move `amount` from `from` to `to`,
/// on the authority of `authority`.
///
/// The ledger never moves value itself. It says which transfer goes with an
/// operation, and is told afterwards whether that transfer went through.
#[derive(Clone, Copy, Debug, PartialEq, Eq)]
pub struct Transfer {
    pub from: Party,
    pub to: Party,
    pub amount: u64,
    pub authority: Party,
}

/// A [`Transfer`] over mathematical values.
pub struct TransferView {
    pub from: PartyView,
    pub to: PartyView,
    pub amount: nat,
    pub authority: PartyView,
}

impl View for Transfer {
    type V = TransferView;

    open spec fn view(&self) -> TransferView {
        TransferView {
            from: self.from@,
            to: self.to@,
            amount: self.amount as nat,
            authority: self.authority@,
        }
    }
}

/// The transfer that pays `amount` into the escrow from the account `payer`,
/// which also authorises it.
pub open spec fn payment_into_escrow(payer: Seq<u8>, amount: nat) -> TransferView {
    TransferView {
        from: PartyView::Account(payer),
        to: PartyView::Escrow,
        amount,
        authority: PartyView::Account(payer),
    }
}

/// The transfer that pays `amount` out of the escrow to the account `payee`.
/// The escrow authorises it itself: the payee's signature plays no part.
pub open spec fn payment_from_escrow(payee: Seq<u8>, amount: nat) -> TransferView {
    TransferView {
        from: PartyView::Escrow,
        to: PartyView::Account(payee),
        amount,
        authority: PartyView::Escrow,
    }
}

impl Transfer {
    /// Builds the transfer `payment_into_escrow(payer, amount)`.
    pub fn into_escrow(payer: AccountKey, amount: u64) -> (transfer: Transfer)
        ensures
            transfer@ == payment_into_escrow(payer@, amount as nat),
            transfer.amount == amount,
            transfer.from == Party::Account(payer),
            transfer.to == Party::Escrow,
            transfer.authority == Party::Account(payer),
    {
        Transfer {
            from: Party::Account(payer),
            to: Party::Escrow,
            amount,
            authority: Party::Account(payer),
        }
    }

    /// Builds the transfer `payment_from_escrow(payee, amount)`.
    pub fn from_escrow(payee: AccountKey, amount: u64) -> (transfer: Transfer)
        ensures
            transfer@ == payment_from_escrow(payee@, amount as nat),
            transfer.amount == amount,
            transfer.from == Party::Escrow,
            transfer.to == Party::Account(payee),
            transfer.authority == Party::Escrow,
    {
        Transfer {
            from: Party::Escrow,
            to: Party::Account(payee),
            amount,
            authority: Party::Escrow,
        }
    }
}

/// Tops the escrow up by `deposit_amount`, paid and authorised by `operator`.
///
/// This touches neither the catalog nor the stake records: all it decides is
/// the transfer to be made.
pub fn charge_escrow(operator: AccountKey, deposit_amount: u64) -> (transfer: Transfer)
    ensures
        transfer@ == payment_into_escrow(operator@, deposit_amount as nat),
        transfer.amount == deposit_amount,
        transfer.from == Party::Account(operator),
        transfer.to == Party::Escrow,
        transfer.authority == Party::Account(operator),
{
    Transfer::into_escrow(operator, deposit_amount)
}

} // verus!
