//! Pending payment obligations, user balances and the settlement that moves
//! an obligation from unsettled to settled.

use crate::amount::Amount;
use crate::transfer::{ObservedTransfer, TransferView};
use vstd::prelude::*;

verus! {

/// What was recorded when an obligation was settled.
#[derive(Debug)]
pub struct SettlementRecord {
    /// The transfer that settled the obligation.
    pub transfer_id: String,
    /// The owner's balance before the settlement.
    pub balance_before: Amount,
    /// The owner's balance after the settlement.
    pub balance_after: Amount,
}

pub struct SettlementRecordView {
    pub transfer_id: Seq<char>,
    pub balance_before: int,
    pub balance_after: int,
}

impl View for SettlementRecord {
    type V = SettlementRecordView;

    open spec fn view(&self) -> SettlementRecordView {
        SettlementRecordView {
            transfer_id: self.transfer_id@,
            balance_before: self.balance_before@,
            balance_after: self.balance_after@,
        }
    }
}

/// Whether an obligation is still owed. A settled obligation carries the
/// record of its settlement, so a transfer id is present exactly on settled
/// obligations.
#[derive(Debug)]
pub enum ObligationState {
    Unsettled,
    Settled(SettlementRecord),
}

/// One expected incoming payment.
#[derive(Debug)]
pub struct PendingObligation {
    pub id: i64,
    pub user_id: i64,
    pub expected_amount: Amount,
    /// Unix time at which the obligation was created.
    pub created_at: i64,
    pub state: ObligationState,
}

pub struct ObligationView {
    pub id: int,
    pub user_id: int,
    pub expected_amount: int,
    pub created_at: int,
    /// `None` while unsettled.
    pub settlement: Option<SettlementRecordView>,
}

impl View for PendingObligation {
    type V = ObligationView;

    open spec fn view(&self) -> ObligationView {
        ObligationView {
            id: self.id as int,
            user_id: self.user_id as int,
            expected_amount: self.expected_amount@,
            created_at: self.created_at as int,
            settlement: match self.state {
                ObligationState::Unsettled => None,
                ObligationState::Settled(record) => Some(record@),
            },
        }
    }
}

impl DeepView for PendingObligation {
    type V = ObligationView;

    open spec fn deep_view(&self) -> ObligationView {
        self@
    }
}

/// A user's balance.
#[derive(Debug)]
pub struct UserAccount {
    pub id: i64,
    pub balance: Amount,
}

pub struct AccountView {
    pub id: int,
    pub balance: int,
}

impl View for UserAccount {
    type V = AccountView;

    open spec fn view(&self) -> AccountView {
        AccountView { id: self.id as int, balance: self.balance@ }
    }
}

/// Why a settlement was not applied.
#[derive(Clone, Copy, Debug, PartialEq, Eq, Structural)]
pub enum SettlementError {
    /// The obligation is settled already; it is settled once only.
    AlreadySettled,
    /// The account is not the one that owns the obligation.
    NotOwner,
}

/// The outcome of a settlement attempt, as values: the obligation and the
/// account afterwards, and whether the settlement was applied.
pub struct SettlementOutcome {
    pub obligation: ObligationView,
    pub account: AccountView,
    pub result: Result<(), SettlementError>,
}

/// Settling `obligation`, owned by `account`, with `transfer`.
///
/// An unsettled obligation of this account becomes settled by the transfer,
/// and the balance grows by the amount that was observed, not by the amount
/// that was expected. Anything else is refused and changes nothing.
pub open spec fn settled_with(
    obligation: ObligationView,
    account: AccountView,
    transfer: TransferView,
) -> SettlementOutcome {
    if obligation.settlement is Some {
        SettlementOutcome { obligation, account, result: Err(SettlementError::AlreadySettled) }
    } else if account.id != obligation.user_id {
        SettlementOutcome { obligation, account, result: Err(SettlementError::NotOwner) }
    } else {
        let after = account.balance + transfer.amount;
        SettlementOutcome {
            obligation: ObligationView {
                settlement: Some(
                    SettlementRecordView {
                        transfer_id: transfer.transfer_id,
                        balance_before: account.balance,
                        balance_after: after,
                    },
                ),
                ..obligation
            },
            account: AccountView { balance: after, ..account },
            result: Ok(()),
        }
    }
}

/// Applies a settlement to the obligation and to its owner's account, both
/// or neither.
pub fn settle(
    obligation: &mut PendingObligation,
    account: &mut UserAccount,
    transfer: &ObservedTransfer,
) -> (r: Result<(), SettlementError>)
    ensures
        final(obligation)@ == settled_with(old(obligation)@, old(account)@, transfer@).obligation,
        final(account)@ == settled_with(old(obligation)@, old(account)@, transfer@).account,
        r == settled_with(old(obligation)@, old(account)@, transfer@).result,
        r is Err ==> *final(obligation) == *old(obligation) && *final(account) == *old(account),
{
    match obligation.state {
        ObligationState::Settled(_) => {
            return Err(SettlementError::AlreadySettled);
        },
        ObligationState::Unsettled => {},
    }
    if account.id != obligation.user_id {
        return Err(SettlementError::NotOwner);
    }
    let before = account.balance.clone();
    let after = account.balance.plus(&transfer.amount);
    let recorded = after.clone();
    account.balance = after;
    obligation.state = ObligationState::Settled(
        SettlementRecord {
            transfer_id: transfer.transfer_id.clone(),
            balance_before: before,
            balance_after: recorded,
        },
    );
    Ok(())
}

/// An obligation is settled at most once: after a settlement was applied,
/// every further attempt on the obligation is refused, whatever the account
/// and the transfer, and changes neither.
pub proof fn law_settled_at_most_once(
    obligation: ObligationView,
    account: AccountView,
    transfer: TransferView,
    later_account: AccountView,
    later_transfer: TransferView,
)
    requires
        settled_with(obligation, account, transfer).result is Ok,
    ensures
        ({
            let first = settled_with(obligation, account, transfer);
            let second = settled_with(first.obligation, later_account, later_transfer);
            &&& second.result == Err::<(), SettlementError>(SettlementError::AlreadySettled)
            &&& second.obligation == first.obligation
            &&& second.account == later_account
        }),
{
}

/// A settled obligation stays settled, with the record it has: no attempt
/// takes it back to unsettled or replaces the transfer that settled it.
pub proof fn law_settlement_is_final(
    obligation: ObligationView,
    account: AccountView,
    transfer: TransferView,
)
    requires
        obligation.settlement is Some,
    ensures
        settled_with(obligation, account, transfer).obligation == obligation,
        settled_with(obligation, account, transfer).account == account,
        settled_with(obligation, account, transfer).result is Err,
{
}

/// An applied settlement marks the obligation with the transfer and moves
/// the balance by exactly the observed amount, whatever was expected; the
/// record holds the balance before and after. Identifier, owner, expected
/// amount and creation time stay as they were.
pub proof fn law_settlement_credits_observed_amount(
    obligation: ObligationView,
    account: AccountView,
    transfer: TransferView,
)
    requires
        settled_with(obligation, account, transfer).result is Ok,
    ensures
        ({
            let after = settled_with(obligation, account, transfer);
            &&& obligation.settlement is None
            &&& after.account.balance - account.balance == transfer.amount
            &&& after.account.id == account.id
            &&& after.obligation.settlement is Some
            &&& after.obligation.settlement->0.transfer_id == transfer.transfer_id
            &&& after.obligation.settlement->0.balance_before == account.balance
            &&& after.obligation.settlement->0.balance_after == after.account.balance
            &&& after.obligation.id == obligation.id
            &&& after.obligation.user_id == obligation.user_id
            &&& after.obligation.expected_amount == obligation.expected_amount
            &&& after.obligation.created_at == obligation.created_at
        }),
{
}

/// A balance that is not negative stays so under any settlement with a
/// transfer whose amount is not negative.
pub proof fn law_balance_stays_non_negative(
    obligation: ObligationView,
    account: AccountView,
    transfer: TransferView,
)
    requires
        account.balance >= 0,
        transfer.amount >= 0,
    ensures
        settled_with(obligation, account, transfer).account.balance >= 0,
{
}

} // verus!
