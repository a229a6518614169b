use reconciliation_engine::amount::Amount;
use reconciliation_engine::obligation::{
    settle, ObligationState, PendingObligation, SettlementError, UserAccount,
};
use reconciliation_engine::transfer::ObservedTransfer;

fn amount(text: &str) -> Amount {
    Amount::parse(text).unwrap()
}

fn obligation(expected: &str) -> PendingObligation {
    PendingObligation {
        id: 11,
        user_id: 3,
        expected_amount: amount(expected),
        created_at: 1_700_000_000,
        state: ObligationState::Unsettled,
    }
}

fn transfer(id: &str, value: &str) -> ObservedTransfer {
    ObservedTransfer {
        transfer_id: id.to_string(),
        from_address: "TPayer".to_string(),
        to_address: "TWatched".to_string(),
        amount: amount(value),
        asset_symbol: "USDT".to_string(),
    }
}

#[test]
fn settlement_credits_the_observed_amount() {
    let mut o = obligation("50.123456");
    let mut account = UserAccount { id: 3, balance: amount("1000.25") };
    assert_eq!(settle(&mut o, &mut account, &transfer("tx-9", "49.5")), Ok(()));
    assert!(account.balance.same_value(&amount("1049.75")));
    assert!(!account.balance.same_value(&amount("1050.373456")));
    assert_eq!(account.id, 3);
    match &o.state {
        ObligationState::Settled(record) => {
            assert_eq!(record.transfer_id, "tx-9");
            assert!(record.balance_before.same_value(&amount("1000.25")));
            assert!(record.balance_after.same_value(&amount("1049.75")));
        }
        ObligationState::Unsettled => panic!("the obligation is still unsettled"),
    }
    assert!(o.expected_amount.same_value(&amount("50.123456")));
    assert_eq!((o.id, o.user_id, o.created_at), (11, 3, 1_700_000_000));
}

#[test]
fn settlement_from_a_zero_balance() {
    let mut o = obligation("50.123456");
    let mut account = UserAccount { id: 3, balance: Amount::whole(0) };
    assert_eq!(settle(&mut o, &mut account, &transfer("tx-9", "50.123")), Ok(()));
    assert!(account.balance.same_value(&amount("50.123")));
}

#[test]
fn second_settlement_is_refused() {
    let mut o = obligation("50.123456");
    let mut account = UserAccount { id: 3, balance: amount("0") };
    assert_eq!(settle(&mut o, &mut account, &transfer("tx-9", "49.5")), Ok(()));
    assert_eq!(
        settle(&mut o, &mut account, &transfer("tx-10", "49.5")),
        Err(SettlementError::AlreadySettled)
    );
    assert_eq!(
        settle(&mut o, &mut account, &transfer("tx-9", "49.5")),
        Err(SettlementError::AlreadySettled)
    );
    assert!(account.balance.same_value(&amount("49.5")));
    match &o.state {
        ObligationState::Settled(record) => assert_eq!(record.transfer_id, "tx-9"),
        ObligationState::Unsettled => panic!("the obligation is still unsettled"),
    }
}

#[test]
fn settlement_on_another_account_is_refused() {
    let mut o = obligation("50.123456");
    let mut account = UserAccount { id: 4, balance: amount("7") };
    assert_eq!(
        settle(&mut o, &mut account, &transfer("tx-9", "49.5")),
        Err(SettlementError::NotOwner)
    );
    assert!(account.balance.same_value(&amount("7")));
    assert!(matches!(o.state, ObligationState::Unsettled));
}
