use reconciliation_engine::amount::Amount;
use reconciliation_engine::matcher::{matches_expected, MATCH_PLACES, TOLERANCE};
use reconciliation_engine::obligation::{ObligationState, PendingObligation, SettlementRecord};
use reconciliation_engine::pending::PendingSet;

fn amount(text: &str) -> Amount {
    Amount::parse(text).unwrap()
}

fn unsettled(id: i64, expected: &str) -> PendingObligation {
    PendingObligation {
        id,
        user_id: 7,
        expected_amount: amount(expected),
        created_at: 1_700_000_000 + id,
        state: ObligationState::Unsettled,
    }
}

fn settled(id: i64, expected: &str, transfer_id: &str) -> PendingObligation {
    PendingObligation {
        id,
        user_id: 7,
        expected_amount: amount(expected),
        created_at: 1_700_000_000 + id,
        state: ObligationState::Settled(SettlementRecord {
            transfer_id: transfer_id.to_string(),
            balance_before: amount("0"),
            balance_after: amount(expected),
        }),
    }
}

fn ids(set: &PendingSet) -> Vec<i64> {
    (0..set.len()).map(|i| set.id_at(i).unwrap()).collect()
}

#[test]
fn tolerance_and_places_are_two_and_three() {
    assert_eq!(TOLERANCE, 2);
    assert_eq!(MATCH_PLACES, 3);
}

#[test]
fn amount_just_below_expected_matches() {
    assert!(matches_expected(&amount("100.0009"), &amount("100")));
    assert!(matches_expected(&amount("100.0009"), &amount("100.0008")));
    assert!(matches_expected(&amount("50.123456"), &amount("50.123")));
    assert!(matches_expected(&amount("50.123456"), &amount("50.123455")));
    assert!(matches_expected(&amount("0.0005"), &amount("0.0001")));
}

#[test]
fn amount_equal_to_expected_does_not_match() {
    assert!(!matches_expected(&amount("100"), &amount("100")));
    assert!(!matches_expected(&amount("100"), &amount("100.000")));
    assert!(!matches_expected(&amount("50.123456"), &amount("50.123456")));
}

#[test]
fn amount_above_expected_does_not_match() {
    assert!(!matches_expected(&amount("100"), &amount("100.0001")));
    assert!(!matches_expected(&amount("50.1231"), &amount("50.1239")));
}

#[test]
fn amount_in_range_with_other_leading_digits_does_not_match() {
    assert!(!matches_expected(&amount("100"), &amount("98.5")));
    assert!(!matches_expected(&amount("100"), &amount("98")));
    assert!(!matches_expected(&amount("100"), &amount("99.999")));
    assert!(!matches_expected(&amount("100"), &amount("99.9999")));
    assert!(!matches_expected(&amount("50.123456"), &amount("49.5")));
    assert!(!matches_expected(&amount("50.123456"), &amount("50.1229")));
}

#[test]
fn amount_below_the_window_does_not_match() {
    assert!(!matches_expected(&amount("100"), &amount("97.999")));
    assert!(!matches_expected(&amount("100"), &amount("0")));
}

#[test]
fn amounts_that_straddle_zero_match_when_both_truncate_to_zero() {
    assert!(matches_expected(&amount("0.0005"), &amount("-0.0005")));
    assert!(!matches_expected(&amount("0.0005"), &amount("-0.001")));
}

#[test]
fn first_of_two_equal_obligations_is_matched() {
    let rows = vec![unsettled(1, "100.0005"), unsettled(2, "100.0005")];
    let mut set = PendingSet::load(&rows).unwrap();
    assert_eq!(set.find_match(&amount("100.0001")), Some(0));
    assert_eq!(set.take_match(&amount("100.0001")), Some(1));
    assert_eq!(ids(&set), vec![2]);
    assert_eq!(set.take_match(&amount("100.0001")), Some(2));
    assert!(set.is_empty());
    assert_eq!(set.take_match(&amount("100.0001")), None);
}

#[test]
fn transfer_of_98_5_agrees_with_100_on_no_leading_digits() {
    let rows = vec![unsettled(1, "100"), unsettled(2, "100")];
    let mut set = PendingSet::load(&rows).unwrap();
    assert!(amount("98.5").at_least(&amount("100").minus(&Amount::whole(TOLERANCE))));
    assert!(amount("98.5").less_than(&amount("100")));
    assert!(!amount("98.5").truncated_to(3).same_value(&amount("100").truncated_to(3)));
    assert_eq!(set.take_match(&amount("98.5")), None);
    assert_eq!(ids(&set), vec![1, 2]);
}

#[test]
fn transfer_of_97_999_does_not_match_100() {
    let rows = vec![unsettled(1, "100")];
    let mut set = PendingSet::load(&rows).unwrap();
    assert_eq!(set.find_match(&amount("97.999")), None);
    assert_eq!(set.take_match(&amount("97.999")), None);
    assert_eq!(ids(&set), vec![1]);
}

#[test]
fn match_skips_obligations_that_are_not_answered() {
    let rows = vec![unsettled(3, "10"), unsettled(5, "20.5"), unsettled(9, "20.5004")];
    let mut set = PendingSet::load(&rows).unwrap();
    assert_eq!(set.find_match(&amount("20.5001")), Some(2));
    assert_eq!(set.find_match(&amount("20.4999")), None);
    assert_eq!(set.find_match(&amount("20.50")), Some(2));
    assert_eq!(set.take_match(&amount("20.5001")), Some(9));
    assert_eq!(ids(&set), vec![3, 5]);
}

#[test]
fn load_leaves_settled_obligations_out() {
    let rows = vec![settled(1, "5", "t1"), unsettled(2, "6"), settled(3, "7", "t3"), unsettled(4, "8")];
    let set = PendingSet::load(&rows).unwrap();
    assert_eq!(set.len(), 2);
    assert_eq!(ids(&set), vec![2, 4]);
    assert_eq!(set.id_at(2), None);
}

#[test]
fn load_of_nothing_unsettled_is_empty() {
    let set = PendingSet::load(&vec![settled(1, "5", "t1")]).unwrap();
    assert!(set.is_empty());
    assert_eq!(set.len(), 0);
    assert!(PendingSet::load(&vec![]).unwrap().is_empty());
}

#[test]
fn load_refuses_unsettled_obligations_out_of_order() {
    assert!(PendingSet::load(&vec![unsettled(2, "6"), unsettled(1, "5")]).is_none());
    assert!(PendingSet::load(&vec![unsettled(2, "6"), unsettled(2, "5")]).is_none());
    assert!(PendingSet::load(&vec![unsettled(2, "6"), settled(1, "5", "t"), unsettled(3, "6")]).is_some());
}
