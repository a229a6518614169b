use reconciliation_engine::amount::Amount;
use reconciliation_engine::cursor::compute_window;
use reconciliation_engine::obligation::{ObligationState, PendingObligation, SettlementRecord};

fn amount(text: &str) -> Amount {
    Amount::parse(text).unwrap()
}

fn open_row(id: i64, created_at: i64) -> PendingObligation {
    PendingObligation {
        id,
        user_id: 1,
        expected_amount: amount("10.0005"),
        created_at,
        state: ObligationState::Unsettled,
    }
}

fn closed_row(id: i64, created_at: i64, transfer_id: &str) -> PendingObligation {
    PendingObligation {
        id,
        user_id: 1,
        expected_amount: amount("10.0005"),
        created_at,
        state: ObligationState::Settled(SettlementRecord {
            transfer_id: transfer_id.to_string(),
            balance_before: amount("0"),
            balance_after: amount("10"),
        }),
    }
}

#[test]
fn window_is_absent_without_unsettled_obligations() {
    assert!(compute_window(&vec![]).is_none());
    assert!(compute_window(&vec![closed_row(1, 100, "a"), closed_row(2, 200, "b")]).is_none());
}

#[test]
fn window_starts_at_the_oldest_unsettled_obligation() {
    let rows = vec![open_row(5, 500), open_row(7, 300), open_row(9, 900)];
    let w = compute_window(&rows).unwrap();
    assert_eq!(w.since_timestamp, 500);
    assert_eq!(w.stop_boundary, None);
}

#[test]
fn window_goes_by_identifier_not_by_position() {
    let rows = vec![open_row(9, 900), open_row(5, 500), closed_row(4, 400, "d"), open_row(7, 300)];
    let w = compute_window(&rows).unwrap();
    assert_eq!(w.since_timestamp, 500);
    assert_eq!(w.stop_boundary, Some("d".to_string()));
}

#[test]
fn boundary_is_the_last_settlement_before_the_oldest_unsettled() {
    let rows = vec![
        closed_row(1, 100, "a"),
        closed_row(3, 300, "c"),
        closed_row(2, 200, "b"),
        open_row(4, 400),
        closed_row(6, 600, "f"),
        open_row(8, 800),
    ];
    let w = compute_window(&rows).unwrap();
    assert_eq!(w.since_timestamp, 400);
    assert_eq!(w.stop_boundary, Some("c".to_string()));
}

#[test]
fn boundary_is_absent_when_nothing_was_settled_before() {
    let rows = vec![open_row(4, 400), closed_row(6, 600, "f"), closed_row(4, 1, "same")];
    let w = compute_window(&rows).unwrap();
    assert_eq!(w.since_timestamp, 400);
    assert_eq!(w.stop_boundary, None);
}

#[test]
fn first_of_equal_identifiers_decides() {
    let rows = vec![closed_row(1, 10, "x"), closed_row(1, 20, "y"), open_row(2, 30), open_row(2, 40)];
    let w = compute_window(&rows).unwrap();
    assert_eq!(w.since_timestamp, 30);
    assert_eq!(w.stop_boundary, Some("x".to_string()));
}
