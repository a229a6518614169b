use reconciliation_engine::amount::Amount;
use reconciliation_engine::engine::{
    Action, Engine, Event, FeedPage, LoopState, Pass, PassEnd, PassFailure, Step,
    DEFAULT_IDLE_BACKOFF_MILLIS, DEFAULT_PAGE_DELAY_MILLIS, DEFAULT_PAGE_SIZE,
};
use reconciliation_engine::obligation::{ObligationState, PendingObligation, SettlementRecord};
use reconciliation_engine::pass::{scan_records, ScanStop};
use reconciliation_engine::pending::PendingSet;
use reconciliation_engine::transfer::{AssetInfo, RawRecord, TransferFilter};

fn amount(text: &str) -> Amount {
    Amount::parse(text).unwrap()
}

fn engine() -> Engine {
    Engine::new("TWatched".to_string(), "USDT".to_string())
}

fn owed(id: i64, expected: &str) -> PendingObligation {
    PendingObligation {
        id,
        user_id: 1,
        expected_amount: amount(expected),
        created_at: 1000 + id,
        state: ObligationState::Unsettled,
    }
}

fn paid(id: i64, transfer_id: &str) -> PendingObligation {
    PendingObligation {
        id,
        user_id: 1,
        expected_amount: amount("1.0005"),
        created_at: 1000 + id,
        state: ObligationState::Settled(SettlementRecord {
            transfer_id: transfer_id.to_string(),
            balance_before: amount("0"),
            balance_after: amount("1"),
        }),
    }
}

fn raw(id: &str, value: &str) -> RawRecord {
    RawRecord {
        transfer_id: id.to_string(),
        asset: Some(AssetInfo { symbol: "USDT".to_string(), decimals: 6 }),
        from: Some("TPayer".to_string()),
        to: Some("TWatched".to_string()),
        value: Some(value.to_string()),
    }
}

fn page(records: Vec<RawRecord>, next: Option<&str>) -> FeedPage {
    FeedPage { records, next: next.map(|s| s.to_string()) }
}

fn pending_ids(pass: &Pass) -> Vec<i64> {
    (0..pass.pending.len()).map(|i| pass.pending.id_at(i).unwrap()).collect()
}

fn started(rows: Vec<PendingObligation>) -> LoopState {
    let step = engine().step(LoopState::Idle, Event::Snapshot(rows));
    assert!(matches!(step.action, Action::Fetch { .. }));
    step.state
}

fn settled_ids(step: &Step) -> Vec<(i64, String)> {
    step.settlements.iter().map(|m| (m.obligation_id, m.transfer.transfer_id.clone())).collect()
}

#[test]
fn defaults_are_those_of_the_feed() {
    let e = engine();
    assert_eq!(e.page_size, 10);
    assert_eq!(e.idle_backoff_millis, 10_000);
    assert_eq!(e.page_delay_millis, 500);
    assert_eq!((DEFAULT_PAGE_SIZE, DEFAULT_IDLE_BACKOFF_MILLIS, DEFAULT_PAGE_DELAY_MILLIS), (10, 10_000, 500));
    assert_eq!(e.filter.watched_address, "TWatched");
    assert_eq!(e.filter.token_symbol, "USDT");
}

#[test]
fn waking_up_idle_reads_the_store() {
    let step = engine().step(LoopState::Idle, Event::Wake);
    assert!(matches!(step.state, LoopState::Idle));
    assert!(matches!(step.action, Action::ReadStore));
    assert!(step.settlements.is_empty());
    assert_eq!(step.ended, None);
}

#[test]
fn no_unsettled_obligation_means_no_feed_request() {
    for rows in [vec![], vec![paid(1, "a"), paid(2, "b")]] {
        let step = engine().step(LoopState::Idle, Event::Snapshot(rows));
        assert!(matches!(step.state, LoopState::Idle));
        assert!(matches!(step.action, Action::Sleep { millis: 10_000 }));
        assert!(step.settlements.is_empty());
        assert_eq!(step.ended, None);
    }
}

#[test]
fn unsettled_obligation_starts_a_pass() {
    let step = engine().step(
        LoopState::Idle,
        Event::Snapshot(vec![paid(1, "a"), paid(2, "b"), owed(3, "5.0005"), owed(4, "6.0005")]),
    );
    assert_eq!(step.ended, None);
    assert!(step.settlements.is_empty());
    match &step.action {
        Action::Fetch { query, delay_millis } => {
            assert_eq!(query.address, "TWatched");
            assert_eq!(query.limit, 10);
            assert_eq!(query.since_timestamp, 1003);
            assert_eq!(query.continuation, None);
            assert_eq!(*delay_millis, 0);
        }
        other => panic!("expected a fetch, got {:?}", other),
    }
    match &step.state {
        LoopState::Scanning(pass) => {
            assert_eq!(pending_ids(pass), vec![3, 4]);
            assert_eq!(pass.since_timestamp, 1003);
            assert_eq!(pass.checkpoint.last_seen_transfer_id, Some("b".to_string()));
            assert_eq!(pass.checkpoint.continuation, None);
            assert_eq!(pass.pages_scanned, 0);
        }
        LoopState::Idle => panic!("expected a pass"),
    }
}

#[test]
fn snapshot_out_of_order_fails_the_pass() {
    let step = engine().step(LoopState::Idle, Event::Snapshot(vec![owed(4, "1.0005"), owed(3, "1.0005")]));
    assert!(matches!(step.state, LoopState::Idle));
    assert!(matches!(step.action, Action::Sleep { millis: 10_000 }));
    assert_eq!(step.ended, Some(PassEnd::Failed(PassFailure::StoreError)));
}

#[test]
fn store_failure_waits_and_retries() {
    let step = engine().step(LoopState::Idle, Event::StoreFailed);
    assert!(matches!(step.state, LoopState::Idle));
    assert!(matches!(step.action, Action::Sleep { millis: 10_000 }));
    assert_eq!(step.ended, Some(PassEnd::Failed(PassFailure::StoreError)));
}

#[test]
fn page_with_matches_and_more_to_come_continues() {
    let state = started(vec![owed(1, "100.0005"), owed(2, "100.0005"), owed(3, "7.5001")]);
    let step = engine().step(
        state,
        Event::PageFetched(page(
            vec![raw("t1", "100000100"), raw("t2", "98500000"), raw("t3", "7500000")],
            Some("/v1/next?fingerprint=abc"),
        )),
    );
    assert_eq!(settled_ids(&step), vec![(1, "t1".to_string()), (3, "t3".to_string())]);
    assert!(step.settlements[0].transfer.amount.same_value(&amount("100.0001")));
    assert_eq!(step.ended, None);
    match &step.action {
        Action::Fetch { query, delay_millis } => {
            assert_eq!(query.continuation, Some("/v1/next?fingerprint=abc".to_string()));
            assert_eq!(query.since_timestamp, 1001);
            assert_eq!(query.address, "TWatched");
            assert_eq!(query.limit, 10);
            assert_eq!(*delay_millis, 500);
        }
        other => panic!("expected a fetch, got {:?}", other),
    }
    match &step.state {
        LoopState::Scanning(pass) => {
            assert_eq!(pending_ids(pass), vec![2]);
            assert_eq!(pass.pages_scanned, 1);
            assert_eq!(pass.checkpoint.continuation, Some("/v1/next?fingerprint=abc".to_string()));
            assert_eq!(pass.checkpoint.last_seen_transfer_id, None);
        }
        LoopState::Idle => panic!("expected the pass to go on"),
    }
}

#[test]
fn pass_ends_when_every_obligation_is_matched() {
    let state = started(vec![owed(1, "100.0005")]);
    let step = engine().step(
        state,
        Event::PageFetched(page(vec![raw("t1", "100000100"), raw("t2", "100000100")], Some("/more"))),
    );
    assert_eq!(settled_ids(&step), vec![(1, "t1".to_string())]);
    assert_eq!(step.ended, Some(PassEnd::AllResolved));
    assert!(matches!(step.state, LoopState::Idle));
    assert!(matches!(step.action, Action::ReadStore));
}

#[test]
fn pass_ends_when_the_feed_is_exhausted() {
    let state = started(vec![owed(1, "100.0005"), owed(2, "9.0005")]);
    let step = engine().step(state, Event::PageFetched(page(vec![raw("t1", "100000100")], None)));
    assert_eq!(settled_ids(&step), vec![(1, "t1".to_string())]);
    assert_eq!(step.ended, Some(PassEnd::FeedExhausted));
    assert!(matches!(step.state, LoopState::Idle));
    assert!(matches!(step.action, Action::ReadStore));
}

#[test]
fn boundary_record_halts_the_pass() {
    let state = started(vec![paid(1, "t-old"), owed(2, "100.0005"), owed(3, "9.0005")]);
    let step = engine().step(
        state,
        Event::PageFetched(page(
            vec![raw("t5", "100000100"), raw("t-old", "9000100"), raw("t4", "9000100")],
            Some("/more"),
        )),
    );
    assert_eq!(settled_ids(&step), vec![(2, "t5".to_string())]);
    assert_eq!(step.ended, Some(PassEnd::BoundaryReached));
    assert!(matches!(step.state, LoopState::Idle));
    assert!(matches!(step.action, Action::ReadStore));
}

#[test]
fn boundary_is_checked_before_the_record_is_filtered() {
    let state = started(vec![paid(1, "t-old"), owed(2, "100.0005")]);
    let mut boundary = raw("t-old", "1");
    boundary.to = None;
    boundary.value = None;
    let step = engine().step(
        state,
        Event::PageFetched(page(vec![boundary, raw("t4", "100000100")], Some("/more"))),
    );
    assert!(step.settlements.is_empty());
    assert_eq!(step.ended, Some(PassEnd::BoundaryReached));
}

#[test]
fn feed_failure_gives_the_pass_up() {
    let step = engine().step(started(vec![owed(1, "1.0005")]), Event::FeedUnavailable);
    assert!(matches!(step.state, LoopState::Idle));
    assert!(matches!(step.action, Action::Sleep { millis: 10_000 }));
    assert_eq!(step.ended, Some(PassEnd::Failed(PassFailure::FeedUnavailable)));
    assert!(step.settlements.is_empty());
    let step = engine().step(started(vec![owed(1, "1.0005")]), Event::FeedDecodeError);
    assert!(matches!(step.state, LoopState::Idle));
    assert!(matches!(step.action, Action::Sleep { millis: 10_000 }));
    assert_eq!(step.ended, Some(PassEnd::Failed(PassFailure::FeedDecodeError)));
}

#[test]
fn shutdown_halts_from_any_state() {
    let step = engine().step(LoopState::Idle, Event::Shutdown);
    assert!(matches!(step.action, Action::Halt));
    assert!(matches!(step.state, LoopState::Idle));
    assert_eq!(step.ended, None);
    let step = engine().step(started(vec![owed(1, "1.0005")]), Event::Shutdown);
    assert!(matches!(step.action, Action::Halt));
    assert!(matches!(step.state, LoopState::Idle));
    assert!(step.settlements.is_empty());
    assert_eq!(step.ended, Some(PassEnd::Abandoned));
}

#[test]
fn events_out_of_place_leave_the_loop_waiting() {
    let step = engine().step(LoopState::Idle, Event::PageFetched(page(vec![raw("t1", "1")], None)));
    assert!(matches!(step.state, LoopState::Idle));
    assert!(matches!(step.action, Action::Sleep { millis: 10_000 }));
    assert!(step.settlements.is_empty());
    let step = engine().step(LoopState::Idle, Event::FeedUnavailable);
    assert!(matches!(step.action, Action::Sleep { millis: 10_000 }));
    assert_eq!(step.ended, None);
    let step = engine().step(LoopState::Idle, Event::FeedDecodeError);
    assert!(matches!(step.action, Action::Sleep { millis: 10_000 }));
    assert_eq!(step.ended, None);
}

#[test]
fn pass_dropped_by_an_event_out_of_place_ends_as_abandoned() {
    let step = engine().step(started(vec![owed(1, "1.0005")]), Event::Wake);
    assert!(matches!(step.state, LoopState::Idle));
    assert!(matches!(step.action, Action::Sleep { millis: 10_000 }));
    assert!(step.settlements.is_empty());
    assert_eq!(step.ended, Some(PassEnd::Abandoned));
    let rows = vec![owed(1, "1.0005")];
    let step = engine().step(started(vec![owed(1, "1.0005")]), Event::Snapshot(rows));
    assert!(matches!(step.state, LoopState::Idle));
    assert!(matches!(step.action, Action::Sleep { millis: 10_000 }));
    assert_eq!(step.ended, Some(PassEnd::Abandoned));
}

#[test]
fn store_failure_during_a_pass_fails_it() {
    let step = engine().step(started(vec![owed(1, "1.0005")]), Event::StoreFailed);
    assert!(matches!(step.state, LoopState::Idle));
    assert!(matches!(step.action, Action::Sleep { millis: 10_000 }));
    assert_eq!(step.ended, Some(PassEnd::Failed(PassFailure::StoreError)));
}

#[test]
fn replayed_page_settles_nothing_twice() {
    let state = started(vec![owed(1, "100.0005"), owed(2, "50.0005")]);
    let records = || vec![raw("t1", "100000100"), raw("t1", "100000100")];
    let step = engine().step(state, Event::PageFetched(page(records(), Some("/second"))));
    assert_eq!(settled_ids(&step), vec![(1, "t1".to_string())]);
    let step = engine().step(step.state, Event::PageFetched(page(records(), Some("/third"))));
    assert!(step.settlements.is_empty());
    match &step.state {
        LoopState::Scanning(pass) => {
            assert_eq!(pending_ids(pass), vec![2]);
            assert_eq!(pass.pages_scanned, 2);
        }
        LoopState::Idle => panic!("expected the pass to go on"),
    }
}

#[test]
fn scan_reports_why_it_stopped() {
    let filter = TransferFilter { watched_address: "TWatched".to_string(), token_symbol: "USDT".to_string() };
    let rows = vec![owed(1, "100.0005"), owed(2, "50.0005")];
    let mut pending = PendingSet::load(&rows).unwrap();
    let (found, stop) = scan_records(&filter, &None, &mut pending, &vec![raw("a", "1"), raw("b", "50000200")]);
    assert_eq!(stop, None);
    assert_eq!(found.len(), 1);
    assert_eq!(found[0].obligation_id, 2);
    assert_eq!(pending.len(), 1);
    let (found, stop) = scan_records(
        &filter,
        &Some("b".to_string()),
        &mut pending,
        &vec![raw("b", "100000100"), raw("c", "100000100")],
    );
    assert_eq!(stop, Some(ScanStop::BoundaryReached));
    assert!(found.is_empty());
    assert_eq!(pending.len(), 1);
    let (found, stop) = scan_records(
        &filter,
        &Some("zz".to_string()),
        &mut pending,
        &vec![raw("c", "100000100"), raw("zz", "1")],
    );
    assert_eq!(stop, Some(ScanStop::AllResolved));
    assert_eq!(found.len(), 1);
    assert!(pending.is_empty());
}
