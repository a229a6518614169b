//! The reconciliation loop as a state machine.
//!
//! The loop itself waits, reads the store and fetches pages; it is run by
//! the caller. What it decides is decided here: [`step`] takes the state of
//! the loop and what just happened, and returns the next state, the matches
//! to settle and what to do next.

use crate::cursor::{
    compute_window, earliest_unsettled, is_earliest_unsettled, lemma_earliest_unsettled_exists,
    window_of,
};
use crate::obligation::{ObligationView, PendingObligation};
use crate::pass::{
    each_matched_once, law_boundary_halts_scan, law_scan_continues_across_pages,
    law_scan_matches_each_obligation_once, scan, scan_records, Match, MatchView, ScanStop,
    ScanView,
};
use crate::pending::{
    ascending, law_every_unsettled_is_pending, unsettled_entries, EntryView, PendingSet,
};
use crate::transfer::{FilterView, RawRecord, RawView, TransferFilter};
use vstd::prelude::*;

verus! {

/// Page size asked of the feed unless configured otherwise.
pub const DEFAULT_PAGE_SIZE: u32 = 10;

/// Milliseconds to wait before the store is looked at again.
pub const DEFAULT_IDLE_BACKOFF_MILLIS: u64 = 10000;

/// Milliseconds to wait between two pages of one pass.
pub const DEFAULT_PAGE_DELAY_MILLIS: u64 = 500;

/// What a deployment fixes once, at start.
#[derive(Debug)]
pub struct Engine {
    pub filter: TransferFilter,
    pub page_size: u32,
    pub idle_backoff_millis: u64,
    pub page_delay_millis: u64,
}

pub struct EngineView {
    pub filter: FilterView,
    pub page_size: int,
    pub idle_backoff_millis: int,
    pub page_delay_millis: int,
}

impl View for Engine {
    type V = EngineView;

    open spec fn view(&self) -> EngineView {
        EngineView {
            filter: self.filter@,
            page_size: self.page_size as int,
            idle_backoff_millis: self.idle_backoff_millis as int,
            page_delay_millis: self.page_delay_millis as int,
        }
    }
}

/// One request to the feed.
#[derive(Debug)]
pub struct FeedQuery {
    pub address: String,
    pub limit: u32,
    pub since_timestamp: i64,
    /// The token that the previous page gave; absent for the first page.
    pub continuation: Option<String>,
}

pub struct QueryView {
    pub address: Seq<char>,
    pub limit: int,
    pub since_timestamp: int,
    pub continuation: Option<Seq<char>>,
}

impl View for FeedQuery {
    type V = QueryView;

    open spec fn view(&self) -> QueryView {
        QueryView {
            address: self.address@,
            limit: self.limit as int,
            since_timestamp: self.since_timestamp as int,
            continuation: self.continuation.deep_view(),
        }
    }
}

/// One page of the feed, newest record first.
#[derive(Debug)]
pub struct FeedPage {
    pub records: Vec<RawRecord>,
    /// The token for the next page; absent on the last page.
    pub next: Option<String>,
}

pub struct PageView {
    pub records: Seq<RawView>,
    pub next: Option<Seq<char>>,
}

impl View for FeedPage {
    type V = PageView;

    open spec fn view(&self) -> PageView {
        PageView { records: self.records.deep_view(), next: self.next.deep_view() }
    }
}

/// How far the feed has been consumed in the current pass.
#[derive(Debug)]
pub struct ReconciliationCheckpoint {
    /// The stop boundary: nothing at or before this transfer is looked at
    /// again.
    pub last_seen_transfer_id: Option<String>,
    /// The token of the page to fetch next.
    pub continuation: Option<String>,
}

pub struct CheckpointView {
    pub last_seen_transfer_id: Option<Seq<char>>,
    pub continuation: Option<Seq<char>>,
}

impl View for ReconciliationCheckpoint {
    type V = CheckpointView;

    open spec fn view(&self) -> CheckpointView {
        CheckpointView {
            last_seen_transfer_id: self.last_seen_transfer_id.deep_view(),
            continuation: self.continuation.deep_view(),
        }
    }
}

/// One scan of the feed, under way.
#[derive(Debug)]
pub struct Pass {
    pub pending: PendingSet,
    pub since_timestamp: i64,
    pub checkpoint: ReconciliationCheckpoint,
    /// Number of pages scanned so far.
    pub pages_scanned: u64,
}

pub struct PassView {
    pub pending: Seq<EntryView>,
    pub since_timestamp: int,
    pub checkpoint: CheckpointView,
    pub pages_scanned: int,
}

impl View for Pass {
    type V = PassView;

    open spec fn view(&self) -> PassView {
        PassView {
            pending: self.pending@,
            since_timestamp: self.since_timestamp as int,
            checkpoint: self.checkpoint@,
            pages_scanned: self.pages_scanned as int,
        }
    }
}

/// The state of the loop.
#[derive(Debug)]
pub enum LoopState {
    /// No pass is under way.
    Idle,
    /// A pass is under way and waits for its next page.
    Scanning(Pass),
}

pub enum StateView {
    Idle,
    Scanning(PassView),
}

impl View for LoopState {
    type V = StateView;

    open spec fn view(&self) -> StateView {
        match self {
            LoopState::Idle => StateView::Idle,
            LoopState::Scanning(pass) => StateView::Scanning(pass@),
        }
    }
}

/// What happened outside since the last step.
#[derive(Debug)]
pub enum Event {
    /// The loop started, or a wait is over.
    Wake,
    /// The store was read: the unsettled obligations in ascending order of
    /// identifiers, and the settled ones that bound them from below.
    Snapshot(Vec<PendingObligation>),
    /// The store could not be read.
    StoreFailed,
    /// A page of the feed arrived.
    PageFetched(FeedPage),
    /// The feed answered with a failure, or not at all.
    FeedUnavailable,
    /// The feed answered with a body that is no page.
    FeedDecodeError,
    /// The loop is asked to end.
    Shutdown,
}

pub enum EventView {
    Wake,
    Snapshot(Seq<ObligationView>),
    StoreFailed,
    PageFetched(PageView),
    FeedUnavailable,
    FeedDecodeError,
    Shutdown,
}

impl View for Event {
    type V = EventView;

    open spec fn view(&self) -> EventView {
        match self {
            Event::Wake => EventView::Wake,
            Event::Snapshot(obligations) => EventView::Snapshot(obligations.deep_view()),
            Event::StoreFailed => EventView::StoreFailed,
            Event::PageFetched(page) => EventView::PageFetched(page@),
            Event::FeedUnavailable => EventView::FeedUnavailable,
            Event::FeedDecodeError => EventView::FeedDecodeError,
            Event::Shutdown => EventView::Shutdown,
        }
    }
}

/// What the loop is to do next.
#[derive(Debug)]
pub enum Action {
    /// Wait, then hand in `Event::Wake`.
    Sleep { millis: u64 },
    /// Read the store and hand in the snapshot.
    ReadStore,
    /// Wait `delay_millis`, then fetch a page and hand it in.
    Fetch { query: FeedQuery, delay_millis: u64 },
    /// Stop.
    Halt,
}

pub enum ActionView {
    Sleep { millis: int },
    ReadStore,
    Fetch { query: QueryView, delay_millis: int },
    Halt,
}

impl View for Action {
    type V = ActionView;

    open spec fn view(&self) -> ActionView {
        match self {
            Action::Sleep { millis } => ActionView::Sleep { millis: *millis as int },
            Action::ReadStore => ActionView::ReadStore,
            Action::Fetch { query, delay_millis } => ActionView::Fetch {
                query: query@,
                delay_millis: *delay_millis as int,
            },
            Action::Halt => ActionView::Halt,
        }
    }
}

/// Why a pass failed.
#[derive(Clone, Copy, Debug, PartialEq, Eq, Structural)]
pub enum PassFailure {
    FeedUnavailable,
    FeedDecodeError,
    StoreError,
}

/// How a pass ended.
#[derive(Clone, Copy, Debug, PartialEq, Eq, Structural)]
pub enum PassEnd {
    /// The stop boundary was reached: everything older is reconciled.
    BoundaryReached,
    /// No obligation is pending any more.
    AllResolved,
    /// The feed has no further page.
    FeedExhausted,
    /// The pass was given up; the next one starts from the store again.
    Failed(PassFailure),
    /// The pass was dropped: the loop was asked to end, or something
    /// happened that a pass does not wait for.
    Abandoned,
}

/// The outcome of one step.
#[derive(Debug)]
pub struct Step {
    pub state: LoopState,
    /// The matches found in this step, to be settled in this order before
    /// `action` is taken.
    pub settlements: Vec<Match>,
    pub action: Action,
    /// How the pass ended, if this step ended one.
    pub ended: Option<PassEnd>,
}

pub struct StepView {
    pub state: StateView,
    pub settlements: Seq<MatchView>,
    pub action: ActionView,
    pub ended: Option<PassEnd>,
}

impl View for Step {
    type V = StepView;

    open spec fn view(&self) -> StepView {
        StepView {
            state: self.state@,
            settlements: self.settlements.deep_view(),
            action: self.action@,
            ended: self.ended,
        }
    }
}

/// The loop at rest: idle, nothing to settle, and `action` next.
pub open spec fn at_rest(action: ActionView, ended: Option<PassEnd>) -> StepView {
    StepView { state: StateView::Idle, settlements: Seq::empty(), action, ended }
}

/// The wait before the store is looked at again.
pub open spec fn back_off(config: EngineView) -> ActionView {
    ActionView::Sleep { millis: config.idle_backoff_millis }
}

/// How a pass ends after a page was scanned, if it does: at the boundary,
/// with nothing left pending, or with the last page of the feed.
pub open spec fn end_after_page(scanned: ScanView, next: Option<Seq<char>>) -> Option<PassEnd> {
    match scanned.stop {
        Some(ScanStop::BoundaryReached) => Some(PassEnd::BoundaryReached),
        Some(ScanStop::AllResolved) => Some(PassEnd::AllResolved),
        None => if scanned.pending.len() == 0 {
            Some(PassEnd::AllResolved)
        } else if next is None {
            Some(PassEnd::FeedExhausted)
        } else {
            None
        },
    }
}

/// The step taken when the store was read while idle.
///
/// With no unsettled obligation the loop stays idle and waits; the feed is
/// not asked. Otherwise a pass starts with the first page of the window.
pub open spec fn on_snapshot(config: EngineView, obligations: Seq<ObligationView>) -> StepView {
    match window_of(obligations) {
        None => at_rest(back_off(config), None),
        Some(window) => {
            let pending = unsettled_entries(obligations);
            if !ascending(pending) {
                at_rest(back_off(config), Some(PassEnd::Failed(PassFailure::StoreError)))
            } else {
                StepView {
                    state: StateView::Scanning(
                        PassView {
                            pending,
                            since_timestamp: window.since_timestamp,
                            checkpoint: CheckpointView {
                                last_seen_transfer_id: window.stop_boundary,
                                continuation: None,
                            },
                            pages_scanned: 0,
                        },
                    ),
                    settlements: Seq::empty(),
                    action: ActionView::Fetch {
                        query: QueryView {
                            address: config.filter.watched_address,
                            limit: config.page_size,
                            since_timestamp: window.since_timestamp,
                            continuation: None,
                        },
                        delay_millis: 0,
                    },
                    ended: None,
                }
            }
        },
    }
}

/// The number of pages scanned after one more, which stops counting at the
/// largest number it can hold.
pub open spec fn one_more(pages: int) -> int {
    if pages < u64::MAX {
        pages + 1
    } else {
        pages
    }
}

/// The step taken when a page arrived during a pass.
///
/// The page is scanned and its matches are handed out. Then the pass ends
/// and the store is read again at once, or the next page is asked for after
/// the delay between pages.
pub open spec fn on_page(config: EngineView, pass: PassView, page: PageView) -> StepView {
    let scanned = scan(
        config.filter,
        pass.checkpoint.last_seen_transfer_id,
        pass.pending,
        page.records,
    );
    match end_after_page(scanned, page.next) {
        Some(end) => StepView {
            state: StateView::Idle,
            settlements: scanned.matches,
            action: ActionView::ReadStore,
            ended: Some(end),
        },
        None => StepView {
            state: StateView::Scanning(
                PassView {
                    pending: scanned.pending,
                    since_timestamp: pass.since_timestamp,
                    checkpoint: CheckpointView {
                        last_seen_transfer_id: pass.checkpoint.last_seen_transfer_id,
                        continuation: page.next,
                    },
                    pages_scanned: one_more(pass.pages_scanned),
                },
            ),
            settlements: scanned.matches,
            action: ActionView::Fetch {
                query: QueryView {
                    address: config.filter.watched_address,
                    limit: config.page_size,
                    since_timestamp: pass.since_timestamp,
                    continuation: page.next,
                },
                delay_millis: config.page_delay_millis,
            },
            ended: None,
        },
    }
}

/// The step from `state` on `event`.
///
/// While idle, waking up leads to reading the store, and a snapshot
/// decides whether a pass starts. During a pass, a page is scanned, and a
/// failure of the feed gives the pass up. A shutdown halts the loop. A
/// failure of the store, and any event that the state does not wait for,
/// leave the loop idle and waiting. Whatever ends a pass is reported: a
/// pass that is dropped ends as abandoned.
pub open spec fn step_spec(config: EngineView, state: StateView, event: EventView) -> StepView {
    match state {
        StateView::Idle => match event {
            EventView::Shutdown => at_rest(ActionView::Halt, None),
            EventView::Wake => at_rest(ActionView::ReadStore, None),
            EventView::Snapshot(obligations) => on_snapshot(config, obligations),
            EventView::StoreFailed => at_rest(
                back_off(config),
                Some(PassEnd::Failed(PassFailure::StoreError)),
            ),
            _ => at_rest(back_off(config), None),
        },
        StateView::Scanning(pass) => match event {
            EventView::PageFetched(page) => on_page(config, pass, page),
            EventView::FeedUnavailable => at_rest(
                back_off(config),
                Some(PassEnd::Failed(PassFailure::FeedUnavailable)),
            ),
            EventView::FeedDecodeError => at_rest(
                back_off(config),
                Some(PassEnd::Failed(PassFailure::FeedDecodeError)),
            ),
            EventView::StoreFailed => at_rest(
                back_off(config),
                Some(PassEnd::Failed(PassFailure::StoreError)),
            ),
            EventView::Shutdown => at_rest(ActionView::Halt, Some(PassEnd::Abandoned)),
            _ => at_rest(back_off(config), Some(PassEnd::Abandoned)),
        },
    }
}

/// A copy of a text that may be absent.
fn copy_text(text: &Option<String>) -> (r: Option<String>)
    ensures
        r.deep_view() == text.deep_view(),
{
    match text {
        Some(t) => Some(t.clone()),
        None => None,
    }
}

impl Engine {
    /// The configuration for watching `watched_address` for transfers of
    /// `token_symbol`, with the default page size and waits.
    pub fn new(watched_address: String, token_symbol: String) -> (r: Engine)
        ensures
            r@ == (EngineView {
                filter: FilterView {
                    watched_address: watched_address@,
                    token_symbol: token_symbol@,
                },
                page_size: DEFAULT_PAGE_SIZE as int,
                idle_backoff_millis: DEFAULT_IDLE_BACKOFF_MILLIS as int,
                page_delay_millis: DEFAULT_PAGE_DELAY_MILLIS as int,
            }),
    {
        Engine {
            filter: TransferFilter { watched_address, token_symbol },
            page_size: DEFAULT_PAGE_SIZE,
            idle_backoff_millis: DEFAULT_IDLE_BACKOFF_MILLIS,
            page_delay_millis: DEFAULT_PAGE_DELAY_MILLIS,
        }
    }

    /// The request for a page of the window that starts at
    /// `since_timestamp`.
    fn query(&self, since_timestamp: i64, continuation: Option<String>) -> (r: FeedQuery)
        ensures
            r@ == (QueryView {
                address: self@.filter.watched_address,
                limit: self@.page_size,
                since_timestamp: since_timestamp as int,
                continuation: continuation.deep_view(),
            }),
    {
        FeedQuery {
            address: self.filter.watched_address.clone(),
            limit: self.page_size,
            since_timestamp,
            continuation,
        }
    }

    /// The loop at rest, with `action` next.
    fn rest(action: Action, ended: Option<PassEnd>) -> (r: Step)
        ensures
            r@ == at_rest(action@, ended),
    {
        let settlements: Vec<Match> = Vec::new();
        assert(settlements.deep_view() =~= Seq::<MatchView>::empty());
        Step { state: LoopState::Idle, settlements, action, ended }
    }

    /// The loop at rest, waiting before the store is looked at again.
    fn wait(&self, ended: Option<PassEnd>) -> (r: Step)
        ensures
            r@ == at_rest(back_off(self@), ended),
    {
        Engine::rest(Action::Sleep { millis: self.idle_backoff_millis }, ended)
    }

    /// Decides what follows a reading of the store.
    pub fn start_pass(&self, obligations: &Vec<PendingObligation>) -> (r: Step)
        ensures
            r@ == on_snapshot(self@, obligations.deep_view()),
            r@.state matches StateView::Scanning(pass) ==> ascending(pass.pending),
    {
        let window = match compute_window(obligations) {
            None => {
                return self.wait(None);
            },
            Some(w) => w,
        };
        let pending = match PendingSet::load(obligations) {
            None => {
                return self.wait(Some(PassEnd::Failed(PassFailure::StoreError)));
            },
            Some(p) => p,
        };
        let query = self.query(window.since_timestamp, None);
        let settlements: Vec<Match> = Vec::new();
        assert(settlements.deep_view() =~= Seq::<MatchView>::empty());
        Step {
            state: LoopState::Scanning(
                Pass {
                    pending,
                    since_timestamp: window.since_timestamp,
                    checkpoint: ReconciliationCheckpoint {
                        last_seen_transfer_id: window.stop_boundary,
                        continuation: None,
                    },
                    pages_scanned: 0,
                },
            ),
            settlements,
            action: Action::Fetch { query, delay_millis: 0 },
            ended: None,
        }
    }

    /// Scans a page that arrived during `pass` and decides what follows.
    pub fn scan_page(&self, pass: Pass, page: &FeedPage) -> (r: Step)
        ensures
            r@ == on_page(self@, pass@, page@),
            r@.state matches StateView::Scanning(pass) ==> ascending(pass.pending),
    {
        let Pass { pending, since_timestamp, checkpoint, pages_scanned } = pass;
        let mut pending = pending;
        let (settlements, stop) = scan_records(
            &self.filter,
            &checkpoint.last_seen_transfer_id,
            &mut pending,
            &page.records,
        );
        let end = match stop {
            Some(ScanStop::BoundaryReached) => Some(PassEnd::BoundaryReached),
            Some(ScanStop::AllResolved) => Some(PassEnd::AllResolved),
            None => if pending.is_empty() {
                Some(PassEnd::AllResolved)
            } else if page.next.is_none() {
                Some(PassEnd::FeedExhausted)
            } else {
                None
            },
        };
        match end {
            Some(e) => Step {
                state: LoopState::Idle,
                settlements,
                action: Action::ReadStore,
                ended: Some(e),
            },
            None => {
                let query = self.query(since_timestamp, copy_text(&page.next));
                let pages_scanned = if pages_scanned < u64::MAX {
                    pages_scanned + 1
                } else {
                    pages_scanned
                };
                Step {
                    state: LoopState::Scanning(
                        Pass {
                            pending,
                            since_timestamp,
                            checkpoint: ReconciliationCheckpoint {
                                last_seen_transfer_id: checkpoint.last_seen_transfer_id,
                                continuation: copy_text(&page.next),
                            },
                            pages_scanned,
                        },
                    ),
                    settlements,
                    action: Action::Fetch { query, delay_millis: self.page_delay_millis },
                    ended: None,
                }
            },
        }
    }

    /// Takes one step of the loop: from the state it is in and what just
    /// happened to the state it is in next, the matches to settle, and what
    /// to do then.
    pub fn step(&self, state: LoopState, event: Event) -> (r: Step)
        ensures
            r@ == step_spec(self@, state@, event@),
            r@.state matches StateView::Scanning(pass) ==> ascending(pass.pending),
    {
        match state {
            LoopState::Idle => match event {
                Event::Shutdown => Engine::rest(Action::Halt, None),
                Event::Wake => Engine::rest(Action::ReadStore, None),
                Event::Snapshot(obligations) => self.start_pass(&obligations),
                Event::StoreFailed => self.wait(Some(PassEnd::Failed(PassFailure::StoreError))),
                _ => self.wait(None),
            },
            LoopState::Scanning(pass) => match event {
                Event::PageFetched(page) => self.scan_page(pass, &page),
                Event::FeedUnavailable => self.wait(
                    Some(PassEnd::Failed(PassFailure::FeedUnavailable)),
                ),
                Event::FeedDecodeError => self.wait(
                    Some(PassEnd::Failed(PassFailure::FeedDecodeError)),
                ),
                Event::StoreFailed => self.wait(Some(PassEnd::Failed(PassFailure::StoreError))),
                Event::Shutdown => Engine::rest(Action::Halt, Some(PassEnd::Abandoned)),
                _ => self.wait(Some(PassEnd::Abandoned)),
            },
        }
    }
}

/// With no unsettled obligation in the store no pass starts: the loop
/// stays idle, asks nothing of the feed, settles nothing, and waits before
/// it looks at the store again.
pub proof fn law_idle_without_unsettled(config: EngineView, obligations: Seq<ObligationView>)
    requires
        forall|k: int| 0 <= k < obligations.len() ==> obligations[k].settlement is Some,
    ensures
        step_spec(config, StateView::Idle, EventView::Snapshot(obligations)) == at_rest(
            back_off(config),
            None,
        ),
{
    assert(window_of(obligations) is None);
}

/// With an unsettled obligation in the store a pass starts: provided the
/// unsettled obligations came in ascending order of identifiers, the loop
/// goes from idle to scanning and asks for the first page of the window,
/// without delay and without a continuation token.
pub proof fn law_pass_starts_with_unsettled(config: EngineView, obligations: Seq<ObligationView>)
    requires
        exists|k: int| 0 <= k < obligations.len() && obligations[k].settlement is None,
        ascending(unsettled_entries(obligations)),
    ensures
        ({
            let taken = step_spec(config, StateView::Idle, EventView::Snapshot(obligations));
            &&& taken.state matches StateView::Scanning(pass) && pass.pending == unsettled_entries(
                obligations,
            ) && pass.pending.len() > 0 && pass.checkpoint.continuation is None
            &&& taken.action matches ActionView::Fetch { query, delay_millis } && delay_millis == 0
                && query.continuation is None && query.address == config.filter.watched_address
            &&& taken.settlements.len() == 0
            &&& taken.ended is None
        }),
{
    lemma_earliest_unsettled_exists(obligations);
    let m = earliest_unsettled(obligations)->0;
    assert(is_earliest_unsettled(obligations, m));
    law_every_unsettled_is_pending(obligations, m);
}

/// Matches are handed out for settlement only when a page arrived during
/// a pass, and each names an obligation that was pending in that pass.
pub proof fn law_settlements_come_from_pages(
    config: EngineView,
    state: StateView,
    event: EventView,
)
    requires
        step_spec(config, state, event).settlements.len() > 0,
        state matches StateView::Scanning(pass) ==> ascending(pass.pending),
    ensures
        event is PageFetched,
        state matches StateView::Scanning(pass) && each_matched_once(
            pass.pending,
            scan(
                config.filter,
                pass.checkpoint.last_seen_transfer_id,
                pass.pending,
                event->PageFetched_0.records,
            ),
        ),
{
    match (state, event) {
        (StateView::Scanning(pass), EventView::PageFetched(page)) => {
            law_scan_matches_each_obligation_once(
                config.filter,
                pass.checkpoint.last_seen_transfer_id,
                pass.pending,
                page.records,
            );
        },
        _ => {},
    }
}

/// Over the pages of one pass every pending obligation is matched at most
/// once: where the pass goes on after a page, the matches of that page and
/// of the next are those of one scan of the records of both, in which no
/// obligation is matched twice.
pub proof fn law_pass_matches_each_obligation_once(
    config: EngineView,
    pass: PassView,
    page: PageView,
    next_page: PageView,
)
    requires
        ascending(pass.pending),
        on_page(config, pass, page).state is Scanning,
    ensures
        ({
            let first = on_page(config, pass, page);
            let second = on_page(config, first.state->Scanning_0, next_page);
            let both = scan(
                config.filter,
                pass.checkpoint.last_seen_transfer_id,
                pass.pending,
                page.records + next_page.records,
            );
            &&& both.matches == first.settlements + second.settlements
            &&& each_matched_once(pass.pending, both)
        }),
{
    let boundary = pass.checkpoint.last_seen_transfer_id;
    law_scan_continues_across_pages(
        config.filter,
        boundary,
        pass.pending,
        page.records,
        next_page.records,
    );
    law_scan_matches_each_obligation_once(
        config.filter,
        boundary,
        pass.pending,
        page.records + next_page.records,
    );
}

/// No pass ends unreported: a step that takes the loop from scanning to
/// idle says how the pass ended, and a step that says nothing of an end
/// leaves a pass scanning. While idle, only a failure to start a pass is
/// reported as an end.
pub proof fn law_every_pass_end_is_reported(config: EngineView, state: StateView, event: EventView)
    ensures
        ({
            let taken = step_spec(config, state, event);
            &&& state is Scanning && taken.state is Idle ==> taken.ended is Some
            &&& state is Scanning && taken.ended is None ==> taken.state is Scanning
            &&& state is Idle && taken.ended is Some ==> taken.ended == Some(
                PassEnd::Failed(PassFailure::StoreError),
            ) && taken.state is Idle
        }),
{
}

/// The feed is asked only during a pass that still has obligations
/// pending: whenever a step asks for a page, the loop is scanning and its
/// pending set is not empty; and the step before was the start of a pass or
/// the scan of a page.
pub proof fn law_fetch_only_while_pending(config: EngineView, state: StateView, event: EventView)
    requires
        step_spec(config, state, event).action is Fetch,
    ensures
        step_spec(config, state, event).state matches StateView::Scanning(pass)
            && pass.pending.len() > 0,
        (state is Idle && event is Snapshot) || (state is Scanning && event is PageFetched),
{
    let next = step_spec(config, state, event);
    match (state, event) {
        (StateView::Idle, EventView::Snapshot(obligations)) => {
            let m = earliest_unsettled(obligations)->0;
            assert(is_earliest_unsettled(obligations, m));
            law_every_unsettled_is_pending(obligations, m);
        },
        _ => {},
    }
}

/// A page with a record that carries the identifier of the stop boundary
/// ends the pass: the matches handed out are those of the records before
/// that record, no further page is asked for, and the loop goes back to
/// idle to read the store.
pub proof fn law_boundary_ends_pass(
    config: EngineView,
    pass: PassView,
    before: Seq<RawView>,
    hit: RawView,
    after: Seq<RawView>,
    next: Option<Seq<char>>,
)
    requires
        pass.checkpoint.last_seen_transfer_id == Some(hit.transfer_id),
    ensures
        ({
            let page = PageView { records: before + seq![hit] + after, next };
            let taken = on_page(config, pass, page);
            let seen = scan(
                config.filter,
                pass.checkpoint.last_seen_transfer_id,
                pass.pending,
                before,
            );
            &&& taken.state is Idle
            &&& taken.action is ReadStore
            &&& taken.ended is Some
            &&& taken.settlements == seen.matches
        }),
{
    law_boundary_halts_scan(config.filter, hit.transfer_id, pass.pending, before, hit, after);
}

} // verus!
