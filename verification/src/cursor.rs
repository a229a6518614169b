//! The window of the feed that a pass has to look at.

use crate::obligation::{ObligationState, ObligationView, PendingObligation};
use vstd::prelude::*;

verus! {

/// Where a pass starts on the feed and where it may stop.
#[derive(Debug)]
pub struct FeedWindow {
    /// Creation time of the oldest unsettled obligation; nothing older on
    /// the feed can answer a pending obligation.
    pub since_timestamp: i64,
    /// The transfer that settled the last obligation before the oldest
    /// unsettled one. Everything at or before it on the feed is reconciled
    /// already. Absent where no such settlement exists.
    pub stop_boundary: Option<String>,
}

pub struct WindowView {
    pub since_timestamp: int,
    pub stop_boundary: Option<Seq<char>>,
}

impl View for FeedWindow {
    type V = WindowView;

    open spec fn view(&self) -> WindowView {
        WindowView {
            since_timestamp: self.since_timestamp as int,
            stop_boundary: self.stop_boundary.deep_view(),
        }
    }
}

impl DeepView for FeedWindow {
    type V = WindowView;

    open spec fn deep_view(&self) -> WindowView {
        self@
    }
}

/// Whether the obligation at `m` is unsettled and has the smallest
/// identifier among the unsettled ones, as the first of its kind.
pub open spec fn is_earliest_unsettled(obligations: Seq<ObligationView>, m: int) -> bool {
    &&& 0 <= m < obligations.len()
    &&& obligations[m].settlement is None
    &&& forall|k: int|
        0 <= k < obligations.len() && obligations[k].settlement is None ==> obligations[m].id
            <= obligations[k].id
    &&& forall|k: int|
        0 <= k < m && obligations[k].settlement is None ==> obligations[m].id < obligations[k].id
}

/// Whether the obligation at `j` is settled and has the largest identifier
/// among the settled ones below `limit`, as the first of its kind.
pub open spec fn is_latest_settled_below(
    obligations: Seq<ObligationView>,
    limit: int,
    j: int,
) -> bool {
    &&& 0 <= j < obligations.len()
    &&& obligations[j].settlement is Some
    &&& obligations[j].id < limit
    &&& forall|k: int|
        0 <= k < obligations.len() && obligations[k].settlement is Some && obligations[k].id < limit
            ==> obligations[k].id <= obligations[j].id
    &&& forall|k: int|
        0 <= k < j && obligations[k].settlement is Some && obligations[k].id < limit
            ==> obligations[k].id < obligations[j].id
}

/// The position of the unsettled obligation with the smallest identifier.
pub open spec fn earliest_unsettled(obligations: Seq<ObligationView>) -> Option<int> {
    if exists|m: int| is_earliest_unsettled(obligations, m) {
        Some(choose|m: int| is_earliest_unsettled(obligations, m))
    } else {
        None
    }
}

/// The position of the settled obligation with the largest identifier
/// below `limit`.
pub open spec fn latest_settled_below(obligations: Seq<ObligationView>, limit: int) -> Option<int> {
    if exists|j: int| is_latest_settled_below(obligations, limit, j) {
        Some(choose|j: int| is_latest_settled_below(obligations, limit, j))
    } else {
        None
    }
}

/// The window for a store that holds `obligations`; `None` where none of
/// them is unsettled.
pub open spec fn window_of(obligations: Seq<ObligationView>) -> Option<WindowView> {
    match earliest_unsettled(obligations) {
        None => None,
        Some(m) => Some(
            WindowView {
                since_timestamp: obligations[m].created_at,
                stop_boundary: match latest_settled_below(obligations, obligations[m].id) {
                    None => None,
                    Some(j) => Some(obligations[j].settlement->0.transfer_id),
                },
            },
        ),
    }
}

/// Only one position is that of the earliest unsettled obligation.
pub proof fn lemma_earliest_unsettled_unique(obligations: Seq<ObligationView>, m: int)
    requires
        is_earliest_unsettled(obligations, m),
    ensures
        earliest_unsettled(obligations) == Some(m),
{
    let c = choose|c: int| is_earliest_unsettled(obligations, c);
    if c < m {
        assert(obligations[m].id < obligations[c].id);
    } else if m < c {
        assert(obligations[c].id < obligations[m].id);
    }
}

/// Only one position is that of the latest settled obligation below a
/// limit.
pub proof fn lemma_latest_settled_unique(obligations: Seq<ObligationView>, limit: int, j: int)
    requires
        is_latest_settled_below(obligations, limit, j),
    ensures
        latest_settled_below(obligations, limit) == Some(j),
{
    let c = choose|c: int| is_latest_settled_below(obligations, limit, c);
    if c < j {
        assert(obligations[c].id < obligations[j].id);
    } else if j < c {
        assert(obligations[j].id < obligations[c].id);
    }
}

/// Without an unsettled obligation there is no window.
pub proof fn lemma_no_unsettled(obligations: Seq<ObligationView>)
    requires
        forall|k: int| 0 <= k < obligations.len() ==> obligations[k].settlement is Some,
    ensures
        earliest_unsettled(obligations) is None,
        window_of(obligations) is None,
{
}

/// Where an obligation is unsettled, one of the unsettled is the earliest.
pub proof fn lemma_earliest_unsettled_exists(obligations: Seq<ObligationView>)
    requires
        exists|k: int| 0 <= k < obligations.len() && obligations[k].settlement is None,
    ensures
        exists|m: int| is_earliest_unsettled(obligations, m),
    decreases obligations.len(),
{
    let earlier = obligations.drop_last();
    let last = obligations.last();
    let n = obligations.len() - 1;
    assert forall|k: int| 0 <= k < n implies earlier[k] == obligations[k] by {}
    if exists|k: int| 0 <= k < earlier.len() && earlier[k].settlement is None {
        lemma_earliest_unsettled_exists(earlier);
        let m = choose|m: int| is_earliest_unsettled(earlier, m);
        if last.settlement is None && last.id < earlier[m].id {
            assert forall|k: int|
                0 <= k < obligations.len() && obligations[k].settlement is None implies last.id
                <= obligations[k].id by {
                if k < n {
                    assert(earlier[k].settlement is None);
                }
            }
            assert forall|k: int| 0 <= k < n && obligations[k].settlement is None implies last.id
                < obligations[k].id by {
                assert(earlier[k].settlement is None);
            }
            assert(is_earliest_unsettled(obligations, n));
        } else {
            assert forall|k: int|
                0 <= k < obligations.len() && obligations[k].settlement is None implies earlier[m].id
                <= obligations[k].id by {
                if k < n {
                    assert(earlier[k].settlement is None);
                }
            }
            assert forall|k: int| 0 <= k < m && obligations[k].settlement is None implies earlier[m].id
                < obligations[k].id by {
                assert(earlier[k].settlement is None);
            }
            assert(is_earliest_unsettled(obligations, m));
        }
    } else {
        assert forall|k: int| 0 <= k < n implies obligations[k].settlement is Some by {
            assert(earlier[k].settlement is Some);
        }
        assert(is_earliest_unsettled(obligations, n));
    }
}

/// Where an obligation below `limit` is settled, one of those is the
/// latest.
pub proof fn lemma_latest_settled_exists(obligations: Seq<ObligationView>, limit: int)
    requires
        exists|k: int|
            0 <= k < obligations.len() && obligations[k].settlement is Some && obligations[k].id
                < limit,
    ensures
        exists|j: int| is_latest_settled_below(obligations, limit, j),
    decreases obligations.len(),
{
    let earlier = obligations.drop_last();
    let last = obligations.last();
    let n = obligations.len() - 1;
    assert forall|k: int| 0 <= k < n implies earlier[k] == obligations[k] by {}
    if exists|k: int|
        0 <= k < earlier.len() && earlier[k].settlement is Some && earlier[k].id < limit {
        lemma_latest_settled_exists(earlier, limit);
        let j = choose|j: int| is_latest_settled_below(earlier, limit, j);
        if last.settlement is Some && last.id < limit && last.id > earlier[j].id {
            assert forall|k: int|
                0 <= k < obligations.len() && obligations[k].settlement is Some && obligations[k].id
                    < limit implies obligations[k].id <= last.id by {
                if k < n {
                    assert(earlier[k].settlement is Some);
                }
            }
            assert forall|k: int|
                0 <= k < n && obligations[k].settlement is Some && obligations[k].id
                    < limit implies obligations[k].id < last.id by {
                assert(earlier[k].settlement is Some);
            }
            assert(is_latest_settled_below(obligations, limit, n));
        } else {
            assert forall|k: int|
                0 <= k < obligations.len() && obligations[k].settlement is Some && obligations[k].id
                    < limit implies obligations[k].id <= earlier[j].id by {
                if k < n {
                    assert(earlier[k].settlement is Some);
                }
            }
            assert forall|k: int|
                0 <= k < j && obligations[k].settlement is Some && obligations[k].id
                    < limit implies obligations[k].id < earlier[j].id by {
                assert(earlier[k].settlement is Some);
            }
            assert(is_latest_settled_below(obligations, limit, j));
        }
    } else {
        assert forall|k: int|
            0 <= k < n implies !(obligations[k].settlement is Some && obligations[k].id < limit) by {
            assert(!(earlier[k].settlement is Some && earlier[k].id < limit));
        }
        assert(is_latest_settled_below(obligations, limit, n));
    }
}

/// The window starts at the creation time of the unsettled obligation with
/// the smallest identifier, and there is none exactly where nothing is
/// unsettled. Its stop boundary is the transfer that settled the obligation
/// with the largest identifier below that one, and is absent exactly where
/// no obligation below it is settled.
pub proof fn law_window(obligations: Seq<ObligationView>)
    ensures
        match window_of(obligations) {
            None => forall|k: int|
                0 <= k < obligations.len() ==> (#[trigger] obligations[k]).settlement is Some,
            Some(window) => exists|m: int|
                {
                    &&& #[trigger] is_earliest_unsettled(obligations, m)
                    &&& window.since_timestamp == obligations[m].created_at
                    &&& match window.stop_boundary {
                        None => forall|k: int|
                            0 <= k < obligations.len() ==> !((
                            #[trigger] obligations[k]).settlement is Some && obligations[k].id
                                < obligations[m].id),
                        Some(transfer_id) => exists|j: int|
                            #[trigger] is_latest_settled_below(obligations, obligations[m].id, j)
                                && transfer_id == obligations[j].settlement->0.transfer_id,
                    }
                },
        },
{
    if exists|k: int| 0 <= k < obligations.len() && obligations[k].settlement is None {
        lemma_earliest_unsettled_exists(obligations);
        let m = earliest_unsettled(obligations)->0;
        assert(is_earliest_unsettled(obligations, m));
        let limit = obligations[m].id;
        if exists|k: int|
            0 <= k < obligations.len() && obligations[k].settlement is Some && obligations[k].id
                < limit {
            lemma_latest_settled_exists(obligations, limit);
            let j = latest_settled_below(obligations, limit)->0;
            assert(is_latest_settled_below(obligations, limit, j));
        } else {
            assert(latest_settled_below(obligations, limit) is None);
        }
    } else {
        lemma_no_unsettled(obligations);
    }
}

/// Computes the window of the feed for a pass over `obligations`: since
/// when to ask, and at which transfer to stop.
pub fn compute_window(obligations: &Vec<PendingObligation>) -> (r: Option<FeedWindow>)
    ensures
        r.deep_view() == window_of(obligations.deep_view()),
{
    let ghost all = obligations.deep_view();
    let mut earliest: Option<usize> = None;
    let mut i: usize = 0;
    while i < obligations.len()
        invariant
            i <= obligations.len(),
            all == obligations.deep_view(),
            all.len() == obligations.len(),
            match earliest {
                None => forall|k: int| 0 <= k < i ==> all[k].settlement is Some,
                Some(m) => {
                    &&& m < i
                    &&& all[m as int].settlement is None
                    &&& forall|k: int|
                        0 <= k < i && all[k].settlement is None ==> all[m as int].id <= all[k].id
                    &&& forall|k: int|
                        0 <= k < m && all[k].settlement is None ==> all[m as int].id < all[k].id
                },
            },
        decreases obligations.len() - i,
    {
        let o = &obligations[i];
        assert(all[i as int] == o@);
        match o.state {
            ObligationState::Unsettled => {
                match earliest {
                    None => {
                        earliest = Some(i);
                    },
                    Some(m) => {
                        if o.id < obligations[m].id {
                            assert(all[m as int] == obligations[m as int]@);
                            earliest = Some(i);
                        }
                    },
                }
            },
            ObligationState::Settled(_) => {},
        }
        i += 1;
    }
    let m = match earliest {
        None => {
            proof {
                lemma_no_unsettled(all);
            }
            return None;
        },
        Some(m) => m,
    };
    proof {
        assert(is_earliest_unsettled(all, m as int));
        lemma_earliest_unsettled_unique(all, m as int);
    }
    let limit = obligations[m].id;
    assert(all[m as int] == obligations[m as int]@);
    let mut latest: Option<usize> = None;
    let mut i: usize = 0;
    while i < obligations.len()
        invariant
            i <= obligations.len(),
            all == obligations.deep_view(),
            all.len() == obligations.len(),
            match latest {
                None => forall|k: int|
                    0 <= k < i ==> !(all[k].settlement is Some && all[k].id < limit),
                Some(j) => {
                    &&& j < i
                    &&& all[j as int].settlement is Some
                    &&& all[j as int].id < limit
                    &&& forall|k: int|
                        0 <= k < i && all[k].settlement is Some && all[k].id < limit ==> all[k].id
                            <= all[j as int].id
                    &&& forall|k: int|
                        0 <= k < j && all[k].settlement is Some && all[k].id < limit ==> all[k].id
                            < all[j as int].id
                },
            },
        decreases obligations.len() - i,
    {
        let o = &obligations[i];
        assert(all[i as int] == o@);
        match o.state {
            ObligationState::Settled(_) => {
                if o.id < limit {
                    match latest {
                        None => {
                            latest = Some(i);
                        },
                        Some(j) => {
                            if o.id > obligations[j].id {
                                assert(all[j as int] == obligations[j as int]@);
                                latest = Some(i);
                            }
                        },
                    }
                }
            },
            ObligationState::Unsettled => {},
        }
        i += 1;
    }
    let stop_boundary = match latest {
        None => {
            assert(latest_settled_below(all, limit as int) is None);
            None
        },
        Some(j) => {
            proof {
                assert(is_latest_settled_below(all, limit as int, j as int));
                lemma_latest_settled_unique(all, limit as int, j as int);
                assert(all[j as int] == obligations[j as int]@);
            }
            match &obligations[j].state {
                ObligationState::Settled(record) => Some(record.transfer_id.clone()),
                ObligationState::Unsettled => None,
            }
        },
    };
    Some(FeedWindow { since_timestamp: obligations[m].created_at, stop_boundary })
}

} // verus!
