//! Scanning the records of a feed page against the pending set.

use crate::matcher::is_candidate;
use crate::pending::{
    ascending, first_candidate, lemma_candidate_from, lemma_remove_keeps_order, EntryView,
    PendingSet,
};
use crate::transfer::{
    normalized, FilterView, ObservedTransfer, RawRecord, RawView, TransferFilter, TransferView,
};
use vstd::prelude::*;

verus! {

/// An obligation and the transfer that was found to answer it: what is to
/// be settled.
#[derive(Debug)]
pub struct Match {
    pub obligation_id: i64,
    pub transfer: ObservedTransfer,
}

pub struct MatchView {
    pub obligation_id: int,
    pub transfer: TransferView,
}

impl View for Match {
    type V = MatchView;

    open spec fn view(&self) -> MatchView {
        MatchView { obligation_id: self.obligation_id as int, transfer: self.transfer@ }
    }
}

impl DeepView for Match {
    type V = MatchView;

    open spec fn deep_view(&self) -> MatchView {
        self@
    }
}

/// Why a scan ended before the last record.
#[derive(Clone, Copy, Debug, PartialEq, Eq, Structural)]
pub enum ScanStop {
    /// A record carried the identifier of the stop boundary.
    BoundaryReached,
    /// The last pending obligation was matched.
    AllResolved,
}

/// What a scan comes to: the obligations still pending, the matches in the
/// order in which they were found, and why it stopped early, if it did.
pub struct ScanView {
    pub pending: Seq<EntryView>,
    pub matches: Seq<MatchView>,
    pub stop: Option<ScanStop>,
}

/// The scan `tail` with `found` put before its matches.
pub open spec fn after_matches(found: Seq<MatchView>, tail: ScanView) -> ScanView {
    ScanView { pending: tail.pending, matches: found + tail.matches, stop: tail.stop }
}

/// Scanning `records` in order against `pending`.
///
/// A record that carries the boundary's identifier ends the scan before it
/// is looked at. Any other record is normalized; if it is relevant and
/// answers a pending obligation, the first such obligation is matched and
/// leaves the set; when the set is empty the scan ends.
pub open spec fn scan(
    filter: FilterView,
    boundary: Option<Seq<char>>,
    pending: Seq<EntryView>,
    records: Seq<RawView>,
) -> ScanView
    decreases records.len(),
{
    if records.len() == 0 {
        ScanView { pending, matches: Seq::empty(), stop: None }
    } else {
        let raw = records.first();
        let rest = records.drop_first();
        if boundary == Some(raw.transfer_id) {
            ScanView { pending, matches: Seq::empty(), stop: Some(ScanStop::BoundaryReached) }
        } else {
            match normalized(filter, raw) {
                None => scan(filter, boundary, pending, rest),
                Some(transfer) => match first_candidate(pending, transfer.amount) {
                    None => scan(filter, boundary, pending, rest),
                    Some(i) => {
                        let found = seq![MatchView { obligation_id: pending[i].id, transfer }];
                        let left = pending.remove(i);
                        if left.len() == 0 {
                            ScanView {
                                pending: left,
                                matches: found,
                                stop: Some(ScanStop::AllResolved),
                            }
                        } else {
                            after_matches(found, scan(filter, boundary, left, rest))
                        }
                    },
                },
            }
        }
    }
}

/// Whether `id` is the stop boundary.
fn is_boundary(boundary: &Option<String>, id: &String) -> (r: bool)
    ensures
        r == (boundary.deep_view() == Some(id@)),
{
    match boundary {
        Some(b) => *b == *id,
        None => false,
    }
}

/// Scans the records of one page against the pending set, taking each
/// matched obligation out of it. Returns the matches in the order found and
/// the reason why the scan stopped before the last record, if it did.
pub fn scan_records(
    filter: &TransferFilter,
    boundary: &Option<String>,
    pending: &mut PendingSet,
    records: &Vec<RawRecord>,
) -> (r: (Vec<Match>, Option<ScanStop>))
    ensures
        ({
            let expected = scan(
                filter@,
                boundary.deep_view(),
                old(pending)@,
                records.deep_view(),
            );
            &&& final(pending)@ == expected.pending
            &&& r.0.deep_view() == expected.matches
            &&& r.1 == expected.stop
        }),
        ascending(final(pending)@),
{
    let ghost all = records.deep_view();
    let ghost start = pending@;
    let ghost whole = scan(filter@, boundary.deep_view(), start, all);
    let mut matches: Vec<Match> = Vec::new();
    let mut i: usize = 0;
    proof {
        use_type_invariant(&*pending);
        assert(all.skip(0) =~= all);
        assert(matches.deep_view() =~= Seq::<MatchView>::empty());
        assert(matches.deep_view() + whole.matches =~= whole.matches);
    }
    while i < records.len()
        invariant
            i <= records.len(),
            all == records.deep_view(),
            all.len() == records.len(),
            ascending(pending@),
            whole == scan(filter@, boundary.deep_view(), old(pending)@, all),
            whole == after_matches(
                matches.deep_view(),
                scan(filter@, boundary.deep_view(), pending@, all.skip(i as int)),
            ),
        decreases records.len() - i,
    {
        let raw = &records[i];
        let ghost found = matches.deep_view();
        let ghost here = all.skip(i as int);
        proof {
            assert(here.first() == raw@);
            assert(here.drop_first() =~= all.skip(i + 1));
        }
        if is_boundary(boundary, &raw.transfer_id) {
            proof {
                assert(found + Seq::<MatchView>::empty() =~= found);
            }
            return (matches, Some(ScanStop::BoundaryReached));
        }
        match filter.normalize(raw) {
            None => {},
            Some(transfer) => {
                let ghost before = pending@;
                match pending.take_match(&transfer.amount) {
                    None => {},
                    Some(id) => {
                        let ghost m = MatchView { obligation_id: id as int, transfer: transfer@ };
                        let ghost at = first_candidate(before, transfer@.amount)->0;
                        assert(m.obligation_id == before[at].id);
                        assert(pending@ == before.remove(at));
                        matches.push(Match { obligation_id: id, transfer });
                        proof {
                            assert(matches.deep_view() =~= found.push(m));
                        }
                        if pending.is_empty() {
                            proof {
                                assert(found + seq![m] =~= found.push(m));
                            }
                            return (matches, Some(ScanStop::AllResolved));
                        }
                        proof {
                            let tail = scan(
                                filter@,
                                boundary.deep_view(),
                                pending@,
                                all.skip(i + 1),
                            );
                            assert(found + (seq![m] + tail.matches) =~= found.push(m)
                                + tail.matches);
                        }
                    },
                }
            },
        }
        i += 1;
    }
    proof {
        assert(all.skip(i as int) =~= Seq::<RawView>::empty());
        assert(matches.deep_view() + Seq::<MatchView>::empty() =~= matches.deep_view());
    }
    (matches, None)
}

/// Whether `found` pairs an obligation of `pending` with a transfer that
/// answers it.
pub open spec fn answers_one_of(pending: Seq<EntryView>, found: MatchView) -> bool {
    exists|i: int|
        0 <= i < pending.len() && (#[trigger] pending[i]).id == found.obligation_id && is_candidate(
            pending[i].expected_amount,
            found.transfer.amount,
        )
}

/// Whether the scan `r` of obligations that were `pending` matched each of
/// them at most once: each match pairs an obligation that was pending with
/// a transfer that answers it; no two matches name the same obligation; a
/// matched obligation is pending no longer; what is still pending was
/// pending before and is still in ascending order; and matched and pending
/// obligations together are as many as were pending at the start.
pub open spec fn each_matched_once(pending: Seq<EntryView>, r: ScanView) -> bool {
    &&& ascending(r.pending)
    &&& r.pending.len() + r.matches.len() == pending.len()
    &&& forall|k: int|
        0 <= k < r.matches.len() ==> answers_one_of(pending, #[trigger] r.matches[k])
    &&& forall|k: int| 0 <= k < r.pending.len() ==> pending.contains(#[trigger] r.pending[k])
    &&& forall|a: int, b: int|
        0 <= a < b < r.matches.len() ==> (#[trigger] r.matches[a]).obligation_id
            != (#[trigger] r.matches[b]).obligation_id
    &&& forall|k: int, j: int|
        0 <= k < r.matches.len() && 0 <= j < r.pending.len()
            ==> (#[trigger] r.matches[k]).obligation_id != (#[trigger] r.pending[j]).id
}

/// Within one scan every pending obligation is matched at most once, so
/// that none is handed out for settlement twice.
pub proof fn law_scan_matches_each_obligation_once(
    filter: FilterView,
    boundary: Option<Seq<char>>,
    pending: Seq<EntryView>,
    records: Seq<RawView>,
)
    requires
        ascending(pending),
    ensures
        each_matched_once(pending, scan(filter, boundary, pending, records)),
    decreases records.len(), 1int,
{
    let r = scan(filter, boundary, pending, records);
    let raw = records.first();
    let rest = records.drop_first();
    if records.len() == 0 || boundary == Some(raw.transfer_id) {
        assert forall|k: int| 0 <= k < r.pending.len() implies pending.contains(
            #[trigger] r.pending[k],
        ) by {
            assert(pending[k] == r.pending[k]);
        }
    } else {
        lemma_scan_step(filter, boundary, pending, records);
    }
}

/// The step of the law above for a first record that is looked at.
proof fn lemma_scan_step(
    filter: FilterView,
    boundary: Option<Seq<char>>,
    pending: Seq<EntryView>,
    records: Seq<RawView>,
)
    requires
        ascending(pending),
        records.len() > 0,
        boundary != Some(records.first().transfer_id),
    ensures
        each_matched_once(pending, scan(filter, boundary, pending, records)),
    decreases records.len(), 0int,
{
    let r = scan(filter, boundary, pending, records);
    let raw = records.first();
    let rest = records.drop_first();
    let hit = match normalized(filter, raw) {
        None => None,
        Some(transfer) => match first_candidate(pending, transfer.amount) {
            None => None,
            Some(i) => Some((transfer, i)),
        },
    };
    match hit {
        None => {
            assert(r == scan(filter, boundary, pending, rest));
            law_scan_matches_each_obligation_once(filter, boundary, pending, rest);
        },
        Some((transfer, i)) => {
            lemma_candidate_from(pending, transfer.amount, 0);
            let m = MatchView { obligation_id: pending[i].id, transfer };
            let left = pending.remove(i);
            lemma_remove_keeps_order(pending, i);
            assert(answers_one_of(pending, m)) by {
                assert(pending[i].id == m.obligation_id);
            }
            assert forall|j: int| 0 <= j < left.len() implies pending.contains(#[trigger] left[j])
                && left[j].id != m.obligation_id by {
                let j0 = if j < i {
                    j
                } else {
                    j + 1
                };
                assert(pending[j0] == left[j]);
            }
            if left.len() == 0 {
                assert(r.matches =~= seq![m]);
            } else {
                let tail = scan(filter, boundary, left, rest);
                law_scan_matches_each_obligation_once(filter, boundary, left, rest);
                assert(r == after_matches(seq![m], tail));
                assert(r.matches.len() == tail.matches.len() + 1);
                assert(r.matches[0] == m);
                assert forall|k: int| 0 <= k < r.matches.len() implies answers_one_of(
                    pending,
                    #[trigger] r.matches[k],
                ) by {
                    if k > 0 {
                        let f = tail.matches[k - 1];
                        assert(r.matches[k] == f);
                        assert(answers_one_of(left, f));
                        let w = choose|w: int|
                            0 <= w < left.len() && (#[trigger] left[w]).id == f.obligation_id
                                && is_candidate(left[w].expected_amount, f.transfer.amount);
                        assert(pending.contains(left[w]));
                        let w0 = choose|w0: int| 0 <= w0 < pending.len() && pending[w0] == left[w];
                        assert(pending[w0].id == f.obligation_id);
                    }
                }
                assert forall|k: int| 0 <= k < r.pending.len() implies pending.contains(
                    #[trigger] r.pending[k],
                ) by {
                    assert(left.contains(tail.pending[k]));
                    let w = choose|w: int| 0 <= w < left.len() && left[w] == tail.pending[k];
                    assert(pending.contains(left[w]));
                }
                assert forall|a: int, b: int| 0 <= a < b < r.matches.len() implies
                    (#[trigger] r.matches[a]).obligation_id
                    != (#[trigger] r.matches[b]).obligation_id by {
                    assert(r.matches[b] == tail.matches[b - 1]);
                    if a == 0 {
                        let f = tail.matches[b - 1];
                        assert(answers_one_of(left, f));
                        let w = choose|w: int|
                            0 <= w < left.len() && (#[trigger] left[w]).id == f.obligation_id
                                && is_candidate(left[w].expected_amount, f.transfer.amount);
                        assert(left[w].id != m.obligation_id);
                    } else {
                        assert(r.matches[a] == tail.matches[a - 1]);
                    }
                }
                assert forall|k: int, j: int|
                    0 <= k < r.matches.len() && 0 <= j < r.pending.len() implies
                    (#[trigger] r.matches[k]).obligation_id != (#[trigger] r.pending[j]).id by {
                    if k == 0 {
                        assert(left.contains(tail.pending[j]));
                        let w = choose|w: int| 0 <= w < left.len() && left[w] == tail.pending[j];
                        assert(left[w].id != m.obligation_id);
                    } else {
                        assert(r.matches[k] == tail.matches[k - 1]);
                    }
                }
            }
        },
    }
}

/// A record that carries the identifier of the stop boundary halts the
/// scan: neither that record nor any record after it is looked at. The
/// matches and the pending set are those of the records before it, so what
/// was not matched by then stays pending.
pub proof fn law_boundary_halts_scan(
    filter: FilterView,
    boundary: Seq<char>,
    pending: Seq<EntryView>,
    before: Seq<RawView>,
    hit: RawView,
    after: Seq<RawView>,
)
    requires
        hit.transfer_id == boundary,
    ensures
        ({
            let full = scan(filter, Some(boundary), pending, before + seq![hit] + after);
            let seen = scan(filter, Some(boundary), pending, before);
            &&& full.matches == seen.matches
            &&& full.pending == seen.pending
            &&& full.stop == if seen.stop is Some {
                seen.stop
            } else {
                Some(ScanStop::BoundaryReached)
            }
        }),
    decreases before.len(),
{
    let records = before + seq![hit] + after;
    if before.len() == 0 {
        assert(records.first() == hit);
    } else {
        let raw = before.first();
        assert(records.first() == raw);
        assert(records.drop_first() =~= before.drop_first() + seq![hit] + after);
        if Some(boundary) != Some(raw.transfer_id) {
            let hit_entry = match normalized(filter, raw) {
                None => None,
                Some(transfer) => first_candidate(pending, transfer.amount),
            };
            match hit_entry {
                None => {
                    law_boundary_halts_scan(
                        filter,
                        boundary,
                        pending,
                        before.drop_first(),
                        hit,
                        after,
                    );
                },
                Some(i) => {
                    let left = pending.remove(i);
                    if left.len() != 0 {
                        law_boundary_halts_scan(
                            filter,
                            boundary,
                            left,
                            before.drop_first(),
                            hit,
                            after,
                        );
                    }
                },
            }
        }
    }
}

/// A pass over several pages is one scan of their records in a row: as
/// long as the scan of the first records did not stop, scanning what
/// follows against what is left pending continues it. What holds of one
/// scan therefore holds of a whole pass.
pub proof fn law_scan_continues_across_pages(
    filter: FilterView,
    boundary: Option<Seq<char>>,
    pending: Seq<EntryView>,
    first: Seq<RawView>,
    second: Seq<RawView>,
)
    ensures
        scan(filter, boundary, pending, first + second) == ({
            let head = scan(filter, boundary, pending, first);
            if head.stop is Some {
                head
            } else {
                after_matches(head.matches, scan(filter, boundary, head.pending, second))
            }
        }),
    decreases first.len(),
{
    let records = first + second;
    let head = scan(filter, boundary, pending, first);
    if first.len() == 0 {
        assert(records =~= second);
        let tail = scan(filter, boundary, pending, second);
        assert(head.matches + tail.matches =~= tail.matches);
    } else {
        let raw = first.first();
        let rest = first.drop_first();
        assert(records.first() == raw);
        assert(records.drop_first() =~= rest + second);
        if boundary != Some(raw.transfer_id) {
            let hit = match normalized(filter, raw) {
                None => None,
                Some(transfer) => match first_candidate(pending, transfer.amount) {
                    None => None,
                    Some(i) => Some((transfer, i)),
                },
            };
            match hit {
                None => {
                    law_scan_continues_across_pages(filter, boundary, pending, rest, second);
                },
                Some((transfer, i)) => {
                    let found = seq![MatchView { obligation_id: pending[i].id, transfer }];
                    let left = pending.remove(i);
                    if left.len() != 0 {
                        law_scan_continues_across_pages(filter, boundary, left, rest, second);
                        let tail = scan(filter, boundary, left, rest);
                        if tail.stop is None {
                            let more = scan(filter, boundary, tail.pending, second);
                            assert(found + (tail.matches + more.matches) =~= (found + tail.matches)
                                + more.matches);
                        }
                    }
                },
            }
        }
    }
}

} // verus!
