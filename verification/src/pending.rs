//! The working set of unsettled obligations of one pass.

use crate::amount::Amount;
use crate::matcher::{is_candidate, matches_expected};
use crate::obligation::{ObligationState, ObligationView, PendingObligation};
use vstd::prelude::*;

verus! {

/// What the matcher reads of an unsettled obligation.
#[derive(Debug)]
pub struct PendingEntry {
    pub id: i64,
    pub expected_amount: Amount,
}

pub struct EntryView {
    pub id: int,
    pub expected_amount: int,
}

impl View for PendingEntry {
    type V = EntryView;

    open spec fn view(&self) -> EntryView {
        EntryView { id: self.id as int, expected_amount: self.expected_amount@ }
    }
}

/// Whether the identifiers grow strictly along the sequence.
pub open spec fn ascending(entries: Seq<EntryView>) -> bool {
    forall|i: int, j: int| 0 <= i < j < entries.len() ==> entries[i].id < entries[j].id
}

/// The entries of the unsettled obligations among `obligations`, in their
/// order.
pub open spec fn unsettled_entries(obligations: Seq<ObligationView>) -> Seq<EntryView>
    decreases obligations.len(),
{
    if obligations.len() == 0 {
        Seq::empty()
    } else {
        let rest = unsettled_entries(obligations.drop_last());
        let last = obligations.last();
        if last.settlement is None {
            rest.push(EntryView { id: last.id, expected_amount: last.expected_amount })
        } else {
            rest
        }
    }
}

/// The position of the first entry at or after `start` that `observed`
/// answers.
pub open spec fn candidate_from(entries: Seq<EntryView>, observed: int, start: int) -> Option<int>
    decreases entries.len() - start,
{
    if start < 0 || start >= entries.len() {
        None
    } else if is_candidate(entries[start].expected_amount, observed) {
        Some(start)
    } else {
        candidate_from(entries, observed, start + 1)
    }
}

/// The position of the first entry that `observed` answers.
pub open spec fn first_candidate(entries: Seq<EntryView>, observed: int) -> Option<int> {
    candidate_from(entries, observed, 0)
}

/// `candidate_from` finds an entry that answers, and passes over none.
pub proof fn lemma_candidate_from(entries: Seq<EntryView>, observed: int, start: int)
    requires
        0 <= start,
    ensures
        match candidate_from(entries, observed, start) {
            Some(i) => {
                &&& start <= i < entries.len()
                &&& is_candidate(entries[i].expected_amount, observed)
                &&& forall|j: int|
                    start <= j < i ==> !is_candidate(entries[j].expected_amount, observed)
            },
            None => forall|j: int|
                start <= j < entries.len() ==> !is_candidate(entries[j].expected_amount, observed),
        },
    decreases entries.len() - start,
{
    if start < entries.len() && !is_candidate(entries[start].expected_amount, observed) {
        lemma_candidate_from(entries, observed, start + 1);
    }
}

/// The unsettled obligations of one pass, in ascending order of their
/// identifiers.
#[derive(Debug)]
pub struct PendingSet {
    entries: Vec<PendingEntry>,
}

impl View for PendingSet {
    type V = Seq<EntryView>;

    closed spec fn view(&self) -> Seq<EntryView> {
        self.entries@.map_values(|e: PendingEntry| e@)
    }
}

impl PendingSet {
    /// Every pending set is in ascending order of identifiers. The
    /// invariant is public, so that code holding a pending set anywhere
    /// learns it from `use_type_invariant`.
    #[verifier::type_invariant]
    pub open spec fn in_order(&self) -> bool {
        ascending(self@)
    }

    /// Collects the unsettled obligations among `obligations`, which the
    /// store hands out in ascending order of identifiers. Settled ones are
    /// left out, so none of them can be settled again. `None` where the
    /// unsettled ones are not in ascending order.
    pub fn load(obligations: &Vec<PendingObligation>) -> (r: Option<PendingSet>)
        ensures
            match r {
                Some(set) => set@ == unsettled_entries(obligations.deep_view()) && ascending(set@),
                None => !ascending(unsettled_entries(obligations.deep_view())),
            },
    {
        let ghost all = obligations.deep_view();
        let mut entries: Vec<PendingEntry> = Vec::new();
        let mut i: usize = 0;
        assert(all.take(0) =~= Seq::<ObligationView>::empty());
        while i < obligations.len()
            invariant
                i <= obligations.len(),
                all == obligations.deep_view(),
                all.len() == obligations.len(),
                entries@.map_values(|e: PendingEntry| e@) == unsettled_entries(all.take(i as int)),
                ascending(unsettled_entries(all.take(i as int))),
            decreases obligations.len() - i,
        {
            let o = &obligations[i];
            proof {
                assert(all[i as int] == o@);
                assert(all.take(i + 1).drop_last() =~= all.take(i as int));
                assert(all.take(i + 1).last() == o@);
            }
            let ghost before = unsettled_entries(all.take(i as int));
            let ghost after = unsettled_entries(all.take(i + 1));
            match o.state {
                ObligationState::Unsettled => {
                    let n = entries.len();
                    if n > 0 && entries[n - 1].id >= o.id {
                        proof {
                            assert(after == before.push(
                                EntryView { id: o.id as int, expected_amount: o.expected_amount@ },
                            ));
                            assert(before.len() == n);
                            assert(before[n - 1] == entries[n - 1]@);
                            assert(after[n - 1] == before[n - 1]);
                            assert(!(after[n - 1].id < after[n as int].id));
                            lemma_unsettled_prefix(all, i + 1);
                        }
                        return None;
                    }
                    proof {
                        assert(before.len() == n);
                        assert(n > 0 ==> before[n - 1] == entries[n - 1]@);
                        assert forall|a: int, b: int| 0 <= a < b < after.len() implies after[a].id
                            < after[b].id by {
                            if b == n {
                                assert(after[a] == before[a]);
                                assert(a < n - 1 ==> before[a].id < before[n - 1].id);
                            } else {
                                assert(after[a] == before[a] && after[b] == before[b]);
                            }
                        }
                    }
                    let expected_amount = o.expected_amount.clone();
                    entries.push(PendingEntry { id: o.id, expected_amount });
                    proof {
                        assert(entries@.map_values(|e: PendingEntry| e@) =~= after);
                    }
                },
                ObligationState::Settled(_) => {
                    assert(after == before);
                },
            }
            i += 1;
        }
        proof {
            assert(all.take(i as int) =~= all);
        }
        Some(PendingSet { entries })
    }

    /// The number of obligations still pending.
    pub fn len(&self) -> (r: usize)
        ensures
            r == self@.len(),
    {
        self.entries.len()
    }

    /// Whether no obligation is pending.
    pub fn is_empty(&self) -> (r: bool)
        ensures
            r == (self@.len() == 0),
    {
        self.entries.len() == 0
    }

    /// The identifier of the pending obligation at `index`.
    pub fn id_at(&self, index: usize) -> (r: Option<i64>)
        ensures
            match r {
                Some(id) => index < self@.len() && id == self@[index as int].id,
                None => index >= self@.len(),
            },
    {
        if index < self.entries.len() {
            Some(self.entries[index].id)
        } else {
            None
        }
    }

    /// Finds the first pending obligation that `observed` answers.
    pub fn find_match(&self, observed: &Amount) -> (r: Option<usize>)
        ensures
            match r {
                Some(i) => first_candidate(self@, observed@) == Some(i as int),
                None => first_candidate(self@, observed@) is None,
            },
    {
        let mut i: usize = 0;
        while i < self.entries.len()
            invariant
                i <= self.entries.len(),
                self@ == self.entries@.map_values(|e: PendingEntry| e@),
                first_candidate(self@, observed@) == candidate_from(self@, observed@, i as int),
            decreases self.entries.len() - i,
        {
            if matches_expected(&self.entries[i].expected_amount, observed) {
                return Some(i);
            }
            i += 1;
        }
        None
    }

    /// Matches an observed amount against the pending obligations: the
    /// first one that it answers is taken out of the set, and its
    /// identifier returned.
    pub fn take_match(&mut self, observed: &Amount) -> (r: Option<i64>)
        ensures
            ascending(final(self)@),
            match first_candidate(old(self)@, observed@) {
                Some(i) => {
                    &&& r is Some
                    &&& r->0 as int == old(self)@[i].id
                    &&& final(self)@ == old(self)@.remove(i)
                },
                None => r is None && final(self)@ == old(self)@,
            },
    {
        proof {
            use_type_invariant(&*self);
        }
        match self.find_match(observed) {
            Some(i) => {
                proof {
                    lemma_candidate_from(self@, observed@, 0);
                }
                let mut entries: Vec<PendingEntry> = Vec::new();
                core::mem::swap(&mut entries, &mut self.entries);
                let ghost before = entries@.map_values(|e: PendingEntry| e@);
                let taken = entries.remove(i);
                proof {
                    assert(entries@.map_values(|e: PendingEntry| e@) =~= before.remove(i as int));
                    lemma_remove_keeps_order(before, i as int);
                }
                self.entries = entries;
                Some(taken.id)
            },
            None => None,
        }
    }
}

/// A prefix of obligations that yields entries out of order makes the whole
/// yield entries out of order.
pub proof fn lemma_unsettled_prefix(obligations: Seq<ObligationView>, n: int)
    requires
        0 <= n <= obligations.len(),
        !ascending(unsettled_entries(obligations.take(n))),
    ensures
        !ascending(unsettled_entries(obligations)),
    decreases obligations.len() - n,
{
    if n == obligations.len() {
        assert(obligations.take(n) =~= obligations);
    } else {
        let shorter = unsettled_entries(obligations.take(n));
        let longer = unsettled_entries(obligations.take(n + 1));
        assert(obligations.take(n + 1).drop_last() =~= obligations.take(n));
        let (i, j) = choose|i: int, j: int|
            0 <= i < j < shorter.len() && !(shorter[i].id < shorter[j].id);
        assert(longer[i] == shorter[i] && longer[j] == shorter[j]);
        lemma_unsettled_prefix(obligations, n + 1);
    }
}

/// Taking an entry out leaves the others in order.
pub proof fn lemma_remove_keeps_order(entries: Seq<EntryView>, i: int)
    requires
        ascending(entries),
        0 <= i < entries.len(),
    ensures
        ascending(entries.remove(i)),
{
    let rest = entries.remove(i);
    assert forall|a: int, b: int| 0 <= a < b < rest.len() implies rest[a].id < rest[b].id by {
        let a0 = if a < i { a } else { a + 1 };
        let b0 = if b < i { b } else { b + 1 };
        assert(rest[a] == entries[a0] && rest[b] == entries[b0]);
    }
}

/// A transfer is matched exactly where it answers a pending obligation,
/// and then to the first one that it answers: no obligation before the
/// matched one is answered by it. In a set in ascending order the matched
/// obligation therefore has the smallest identifier of all that the
/// transfer answers.
pub proof fn law_match_is_first_candidate(entries: Seq<EntryView>, observed: int)
    ensures
        first_candidate(entries, observed) is Some <==> exists|i: int|
            0 <= i < entries.len() && is_candidate(#[trigger] entries[i].expected_amount, observed),
        first_candidate(entries, observed) matches Some(m) ==> {
            &&& 0 <= m < entries.len()
            &&& is_candidate(entries[m].expected_amount, observed)
            &&& forall|j: int| 0 <= j < m ==> !is_candidate(entries[j].expected_amount, observed)
            &&& ascending(entries) ==> forall|j: int|
                0 <= j < entries.len() && is_candidate(entries[j].expected_amount, observed)
                    ==> entries[m].id <= entries[j].id
        },
{
    lemma_candidate_from(entries, observed, 0);
    if let Some(m) = first_candidate(entries, observed) {
        assert(is_candidate(entries[m].expected_amount, observed));
    }
}

/// Against a single pending obligation, a transfer is matched if and only
/// if its amount lies in the tolerance window of the expected amount and
/// agrees with it on the leading fractional digits.
pub proof fn law_single_match(entry: EntryView, observed: int)
    ensures
        first_candidate(seq![entry], observed) == if is_candidate(entry.expected_amount, observed) {
            Some(0int)
        } else {
            None
        },
{
    reveal_with_fuel(candidate_from, 2);
}

/// Only unsettled obligations enter a pending set: every entry stands for
/// an obligation that is unsettled, with its identifier and its expected
/// amount.
pub proof fn law_only_unsettled_are_pending(obligations: Seq<ObligationView>, k: int)
    requires
        0 <= k < unsettled_entries(obligations).len(),
    ensures
        exists|i: int|
            0 <= i < obligations.len() && (#[trigger] obligations[i]).settlement is None
                && obligations[i].id == unsettled_entries(obligations)[k].id
                && obligations[i].expected_amount == unsettled_entries(
                obligations,
            )[k].expected_amount,
    decreases obligations.len(),
{
    let rest = unsettled_entries(obligations.drop_last());
    if k < rest.len() {
        law_only_unsettled_are_pending(obligations.drop_last(), k);
        let earlier = obligations.drop_last();
        let i = choose|i: int|
            0 <= i < earlier.len() && (#[trigger] earlier[i]).settlement is None && earlier[i].id
                == rest[k].id && earlier[i].expected_amount == rest[k].expected_amount;
        assert(obligations[i] == earlier[i]);
    } else {
        let i = obligations.len() - 1;
        assert(obligations[i] == obligations.last());
    }
}

/// Every unsettled obligation enters the pending set.
pub proof fn law_every_unsettled_is_pending(obligations: Seq<ObligationView>, i: int)
    requires
        0 <= i < obligations.len(),
        obligations[i].settlement is None,
    ensures
        exists|k: int|
            0 <= k < unsettled_entries(obligations).len() && (#[trigger] unsettled_entries(
                obligations,
            )[k]) == (EntryView {
                id: obligations[i].id,
                expected_amount: obligations[i].expected_amount,
            }),
    decreases obligations.len(),
{
    let rest = unsettled_entries(obligations.drop_last());
    let all = unsettled_entries(obligations);
    if i < obligations.len() - 1 {
        law_every_unsettled_is_pending(obligations.drop_last(), i);
        let k = choose|k: int|
            0 <= k < rest.len() && (#[trigger] rest[k]) == (EntryView {
                id: obligations.drop_last()[i].id,
                expected_amount: obligations.drop_last()[i].expected_amount,
            });
        assert(all[k] == rest[k]);
    } else {
        assert(all[all.len() - 1] == (EntryView {
            id: obligations[i].id,
            expected_amount: obligations[i].expected_amount,
        }));
    }
}

} // verus!
