//! Per-tick state of the refinement loop: each tick's scored outcomes are
//! recorded into a `TickAccumulator`, then folded into the cross-tick
//! `RunningTotals` that drive the cumulative counters.

use vstd::prelude::*;

use crate::keyed::{entries_map, insert_entry, lemma_entries_map, position_of, unique_keys};

verus! {

/// A tally's count for `k`, 0 when absent.
pub open spec fn count_of(m: Map<Seq<char>, u64>, k: Seq<char>) -> nat {
    if m.dom().contains(k) {
        m[k] as nat
    } else {
        0
    }
}

/// Every count of `b` can be added onto `a` without leaving `u64`.
pub open spec fn merge_fits(a: Map<Seq<char>, u64>, b: Map<Seq<char>, u64>) -> bool {
    forall|k: Seq<char>| #[trigger] b.dom().contains(k) ==> count_of(a, k) + b[k] <= u64::MAX
}

/// The per-key sum of two tallies.
pub open spec fn merged(a: Map<Seq<char>, u64>, b: Map<Seq<char>, u64>) -> Map<Seq<char>, u64> {
    Map::new(
        |k: Seq<char>| a.dom().contains(k) || b.dom().contains(k),
        |k: Seq<char>| (count_of(a, k) + count_of(b, k)) as u64,
    )
}

/// Failure counts by reason label.
pub struct ErrorCounts {
    entries: Vec<(String, u64)>,
}

impl View for ErrorCounts {
    type V = Map<Seq<char>, u64>;

    closed spec fn view(&self) -> Map<Seq<char>, u64> {
        entries_map(self.entries@)
    }
}

impl ErrorCounts {
    #[verifier::type_invariant]
    spec fn inv(&self) -> bool {
        unique_keys(self.entries@)
    }

    /// No failures counted.
    pub fn new() -> (c: ErrorCounts)
        ensures
            c@ == Map::<Seq<char>, u64>::empty(),
    {
        ErrorCounts { entries: Vec::new() }
    }

    /// The count for `reason`, if any failure was counted under it.
    pub fn get(&self, reason: &str) -> (r: Option<u64>)
        ensures
            r == (if self@.dom().contains(reason@) {
                Some(self@[reason@])
            } else {
                None
            }),
    {
        proof {
            use_type_invariant(self);
            lemma_entries_map(self.entries@);
        }
        match position_of(&self.entries, reason) {
            Some(i) => Some(self.entries[i].1),
            None => None,
        }
    }

    /// Whether no reason has been counted.
    pub fn is_empty(&self) -> (b: bool)
        ensures
            b == (self@ == Map::<Seq<char>, u64>::empty()),
    {
        proof {
            use_type_invariant(self);
            lemma_entries_map(self.entries@);
            if self.entries@.len() > 0 {
                assert(self@.dom().contains(self.entries@[0].0@));
            } else {
                assert(self@ =~= Map::<Seq<char>, u64>::empty());
            }
        }
        self.entries.len() == 0
    }

    /// The (reason, count) pairs, each reason once.
    pub fn entries(&self) -> (r: &Vec<(String, u64)>)
        ensures
            unique_keys(r@),
            entries_map(r@) == self@,
    {
        proof {
            use_type_invariant(self);
        }
        &self.entries
    }

    /// Count `n` more failures under `reason`.
    pub fn add(&mut self, reason: &str, n: u64)
        requires
            count_of(old(self)@, reason@) + n <= u64::MAX,
        ensures
            final(self)@ == old(self)@.insert(reason@, (count_of(old(self)@, reason@) + n) as u64),
    {
        proof {
            use_type_invariant(&*self);
            lemma_entries_map(self.entries@);
        }
        let current = match position_of(&self.entries, reason) {
            Some(i) => self.entries[i].1,
            None => 0,
        };
        let mut taken = ErrorCounts::new();
        std::mem::swap(&mut taken, self);
        let mut entries = taken.entries;
        insert_entry(&mut entries, crate::text::string_of(reason), current + n);
        *self = ErrorCounts { entries };
    }

    /// Set the count for `reason` to `n`.
    pub fn set(&mut self, reason: &str, n: u64)
        ensures
            final(self)@ == old(self)@.insert(reason@, n),
    {
        proof {
            use_type_invariant(&*self);
        }
        let mut taken = ErrorCounts::new();
        std::mem::swap(&mut taken, self);
        let mut entries = taken.entries;
        insert_entry(&mut entries, crate::text::string_of(reason), n);
        *self = ErrorCounts { entries };
    }

    /// Add each of these counts onto `totals`, reason by reason.
    pub fn merge_into(&self, totals: &mut ErrorCounts)
        requires
            merge_fits(old(totals)@, self@),
        ensures
            final(totals)@ == merged(old(totals)@, self@),
    {
        proof {
            use_type_invariant(self);
            lemma_entries_map(self.entries@);
        }
        let ghost start = totals@;
        let ghost e = self.entries@;
        let n = self.entries.len();
        let mut i: usize = 0;
        proof {
            assert(e.take(0) =~= Seq::<(String, u64)>::empty());
            assert(merged(start, entries_map(e.take(0))) =~= start);
        }
        while i < n
            invariant
                n == e.len(),
                e == self.entries@,
                i <= n,
                unique_keys(e),
                merge_fits(start, entries_map(e)),
                forall|j: int| 0 <= j < n ==> #[trigger] entries_map(e)[e[j].0@] == e[j].1,
                forall|j: int| 0 <= j < n ==> entries_map(e).dom().contains(#[trigger] e[j].0@),
                totals@ == merged(start, entries_map(e.take(i as int))),
            decreases n - i,
        {
            let ghost prefix = e.take(i as int);
            let ghost k = e[i as int].0@;
            let ghost v = e[i as int].1;
            proof {
                assert(e.take(i + 1).drop_last() =~= prefix);
                assert(unique_keys(prefix));
                lemma_entries_map(prefix);
                if entries_map(prefix).dom().contains(k) {
                    let j = choose|j: int| 0 <= j < prefix.len() && prefix[j].0@ == k;
                    assert(e[j].0@ == e[i as int].0@);
                }
                assert(count_of(totals@, k) == count_of(start, k));
                assert(count_of(start, k) + v <= u64::MAX);
            }
            totals.add(self.entries[i].0.as_str(), self.entries[i].1);
            proof {
                let before = merged(start, entries_map(prefix));
                assert(merged(start, entries_map(e.take(i + 1))) =~= before.insert(
                    k,
                    (count_of(start, k) + v) as u64,
                ));
            }
            i = i + 1;
        }
        proof {
            assert(e.take(n as int) =~= e);
        }
    }
}

/// The one failure the dispatcher sees after retries: scoring fell back and
/// the image stays unscored for the next tick.
#[derive(Debug, Clone, Copy, PartialEq, Eq, Structural)]
pub enum ScoringFailure {
    FallbackAfterRetries,
}

impl ScoringFailure {
    pub open spec fn spec_label(&self) -> Seq<char> {
        match self {
            ScoringFailure::FallbackAfterRetries => "FallbackAfterRetries"@,
        }
    }

    /// The label failures are counted under.
    pub fn as_label(&self) -> (s: &'static str)
        ensures
            s@ == self.spec_label(),
    {
        match self {
            ScoringFailure::FallbackAfterRetries => "FallbackAfterRetries",
        }
    }
}

/// The outcomes of scoring a batch, paired with their image ids.
pub struct ScoreOutcomes<S, E> {
    pub successes: Vec<(String, S)>,
    pub failures: Vec<(String, E)>,
}

/// State accumulated within one tick: scores waiting to be saved, each with
/// the model version that produced it, and failure counts by reason.
pub struct TickAccumulator<S> {
    pub pending_scores: Vec<(String, S, String)>,
    pub errors: ErrorCounts,
}

/// `failures` counted by label on top of `errors`.
pub open spec fn counted(errors: Map<Seq<char>, u64>, failures: Seq<(String, ScoringFailure)>) -> Map<
    Seq<char>,
    u64,
>
    decreases failures.len(),
{
    if failures.len() == 0 {
        errors
    } else {
        let before = counted(errors, failures.drop_last());
        let label = failures.last().1.spec_label();
        before.insert(label, (count_of(before, label) + 1) as u64)
    }
}

impl<S> TickAccumulator<S> {
    pub fn new() -> (a: TickAccumulator<S>)
        ensures
            a.pending_scores@ == Seq::<(String, S, String)>::empty(),
            a.errors@ == Map::<Seq<char>, u64>::empty(),
    {
        TickAccumulator { pending_scores: Vec::new(), errors: ErrorCounts::new() }
    }

    /// Record a scored batch: each success joins the pending scores with
    /// `model_version`, in order; each failure bumps its reason's count.
    pub fn record_outcomes(&mut self, outcomes: ScoreOutcomes<S, ScoringFailure>, model_version: &String)
        requires
            count_of(old(self).errors@, ScoringFailure::FallbackAfterRetries.spec_label()) + outcomes.failures@.len()
                <= u64::MAX,
        ensures
            final(self).pending_scores@.len() == old(self).pending_scores@.len() + outcomes.successes@.len(),
            forall|j: int|
                0 <= j < old(self).pending_scores@.len() ==> #[trigger] final(self).pending_scores@[j]
                    == old(self).pending_scores@[j],
            forall|j: int|
                0 <= j < outcomes.successes@.len() ==> {
                    let p = #[trigger] final(self).pending_scores@[old(self).pending_scores@.len() + j];
                    &&& p.0@ == outcomes.successes@[j].0@
                    &&& p.1 == outcomes.successes@[j].1
                    &&& p.2@ == model_version@
                },
            final(self).errors@ == counted(old(self).errors@, outcomes.failures@),
    {
        let ScoreOutcomes { successes, failures } = outcomes;
        let ghost succ = successes@;
        let ghost fail = failures@;
        let ghost start_pending = self.pending_scores@;
        let ghost start_errors = self.errors@;
        let mut rest = successes;
        let n = rest.len();
        let mut i: usize = 0;
        while i < n
            invariant
                n == succ.len(),
                i <= n,
                rest@ == succ.subrange(i as int, n as int),
                self.pending_scores@.len() == start_pending.len() + i,
                forall|j: int| 0 <= j < start_pending.len() ==> #[trigger] self.pending_scores@[j] == start_pending[j],
                forall|j: int|
                    0 <= j < i ==> {
                        let p = #[trigger] self.pending_scores@[start_pending.len() + j];
                        &&& p.0@ == succ[j].0@
                        &&& p.1 == succ[j].1
                        &&& p.2@ == model_version@
                    },
                self.errors@ == start_errors,
            decreases n - i,
        {
            let (id, score) = rest.remove(0);
            assert(rest@ =~= succ.subrange(i + 1, n as int));
            let version = crate::text::string_of(model_version.as_str());
            self.pending_scores.push((id, score, version));
            i = i + 1;
        }
        let ghost pend = self.pending_scores@;
        let label = ScoringFailure::FallbackAfterRetries.as_label();
        let m = failures.len();
        let mut k: usize = 0;
        proof {
            assert(fail.take(0) =~= Seq::<(String, ScoringFailure)>::empty());
        }
        while k < m
            invariant
                m == fail.len(),
                fail == failures@,
                k <= m,
                label@ == ScoringFailure::FallbackAfterRetries.spec_label(),
                count_of(start_errors, label@) + m <= u64::MAX,
                self.errors@ == counted(start_errors, fail.take(k as int)),
                count_of(self.errors@, label@) == count_of(start_errors, label@) + k,
                self.pending_scores@ == pend,
            decreases m - k,
        {
            proof {
                assert(fail.take(k + 1).drop_last() =~= fail.take(k as int));
                assert(fail[k as int].1.spec_label() == label@);
            }
            let reason = failures[k].1.as_label();
            self.errors.add(reason, 1);
            k = k + 1;
        }
        proof {
            assert(fail.take(m as int) =~= fail);
        }
    }

    /// Add this tick's failure counts onto `totals`, reason by reason.
    pub fn merge_errors_into(&self, totals: &mut ErrorCounts)
        requires
            merge_fits(old(totals)@, self.errors@),
        ensures
            final(totals)@ == merged(old(totals)@, self.errors@),
    {
        self.errors.merge_into(totals);
    }

    /// How many of `unscored_count` images did not get a score this tick.
    pub fn remaining(&self, unscored_count: u64) -> (r: u64)
        requires
            self.pending_scores@.len() <= unscored_count,
        ensures
            r == unscored_count - self.pending_scores@.len(),
    {
        unscored_count - self.pending_scores.len() as u64
    }
}

/// Totals accumulated across all ticks.
pub struct RunningTotals {
    pub unscored: u64,
    pub scored: u64,
    pub errors: ErrorCounts,
}

impl RunningTotals {
    pub fn new() -> (t: RunningTotals)
        ensures
            t.unscored == 0,
            t.scored == 0,
            t.errors@ == Map::<Seq<char>, u64>::empty(),
    {
        RunningTotals { unscored: 0, scored: 0, errors: ErrorCounts::new() }
    }

    /// Fold one tick into the totals: its unscored count, its successful
    /// scores, and its failure counts reason by reason.
    pub fn absorb_tick<S>(&mut self, unscored_count: u64, acc: &TickAccumulator<S>)
        requires
            old(self).unscored + unscored_count <= u64::MAX,
            old(self).scored + acc.pending_scores@.len() <= u64::MAX,
            merge_fits(old(self).errors@, acc.errors@),
        ensures
            final(self).unscored == old(self).unscored + unscored_count,
            final(self).scored == old(self).scored + acc.pending_scores@.len(),
            final(self).errors@ == merged(old(self).errors@, acc.errors@),
    {
        self.unscored = self.unscored + unscored_count;
        self.scored = self.scored + acc.pending_scores.len() as u64;
        acc.merge_errors_into(&mut self.errors);
    }
}

impl Default for RunningTotals {
    fn default() -> (t: RunningTotals)
        ensures
            t.unscored == 0,
            t.scored == 0,
            t.errors@ == Map::<Seq<char>, u64>::empty(),
    {
        RunningTotals::new()
    }
}

impl<S> Default for TickAccumulator<S> {
    fn default() -> (a: TickAccumulator<S>)
        ensures
            a.pending_scores@ == Seq::<(String, S, String)>::empty(),
            a.errors@ == Map::<Seq<char>, u64>::empty(),
    {
        TickAccumulator::new()
    }
}

} // verus!
