//! The refinement loop's telemetry at the end of each tick: every counter
//! receives the growth of its cumulative total since the last emission.

use vstd::prelude::*;

use crate::keyed::{entries_map, lemma_entries_map, unique_keys};
use crate::metrics::{growth, high_water, CumulativeCounter};
use crate::refine::tick::{count_of, ErrorCounts};

verus! {

/// What to add to each counter for one tick.
pub struct RefineEmission {
    pub unscored: u64,
    pub scored: u64,
    /// Per-reason increments, each reason once; reasons that did not grow
    /// are left out.
    pub errors: Vec<(String, u64)>,
}

/// The per-reason increments: each reason whose total grew past what was
/// already emitted, with that growth.
pub open spec fn error_growth(prev: Map<Seq<char>, u64>, totals: Map<Seq<char>, u64>) -> Map<Seq<char>, u64> {
    Map::new(
        |k: Seq<char>| totals.dom().contains(k) && totals[k] > count_of(prev, k),
        |k: Seq<char>| (totals[k] - count_of(prev, k)) as u64,
    )
}

/// The per-reason totals emitted after one more tick: a reason that grew
/// now stands at its new total; the others keep what they had.
pub open spec fn error_high_water(prev: Map<Seq<char>, u64>, totals: Map<Seq<char>, u64>) -> Map<Seq<char>, u64> {
    Map::new(
        |k: Seq<char>| prev.dom().contains(k) || (totals.dom().contains(k) && totals[k] > count_of(prev, k)),
        |k: Seq<char>| if totals.dom().contains(k) && totals[k] > count_of(prev, k) { totals[k] } else { prev[k] },
    )
}

/// Tracks the cumulative totals already emitted by the refinement loop.
pub struct LiveRefineMetrics {
    unscored: CumulativeCounter,
    scored: CumulativeCounter,
    errors: ErrorCounts,
}

impl LiveRefineMetrics {
    /// Totals already emitted: unscored, scored, and per reason.
    pub closed spec fn spec_emitted(&self) -> (u64, u64, Map<Seq<char>, u64>) {
        (self.unscored.spec_prev(), self.scored.spec_prev(), self.errors@)
    }

    pub fn new() -> (m: LiveRefineMetrics)
        ensures
            m.spec_emitted() == (0u64, 0u64, Map::<Seq<char>, u64>::empty()),
    {
        LiveRefineMetrics { unscored: CumulativeCounter::new(), scored: CumulativeCounter::new(), errors: ErrorCounts::new() }
    }

    /// The increments for one tick, given the cumulative totals so far.
    pub fn emit(&mut self, unscored_total: u64, scored_total: u64, error_totals: &ErrorCounts) -> (e: RefineEmission)
        ensures
            e.unscored == growth(old(self).spec_emitted().0, unscored_total),
            e.scored == growth(old(self).spec_emitted().1, scored_total),
            unique_keys(e.errors@),
            entries_map(e.errors@) == error_growth(old(self).spec_emitted().2, error_totals@),
            final(self).spec_emitted() == (
                high_water(old(self).spec_emitted().0, unscored_total),
                high_water(old(self).spec_emitted().1, scored_total),
                error_high_water(old(self).spec_emitted().2, error_totals@),
            ),
    {
        let unscored = self.unscored.advance(unscored_total);
        let scored = self.scored.advance(scored_total);
        let totals = error_totals.entries();
        let ghost t = totals@;
        let ghost prev0 = self.errors@;
        let ghost unscored_after = self.unscored;
        let ghost scored_after = self.scored;
        proof {
            lemma_entries_map(t);
        }
        let mut errors: Vec<(String, u64)> = Vec::new();
        let n = totals.len();
        let mut i: usize = 0;
        proof {
            assert(t.take(0) =~= Seq::<(String, u64)>::empty());
            assert(error_growth(prev0, entries_map(t.take(0))) =~= entries_map(errors@));
            assert(error_high_water(prev0, entries_map(t.take(0))) =~= prev0);
        }
        while i < n
            invariant
                n == t.len(),
                t == totals@,
                i <= n,
                self.unscored == unscored_after,
                self.scored == scored_after,
                unique_keys(t),
                unique_keys(errors@),
                forall|j: int| 0 <= j < n ==> #[trigger] entries_map(t)[t[j].0@] == t[j].1,
                entries_map(errors@) == error_growth(prev0, entries_map(t.take(i as int))),
                self.errors@ == error_high_water(prev0, entries_map(t.take(i as int))),
                forall|j: int| 0 <= j < errors@.len() ==> exists|q: int| 0 <= q < i && #[trigger] errors@[j].0@ == t[q].0@,
            decreases n - i,
        {
            let ghost prefix = t.take(i as int);
            let ghost k = t[i as int].0@;
            let ghost v = t[i as int].1;
            proof {
                assert(t.take(i + 1).drop_last() =~= prefix);
                assert(unique_keys(prefix));
                lemma_entries_map(prefix);
                if entries_map(prefix).dom().contains(k) {
                    let j = choose|j: int| 0 <= j < prefix.len() && prefix[j].0@ == k;
                    assert(t[j].0@ == t[i as int].0@);
                }
                assert(count_of(self.errors@, k) == count_of(prev0, k));
            }
            let reason = totals[i].0.as_str();
            let count = totals[i].1;
            let prev = match self.errors.get(reason) {
                Some(p) => p,
                None => 0,
            };
            let delta = count.saturating_sub(prev);
            if delta > 0 {
                let ghost before = errors@;
                errors.push((crate::text::string_of(reason), delta));
                self.errors.set(reason, count);
                proof {
                    assert(errors@.drop_last() =~= before);
                    assert forall|a: int, c: int| 0 <= a < c < errors@.len() implies #[trigger] errors@[a].0@
                        != #[trigger] errors@[c].0@ by {
                        if c == errors@.len() - 1 {
                            assert(errors@[a] == before[a]);
                            let q = choose|q: int| 0 <= q < i && before[a].0@ == t[q].0@;
                            assert(t[q].0@ != t[i as int].0@);
                        } else {
                            assert(errors@[a] == before[a]);
                            assert(errors@[c] == before[c]);
                        }
                    }
                    assert forall|j: int| 0 <= j < errors@.len() implies exists|q: int| 0 <= q < i + 1
                        && #[trigger] errors@[j].0@ == t[q].0@ by {
                        if j < before.len() {
                            assert(errors@[j] == before[j]);
                            let q = choose|q: int| 0 <= q < i && before[j].0@ == t[q].0@;
                            assert(errors@[j].0@ == t[q].0@);
                        } else {
                            assert(errors@[j].0@ == t[i as int].0@);
                        }
                    }
                    assert(entries_map(errors@) =~= error_growth(prev0, entries_map(t.take(i + 1))));
                    assert(self.errors@ =~= error_high_water(prev0, entries_map(t.take(i + 1))));
                }
            } else {
                proof {
                    assert(entries_map(errors@) =~= error_growth(prev0, entries_map(t.take(i + 1))));
                    assert(self.errors@ =~= error_high_water(prev0, entries_map(t.take(i + 1))));
                    assert forall|j: int| 0 <= j < errors@.len() implies exists|q: int| 0 <= q < i + 1
                        && #[trigger] errors@[j].0@ == t[q].0@ by {
                        let q = choose|q: int| 0 <= q < i && errors@[j].0@ == t[q].0@;
                        assert(errors@[j].0@ == t[q].0@);
                    }
                }
            }
            i = i + 1;
        }
        proof {
            assert(t.take(n as int) =~= t);
        }
        RefineEmission { unscored, scored, errors }
    }
}

} // verus!

verus! {

/// Per reason, what was emitted before plus this tick's increment is what
/// stands emitted after it, and that never falls below the reason's current
/// total: no failure is lost or counted twice.
pub proof fn lemma_error_emission_accounts(prev: Map<Seq<char>, u64>, totals: Map<Seq<char>, u64>, k: Seq<char>)
    ensures
        count_of(prev, k) + count_of(error_growth(prev, totals), k) == count_of(error_high_water(prev, totals), k),
        count_of(totals, k) <= count_of(error_high_water(prev, totals), k),
        count_of(prev, k) <= count_of(error_high_water(prev, totals), k),
{
}

} // verus!
