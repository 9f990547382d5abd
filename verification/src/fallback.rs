//! Degrading to older data: which published lists to try, in what order, when
//! the preferred list is empty or missing.

use vstd::prelude::*;

use crate::limit::{Limit, MAX_WINDOW_SECS};
use crate::order::Order;

verus! {

/// A published-list spec: its order and its window.
pub type Spec = (Order, Limit);

/// Whether `x` may stand in for `preferred`: same order, and a window at least
/// as wide (never fresher data than asked for).
pub open spec fn may_replace(preferred: Spec, x: Spec) -> bool {
    x.0 == preferred.0 && x.1.window_secs() >= preferred.1.window_secs()
}

/// The specs among `available` that may stand in for `preferred`, other than
/// `preferred` itself, in input order.
pub open spec fn candidates(available: Seq<Spec>, preferred: Spec) -> Seq<Spec>
    decreases available.len(),
{
    if available.len() == 0 {
        Seq::empty()
    } else if may_replace(preferred, available.last()) && available.last() != preferred {
        candidates(available.drop_last(), preferred).push(available.last())
    } else {
        candidates(available.drop_last(), preferred)
    }
}

/// Insert `x` into `s` after every element whose window is not wider than
/// `x`'s (the step of a stable insertion sort by window).
pub open spec fn insert_by_window(s: Seq<Spec>, x: Spec) -> Seq<Spec>
    decreases s.len(),
{
    if s.len() == 0 {
        seq![x]
    } else if s.last().1.window_secs() <= x.1.window_secs() {
        s.push(x)
    } else {
        insert_by_window(s.drop_last(), x).push(s.last())
    }
}

/// `s` stably sorted by ascending window.
pub open spec fn sort_by_window(s: Seq<Spec>) -> Seq<Spec>
    decreases s.len(),
{
    if s.len() == 0 {
        Seq::empty()
    } else {
        insert_by_window(sort_by_window(s.drop_last()), s.last())
    }
}

/// `s` with each run of consecutive equal elements collapsed to one.
pub open spec fn dedup_adjacent(s: Seq<Spec>) -> Seq<Spec>
    decreases s.len(),
{
    if s.len() == 0 {
        Seq::empty()
    } else {
        let d = dedup_adjacent(s.drop_last());
        if d.len() > 0 && d.last() == s.last() {
            d
        } else {
            d.push(s.last())
        }
    }
}

/// Windows ascend (not strictly) along `s`.
pub open spec fn window_sorted(s: Seq<Spec>) -> bool {
    forall|i: int, j: int| 0 <= i <= j < s.len() ==> #[trigger] s[i].1.window_secs() <= #[trigger] s[j].1.window_secs()
}

/// The fallback chain: the preferred spec first when it is available, then
/// the other candidates, stably sorted by window, with consecutive duplicates
/// removed.
pub open spec fn spec_fallback_chain(available: Seq<Spec>, preferred: Spec) -> Seq<Spec> {
    let rest = dedup_adjacent(sort_by_window(candidates(available, preferred)));
    if available.contains(preferred) {
        seq![preferred] + rest
    } else {
        rest
    }
}

/// The window sizes `fallback_chain` will compare all fit a `chrono::TimeDelta`.
pub open spec fn windows_fit(available: Seq<Spec>, preferred: Spec) -> bool {
    forall|i: int| 0 <= i < available.len() && #[trigger] available[i].0 == preferred.0
        ==> available[i].1.window_secs() <= MAX_WINDOW_SECS
            && preferred.1.window_secs() <= MAX_WINDOW_SECS
}

proof fn lemma_contains_split(s: Seq<Spec>)
    requires
        s.len() > 0,
    ensures
        forall|y: Spec| #[trigger] s.contains(y) <==> (s.drop_last().contains(y) || y == s.last()),
{
    broadcast use vstd::seq_lib::lemma_seq_contains_after_push;
    assert(s =~= s.drop_last().push(s.last()));
}

proof fn lemma_candidates(available: Seq<Spec>, preferred: Spec)
    ensures
        forall|x: Spec| #[trigger] candidates(available, preferred).contains(x) <==> (available.contains(x)
            && may_replace(preferred, x) && x != preferred),
    decreases available.len(),
{
    broadcast use vstd::seq_lib::lemma_seq_contains_after_push;
    if available.len() > 0 {
        let p = available.drop_last();
        let c = candidates(available, preferred);
        lemma_candidates(p, preferred);
        lemma_contains_split(available);
        assert forall|x: Spec| #[trigger] c.contains(x) <==> (available.contains(x) && may_replace(
            preferred,
            x,
        ) && x != preferred) by {
            if may_replace(preferred, available.last()) && available.last() != preferred {
                assert(c == candidates(p, preferred).push(available.last()));
            } else {
                assert(c == candidates(p, preferred));
            }
        }
    }
}

proof fn lemma_insert_by_window(s: Seq<Spec>, x: Spec)
    requires
        window_sorted(s),
    ensures
        window_sorted(insert_by_window(s, x)),
        insert_by_window(s, x).len() == s.len() + 1,
        forall|y: Spec| #[trigger] insert_by_window(s, x).contains(y) <==> (s.contains(y) || y == x),
    decreases s.len(),
{
    broadcast use vstd::seq_lib::lemma_seq_contains_after_push;
    let r = insert_by_window(s, x);
    if s.len() == 0 {
        assert(r =~= Seq::<Spec>::empty().push(x));
    } else if s.last().1.window_secs() <= x.1.window_secs() {
        assert forall|i: int, j: int| 0 <= i <= j < r.len() implies #[trigger] r[i].1.window_secs()
            <= #[trigger] r[j].1.window_secs() by {
            if j == r.len() - 1 && i < j {
                assert(s[i].1.window_secs() <= s[s.len() - 1].1.window_secs());
            }
        }
    } else {
        let p = s.drop_last();
        assert(window_sorted(p));
        lemma_insert_by_window(p, x);
        lemma_contains_split(s);
        let q = insert_by_window(p, x);
        assert forall|i: int, j: int| 0 <= i <= j < r.len() implies #[trigger] r[i].1.window_secs()
            <= #[trigger] r[j].1.window_secs() by {
            if j == r.len() - 1 && i < j {
                let qi = q[i];
                assert(r[i] == qi);
                assert(q.contains(qi));
                if qi != x {
                    assert(p.contains(qi));
                    let k = choose|k: int| 0 <= k < p.len() && p[k] == qi;
                    assert(s[k] == qi);
                    assert(s[k].1.window_secs() <= s[s.len() - 1].1.window_secs());
                }
            }
        }
    }
}

proof fn lemma_sort_by_window(s: Seq<Spec>)
    ensures
        window_sorted(sort_by_window(s)),
        sort_by_window(s).len() == s.len(),
        forall|y: Spec| #[trigger] sort_by_window(s).contains(y) <==> s.contains(y),
    decreases s.len(),
{
    if s.len() > 0 {
        let p = s.drop_last();
        lemma_sort_by_window(p);
        lemma_insert_by_window(sort_by_window(p), s.last());
        lemma_contains_split(s);
    }
}

proof fn lemma_dedup_adjacent(s: Seq<Spec>)
    requires
        window_sorted(s),
    ensures
        window_sorted(dedup_adjacent(s)),
        forall|y: Spec| #[trigger] dedup_adjacent(s).contains(y) <==> s.contains(y),
        forall|i: int| 0 <= i < dedup_adjacent(s).len() - 1 ==> #[trigger] dedup_adjacent(s)[i]
            != dedup_adjacent(s)[i + 1],
        dedup_adjacent(s).len() <= s.len(),
        dedup_adjacent(s).len() == 0 <==> s.len() == 0,
    decreases s.len(),
{
    broadcast use vstd::seq_lib::lemma_seq_contains_after_push;
    if s.len() > 0 {
        let p = s.drop_last();
        assert(window_sorted(p));
        lemma_dedup_adjacent(p);
        lemma_contains_split(s);
        let d = dedup_adjacent(p);
        let r = dedup_adjacent(s);
        if d.len() > 0 && d.last() == s.last() {
            assert forall|y: Spec| #[trigger] r.contains(y) <==> s.contains(y) by {
                if y == s.last() {
                    assert(d[d.len() - 1] == y);
                }
            }
        } else {
            assert forall|i: int, j: int| 0 <= i <= j < r.len() implies #[trigger] r[i].1.window_secs()
                <= #[trigger] r[j].1.window_secs() by {
                if j == r.len() - 1 && i < j {
                    let di = d[i];
                    assert(r[i] == di);
                    assert(d.contains(di));
                    assert(p.contains(di));
                    let k = choose|k: int| 0 <= k < p.len() && p[k] == di;
                    assert(s[k] == di);
                    assert(s[k].1.window_secs() <= s[s.len() - 1].1.window_secs());
                }
            }
            assert forall|i: int| 0 <= i < r.len() - 1 implies #[trigger] r[i] != r[i + 1] by {
                if i == r.len() - 2 {
                    assert(r[i] == d.last());
                }
            }
        }
    }
}

/// The properties that make the chain a valid "degrade to older data"
/// sequence: every entry has the preferred order, a window at least as wide
/// as the preferred's, and comes from `available`; the preferred spec comes
/// first whenever it is available; windows never narrow along the chain; no
/// entry repeats its predecessor; every same-order, wide-enough available list
/// is in the chain; and the chain is empty only when no available list
/// qualifies.
pub proof fn lemma_fallback_chain_laws(available: Seq<Spec>, preferred: Spec)
    ensures
        forall|x: Spec| #[trigger] spec_fallback_chain(available, preferred).contains(x) ==> x.0
            == preferred.0 && x.1.window_secs() >= preferred.1.window_secs() && available.contains(
            x,
        ),
        available.contains(preferred) ==> spec_fallback_chain(available, preferred).len() > 0
            && spec_fallback_chain(available, preferred)[0] == preferred,
        forall|x: Spec| available.contains(x) && may_replace(preferred, x) ==> #[trigger] spec_fallback_chain(
            available,
            preferred,
        ).contains(x),
        window_sorted(spec_fallback_chain(available, preferred)),
        forall|i: int| 0 <= i < spec_fallback_chain(available, preferred).len() - 1
            ==> #[trigger] spec_fallback_chain(available, preferred)[i] != spec_fallback_chain(
            available,
            preferred,
        )[i + 1],
        spec_fallback_chain(available, preferred).len() == 0 <==> !(exists|x: Spec|
            #[trigger] available.contains(x) && may_replace(preferred, x)),
{
    let c = candidates(available, preferred);
    lemma_candidates(available, preferred);
    lemma_sort_by_window(c);
    lemma_dedup_adjacent(sort_by_window(c));
    let rest = dedup_adjacent(sort_by_window(c));
    let r = spec_fallback_chain(available, preferred);
    if available.contains(preferred) {
        let h: Seq<Spec> = seq![preferred];
        assert(r == h + rest);
        assert(r[0] == preferred);
        assert forall|k: int| 0 <= k < rest.len() implies r[k + 1] == #[trigger] rest[k] by {}
        assert forall|x: Spec| #[trigger] r.contains(x) <==> (x == preferred || rest.contains(x)) by {
            if r.contains(x) && x != preferred {
                let k = choose|k: int| 0 <= k < r.len() && r[k] == x;
                assert(rest[k - 1] == x);
            }
            if rest.contains(x) {
                let k = choose|k: int| 0 <= k < rest.len() && rest[k] == x;
                assert(r[k + 1] == x);
            }
        }
        assert forall|x: Spec| available.contains(x) && may_replace(preferred, x) implies #[trigger] r.contains(x) by {
            if x != preferred {
                assert(c.contains(x));
                assert(rest.contains(x));
            }
        }
        assert forall|i: int, j: int| 0 <= i <= j < r.len() implies #[trigger] r[i].1.window_secs()
            <= #[trigger] r[j].1.window_secs() by {
            if i == 0 {
                if j > 0 {
                    assert(rest.contains(rest[j - 1]));
                }
            } else {
                assert(rest[i - 1].1.window_secs() <= rest[j - 1].1.window_secs());
            }
        }
        assert forall|i: int| 0 <= i < r.len() - 1 implies #[trigger] r[i] != r[i + 1] by {
            if i == 0 {
                assert(rest.contains(rest[0]));
            } else {
                assert(rest[i - 1] != rest[i]);
            }
        }
        assert(r.contains(preferred));
    } else {
        assert(r == rest);
        if r.len() == 0 {
            assert(c.len() == 0);
            assert forall|x: Spec| !(available.contains(x) && may_replace(preferred, x)) by {
                if available.contains(x) && may_replace(preferred, x) {
                    assert(c.contains(x));
                }
            }
        } else {
            assert(r.contains(r[0]));
            assert(available.contains(r[0]) && may_replace(preferred, r[0]));
        }
    }
}

proof fn lemma_insert_at(s: Seq<Spec>, x: Spec, k: int)
    requires
        0 <= k <= s.len(),
        forall|i: int| 0 <= i < k ==> #[trigger] s[i].1.window_secs() <= x.1.window_secs(),
        forall|i: int| k <= i < s.len() ==> #[trigger] s[i].1.window_secs() > x.1.window_secs(),
    ensures
        insert_by_window(s, x) == s.insert(k, x),
    decreases s.len(),
{
    if s.len() == 0 {
        assert(s.insert(k, x) =~= seq![x]);
    } else if s.last().1.window_secs() <= x.1.window_secs() {
        assert(k == s.len());
        assert(s.insert(k, x) =~= s.push(x));
    } else {
        let p = s.drop_last();
        lemma_insert_at(p, x, k);
        assert(s.insert(k, x) =~= p.insert(k, x).push(s.last()));
    }
}

/// Build the fallback chain for `preferred` out of the `available` specs.
///
/// Keeps every available spec with the same [`Order`] as `preferred` and a
/// window at least as wide as the preferred's, sorted by ascending window,
/// with duplicates of a spec next to each other removed. The result is the
/// order in which lists should be tried: the preferred list first if it is
/// available (ahead of any other list with an equal window), otherwise the
/// next-oldest, widening to the oldest.
pub fn fallback_chain(available: &[Spec], preferred: Spec) -> (chain: Vec<Spec>)
    requires
        windows_fit(available@, preferred),
    ensures
        chain@ == spec_fallback_chain(available@, preferred),
        available@.contains(preferred) ==> chain@.len() > 0 && chain@[0] == preferred,
{
    // Keep the same-order, wide-enough specs other than the preferred one,
    // and note whether the preferred one is available.
    let mut kept: Vec<Spec> = Vec::new();
    let mut seen = false;
    let n = available.len();
    let mut i: usize = 0;
    while i < n
        invariant
            n == available@.len(),
            i <= n,
            windows_fit(available@, preferred),
            kept@ == candidates(available@.subrange(0, i as int), preferred),
            seen == available@.subrange(0, i as int).contains(preferred),
            forall|k: int| 0 <= k < kept.len() ==> #[trigger] kept@[k].1.window_secs() <= MAX_WINDOW_SECS,
        decreases n - i,
    {
        let x = available[i];
        let ghost prefix = available@.subrange(0, i as int);
        assert(available@.subrange(0, i + 1).drop_last() =~= prefix);
        proof {
            lemma_contains_split(available@.subrange(0, i + 1));
        }
        if x.0 == preferred.0 && x.1 == preferred.1 {
            seen = true;
        } else if x.0 == preferred.0 {
            assert(available@[i as int].0 == preferred.0);
            let xw = x.1.window_seconds();
            let pw = preferred.1.window_seconds();
            if xw >= pw {
                kept.push(x);
            }
        }
        i = i + 1;
    }
    assert(available@.subrange(0, n as int) =~= available@);

    // Stable insertion sort by window.
    let mut sorted: Vec<Spec> = Vec::new();
    let m = kept.len();
    let mut j: usize = 0;
    while j < m
        invariant
            m == kept.len(),
            j <= m,
            forall|k: int| 0 <= k < kept.len() ==> #[trigger] kept@[k].1.window_secs() <= MAX_WINDOW_SECS,
            sorted@ == sort_by_window(kept@.subrange(0, j as int)),
            window_sorted(sorted@),
            forall|k: int| 0 <= k < sorted.len() ==> #[trigger] sorted@[k].1.window_secs() <= MAX_WINDOW_SECS,
        decreases m - j,
    {
        let x = kept[j];
        let xw = x.1.window_seconds();
        let mut pos: usize = sorted.len();
        while pos > 0 && sorted[pos - 1].1.window_seconds() > xw
            invariant
                pos <= sorted.len(),
                xw == x.1.window_secs(),
                window_sorted(sorted@),
                forall|k: int| 0 <= k < sorted.len() ==> #[trigger] sorted@[k].1.window_secs() <= MAX_WINDOW_SECS,
                forall|k: int| pos <= k < sorted.len() ==> #[trigger] sorted@[k].1.window_secs() > xw,
            decreases pos,
        {
            pos = pos - 1;
        }
        proof {
            assert forall|k: int| 0 <= k < pos implies #[trigger] sorted@[k].1.window_secs() <= xw by {
                assert(sorted@[k].1.window_secs() <= sorted@[pos - 1].1.window_secs());
            }
            lemma_insert_at(sorted@, x, pos as int);
            lemma_insert_by_window(sorted@, x);
            assert(kept@.subrange(0, j + 1).drop_last() =~= kept@.subrange(0, j as int));
        }
        let ghost before = sorted@;
        sorted.insert(pos, x);
        proof {
            assert forall|k: int| 0 <= k < sorted.len() implies #[trigger] sorted@[k].1.window_secs() <= MAX_WINDOW_SECS by {
                if k < pos {
                    assert(sorted@[k] == before[k]);
                } else if k > pos {
                    assert(sorted@[k] == before[k - 1]);
                }
            }
        }
        j = j + 1;
    }
    assert(kept@.subrange(0, m as int) =~= kept@);

    // Drop consecutive duplicates.
    let mut chain: Vec<Spec> = Vec::new();
    let s = sorted.len();
    let mut t: usize = 0;
    while t < s
        invariant
            s == sorted.len(),
            t <= s,
            chain@ == dedup_adjacent(sorted@.subrange(0, t as int)),
        decreases s - t,
    {
        let x = sorted[t];
        assert(sorted@.subrange(0, t + 1).drop_last() =~= sorted@.subrange(0, t as int));
        let len = chain.len();
        if len > 0 && chain[len - 1].0 == x.0 && chain[len - 1].1 == x.1 {
            assert(chain@.last() == x);
        } else {
            chain.push(x);
        }
        t = t + 1;
    }
    assert(sorted@.subrange(0, s as int) =~= sorted@);
    if seen {
        let ghost rest = chain@;
        chain.insert(0, preferred);
        assert(chain@ =~= seq![preferred] + rest);
    }
    chain
}

} // verus!

verus! {

/// The scan over a fallback chain: the first non-empty list read settles it;
/// while every list read so far is empty, the last one is kept, so the surface
/// still renders when all are empty.
pub struct FallbackScan<T> {
    last: Option<T>,
}

impl<T> FallbackScan<T> {
    /// The last (empty) reading offered so far.
    pub closed spec fn spec_last(&self) -> Option<T> {
        self.last
    }

    pub fn new() -> (scan: FallbackScan<T>)
        ensures
            scan.spec_last() is None,
    {
        FallbackScan { last: None }
    }

    /// Offer the next list read along the chain. A non-empty reading settles
    /// the scan and is handed back; an empty one is kept as the fallback.
    pub fn offer(&mut self, reading: T, is_empty: bool) -> (settled: Option<T>)
        ensures
            !is_empty ==> settled == Some(reading) && final(self).spec_last() == old(self).spec_last(),
            is_empty ==> settled is None && final(self).spec_last() == Some(reading),
    {
        if is_empty {
            self.last = Some(reading);
            None
        } else {
            Some(reading)
        }
    }

    /// The result once the chain is exhausted without a non-empty list: the
    /// last reading, or `None` when the chain was empty.
    pub fn finish(self) -> (r: Option<T>)
        ensures
            r == self.spec_last(),
    {
        self.last
    }
}

} // verus!
