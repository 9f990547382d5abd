//! The order a published list presents its entries in, and its window.
//!
//! Each entry is ranked by integers: when it was posted, its effective band
//! and normalised score where it has them, and its place in the (image id,
//! skeet id) order, which breaks every other tie so equal ranks are
//! deterministic.

use vstd::multiset::Multiset;
use vstd::prelude::*;

use crate::order::Order;

verus! {

/// What an entry is ranked by.
#[derive(Debug, Clone, Copy, PartialEq, Eq, Structural)]
pub struct RankKey {
    /// When the skeet was posted, microseconds since the epoch.
    pub original_at: i64,
    /// The effective band's rank (higher is better), if the entry has one.
    pub band: Option<u64>,
    /// The normalised score's rank (higher is better), if it has one.
    pub score: Option<u64>,
    /// The entry's place in (image id, skeet id) order.
    pub tie: u64,
}

/// `x` ranks above `y`: a present value above an absent one, a larger above
/// a smaller.
pub open spec fn opt_above(x: Option<u64>, y: Option<u64>) -> bool {
    match (x, y) {
        (Some(p), Some(q)) => p > q,
        (Some(_), None) => true,
        _ => false,
    }
}

/// `a` comes strictly before `b` in `order`: by recency, newer first; by
/// quality, higher band, then higher score first; by quality then recency,
/// higher band, then newer first; then the tie order.
pub open spec fn rank_before(order: Order, a: RankKey, b: RankKey) -> bool {
    match order {
        Order::Recency => a.original_at > b.original_at || (a.original_at == b.original_at && a.tie < b.tie),
        Order::Quality => opt_above(a.band, b.band) || (a.band == b.band && (opt_above(a.score, b.score) || (a.score
            == b.score && a.tie < b.tie))),
        Order::QualityRecency => opt_above(a.band, b.band) || (a.band == b.band && (a.original_at > b.original_at || (
        a.original_at == b.original_at && a.tie < b.tie))),
    }
}

/// `a` and `b` rank equal in `order`.
pub open spec fn rank_equal(order: Order, a: RankKey, b: RankKey) -> bool {
    !rank_before(order, a, b) && !rank_before(order, b, a)
}

fn opt_above_exec(x: Option<u64>, y: Option<u64>) -> (r: bool)
    ensures
        r == opt_above(x, y),
{
    match (x, y) {
        (Some(p), Some(q)) => p > q,
        (Some(_), None) => true,
        _ => false,
    }
}

fn opt_eq(x: Option<u64>, y: Option<u64>) -> (r: bool)
    ensures
        r == (x == y),
{
    match (x, y) {
        (Some(p), Some(q)) => p == q,
        (None, None) => true,
        _ => false,
    }
}

/// Whether `a` comes strictly before `b` in `order`.
pub fn ranks_before(order: Order, a: &RankKey, b: &RankKey) -> (r: bool)
    ensures
        r == rank_before(order, *a, *b),
{
    match order {
        Order::Recency => a.original_at > b.original_at || (a.original_at == b.original_at && a.tie < b.tie),
        Order::Quality => opt_above_exec(a.band, b.band) || (opt_eq(a.band, b.band) && (opt_above_exec(a.score, b.score)
            || (opt_eq(a.score, b.score) && a.tie < b.tie))),
        Order::QualityRecency => opt_above_exec(a.band, b.band) || (opt_eq(a.band, b.band) && (a.original_at
            > b.original_at || (a.original_at == b.original_at && a.tie < b.tie))),
    }
}

proof fn lemma_rank_transitive(order: Order, a: RankKey, b: RankKey, c: RankKey)
    ensures
        !rank_before(order, b, a) && !rank_before(order, c, b) ==> !rank_before(order, c, a),
        rank_before(order, a, b) && rank_before(order, b, c) ==> rank_before(order, a, c),
{
}

/// The entries posted at or after `cutoff`, in input order.
pub open spec fn in_window(entries: Seq<RankKey>, cutoff: i64) -> Seq<RankKey>
    decreases entries.len(),
{
    if entries.len() == 0 {
        Seq::empty()
    } else if entries.last().original_at >= cutoff {
        in_window(entries.drop_last(), cutoff).push(entries.last())
    } else {
        in_window(entries.drop_last(), cutoff)
    }
}

/// The entries to present, in presentation order: the indices of the
/// entries posted at or after `cutoff`, each once (so their keys are those
/// of the window, as often as the window holds them), sorted so no entry
/// comes before one that ranks above it, and entries of equal rank in input
/// order.
pub open spec fn presented(entries: Seq<RankKey>, cutoff: i64, order: Order, out: Seq<usize>) -> bool {
    &&& presented_keys(entries, out).to_multiset() == in_window(entries, cutoff).to_multiset()
    &&& forall|k: int| 0 <= k < out.len() ==> #[trigger] out[k] < entries.len() && entries[out[k] as int].original_at
        >= cutoff
    &&& forall|i: int| 0 <= i < entries.len() && #[trigger] entries[i].original_at >= cutoff ==> out.contains(i as usize)
    &&& forall|a: int, b: int| 0 <= a < b < out.len() ==> #[trigger] out[a] != #[trigger] out[b]
    &&& forall|a: int, b: int|
        0 <= a < b < out.len() ==> !rank_before(order, #[trigger] entries[out[b] as int], #[trigger] entries[out[a] as int])
    &&& forall|a: int, b: int|
        0 <= a < b < out.len() && rank_equal(order, #[trigger] entries[out[a] as int], #[trigger] entries[out[b] as int])
            ==> out[a] < out[b]
}

/// Every entry of `s` is one of the first `j` and in the window.
pub open spec fn prefix_bounded(entries: Seq<RankKey>, cutoff: i64, j: int, s: Seq<usize>) -> bool {
    forall|k: int| 0 <= k < s.len() ==> #[trigger] s[k] < j && entries[s[k] as int].original_at >= cutoff
}

/// Every one of the first `j` entries in the window is in `s`.
pub open spec fn prefix_complete(entries: Seq<RankKey>, cutoff: i64, j: int, s: Seq<usize>) -> bool {
    forall|i: int| 0 <= i < j && #[trigger] entries[i].original_at >= cutoff ==> s.contains(i as usize)
}

/// No index is in `s` twice.
pub open spec fn distinct(s: Seq<usize>) -> bool {
    forall|a: int, b: int| 0 <= a < b < s.len() ==> #[trigger] s[a] != #[trigger] s[b]
}

/// No entry of `s` comes before one that ranks above it.
pub open spec fn rank_sorted(entries: Seq<RankKey>, order: Order, s: Seq<usize>) -> bool {
    forall|a: int, b: int|
        0 <= a < b < s.len() ==> !rank_before(order, #[trigger] entries[s[b] as int], #[trigger] entries[s[a] as int])
}

/// Entries of `s` that rank equal keep their input order.
pub open spec fn rank_stable(entries: Seq<RankKey>, order: Order, s: Seq<usize>) -> bool {
    forall|a: int, b: int|
        0 <= a < b < s.len() && rank_equal(order, #[trigger] entries[s[a] as int], #[trigger] entries[s[b] as int])
            ==> s[a] < s[b]
}

/// `s` presents the first `j` entries: `presented` restricted to them.
pub open spec fn presented_prefix(entries: Seq<RankKey>, cutoff: i64, order: Order, j: int, s: Seq<usize>) -> bool {
    &&& presented_keys(entries, s).to_multiset() == in_window(entries.subrange(0, j), cutoff).to_multiset()
    &&& prefix_bounded(entries, cutoff, j, s)
    &&& prefix_complete(entries, cutoff, j, s)
    &&& distinct(s)
    &&& rank_sorted(entries, order, s)
    &&& rank_stable(entries, order, s)
}

proof fn lemma_insert_index(before: Seq<usize>, pos: int, v: usize)
    requires
        0 <= pos <= before.len(),
    ensures
        before.insert(pos, v).len() == before.len() + 1,
        before.insert(pos, v)[pos] == v,
        forall|k: int| 0 <= k < pos ==> #[trigger] before.insert(pos, v)[k] == before[k],
        forall|k: int| pos < k <= before.len() ==> #[trigger] before.insert(pos, v)[k] == before[k - 1],
{
}

proof fn lemma_insert_bounded(entries: Seq<RankKey>, cutoff: i64, j: int, before: Seq<usize>, pos: int)
    requires
        0 <= j < entries.len(),
        j <= usize::MAX,
        prefix_bounded(entries, cutoff, j, before),
        entries[j].original_at >= cutoff,
        0 <= pos <= before.len(),
    ensures
        prefix_bounded(entries, cutoff, j + 1, before.insert(pos, j as usize)),
        distinct(before) ==> distinct(before.insert(pos, j as usize)),
{
    lemma_insert_index(before, pos, j as usize);
    let s = before.insert(pos, j as usize);
    assert forall|k: int| 0 <= k < s.len() implies #[trigger] s[k] < j + 1 && entries[s[k] as int].original_at >= cutoff by {
        if k < pos {
            assert(s[k] == before[k]);
        } else if k > pos {
            assert(s[k] == before[k - 1]);
        }
    }
    if distinct(before) {
        assert forall|a: int, b: int| 0 <= a < b < s.len() implies #[trigger] s[a] != #[trigger] s[b] by {
            if a == pos {
                assert(s[b] == before[b - 1]);
            } else if b == pos {
                assert(s[a] == before[a]);
            } else {
                let ia = if a < pos { a } else { a - 1 };
                let ib = if b < pos { b } else { b - 1 };
                assert(s[a] == before[ia]);
                assert(s[b] == before[ib]);
            }
        }
    }
}

proof fn lemma_insert_complete(entries: Seq<RankKey>, cutoff: i64, j: int, before: Seq<usize>, pos: int)
    requires
        0 <= j < entries.len(),
        j <= usize::MAX,
        prefix_complete(entries, cutoff, j, before),
        0 <= pos <= before.len(),
    ensures
        prefix_complete(entries, cutoff, j + 1, before.insert(pos, j as usize)),
{
    lemma_insert_index(before, pos, j as usize);
    let s = before.insert(pos, j as usize);
    assert forall|i: int| 0 <= i < j + 1 && #[trigger] entries[i].original_at >= cutoff implies s.contains(i as usize) by {
        if i < j {
            let k = choose|k: int| 0 <= k < before.len() && before[k] == i as usize;
            if k < pos {
                assert(s[k] == i as usize);
            } else {
                assert(s[k + 1] == i as usize);
            }
        } else {
            assert(s[pos] == i as usize);
        }
    }
}

proof fn lemma_insert_sorted(entries: Seq<RankKey>, order: Order, j: int, before: Seq<usize>, pos: int)
    requires
        0 <= j < entries.len(),
        j <= usize::MAX,
        rank_sorted(entries, order, before),
        0 <= pos <= before.len(),
        forall|k: int| 0 <= k < before.len() ==> #[trigger] before[k] < entries.len(),
        pos > 0 ==> !rank_before(order, entries[j], entries[before[pos - 1] as int]),
        forall|k: int| pos <= k < before.len() ==> rank_before(order, entries[j], #[trigger] entries[before[k] as int]),
    ensures
        rank_sorted(entries, order, before.insert(pos, j as usize)),
        forall|a: int| 0 <= a < pos ==> !rank_before(order, entries[j], #[trigger] entries[before[a] as int]),
{
    lemma_insert_index(before, pos, j as usize);
    let x = entries[j];
    let s = before.insert(pos, j as usize);
    assert forall|a: int| 0 <= a < pos implies !rank_before(order, x, #[trigger] entries[before[a] as int]) by {
        if a < pos - 1 {
            lemma_rank_transitive(order, entries[before[a] as int], entries[before[pos - 1] as int], x);
        }
    }
    assert forall|a: int, b: int| 0 <= a < b < s.len() implies !rank_before(
        order,
        #[trigger] entries[s[b] as int],
        #[trigger] entries[s[a] as int],
    ) by {
        if a == pos {
            assert(s[b] == before[b - 1]);
            assert(rank_before(order, x, entries[before[b - 1] as int]));
        } else if b == pos {
            assert(s[a] == before[a]);
        } else {
            let ia = if a < pos { a } else { a - 1 };
            let ib = if b < pos { b } else { b - 1 };
            assert(s[a] == before[ia]);
            assert(s[b] == before[ib]);
        }
    }
}

proof fn lemma_insert_stable(entries: Seq<RankKey>, order: Order, j: int, before: Seq<usize>, pos: int)
    requires
        0 <= j < entries.len(),
        j <= usize::MAX,
        rank_stable(entries, order, before),
        0 <= pos <= before.len(),
        forall|k: int| 0 <= k < before.len() ==> #[trigger] before[k] < j,
        forall|k: int| pos <= k < before.len() ==> rank_before(order, entries[j], #[trigger] entries[before[k] as int]),
    ensures
        rank_stable(entries, order, before.insert(pos, j as usize)),
{
    lemma_insert_index(before, pos, j as usize);
    let x = entries[j];
    let s = before.insert(pos, j as usize);
    assert forall|a: int, b: int|
        0 <= a < b < s.len() && rank_equal(order, #[trigger] entries[s[a] as int], #[trigger] entries[s[b] as int])
            implies s[a] < s[b] by {
        if a == pos {
            assert(s[b] == before[b - 1]);
            assert(rank_before(order, x, entries[before[b - 1] as int]));
        } else if b == pos {
            assert(s[a] == before[a]);
        } else {
            let ia = if a < pos { a } else { a - 1 };
            let ib = if b < pos { b } else { b - 1 };
            assert(s[a] == before[ia]);
            assert(s[b] == before[ib]);
        }
    }
}

proof fn lemma_insert_keys(entries: Seq<RankKey>, cutoff: i64, j: int, before: Seq<usize>, pos: int)
    requires
        0 <= j < entries.len(),
        j <= usize::MAX,
        entries[j].original_at >= cutoff,
        0 <= pos <= before.len(),
        presented_keys(entries, before).to_multiset() == in_window(entries.subrange(0, j), cutoff).to_multiset(),
    ensures
        presented_keys(entries, before.insert(pos, j as usize)).to_multiset() == in_window(entries.subrange(0, j + 1), cutoff).to_multiset(),
{
    broadcast use vstd::seq_lib::group_to_multiset_ensures;
    lemma_insert_index(before, pos, j as usize);
    let k = presented_keys(entries, before);
    assert(presented_keys(entries, before.insert(pos, j as usize)) =~= k.insert(pos, entries[j]));
    assert(entries.subrange(0, j + 1).drop_last() =~= entries.subrange(0, j));
    assert(entries.subrange(0, j + 1).last() == entries[j]);
}

/// Window and order a list's entries: keep those posted at or after
/// `cutoff`, then sort them stably by rank.
pub fn published_order(entries: &Vec<RankKey>, cutoff: i64, order: Order) -> (out: Vec<usize>)
    ensures
        presented(entries@, cutoff, order, out@),
{
    let n = entries.len();
    let mut sorted: Vec<usize> = Vec::new();
    let mut j: usize = 0;
    proof {
        assert(presented_keys(entries@, sorted@) =~= in_window(entries@.subrange(0, 0), cutoff));
    }
    while j < n
        invariant
            n == entries@.len(),
            j <= n,
            presented_prefix(entries@, cutoff, order, j as int, sorted@),
        decreases n - j,
    {
        if entries[j].original_at >= cutoff {
            let x = entries[j];
            let mut pos: usize = sorted.len();
            while pos > 0 && ranks_before(order, &x, &entries[sorted[pos - 1]])
                invariant
                    n == entries@.len(),
                    j < n,
                    x == entries@[j as int],
                    pos <= sorted@.len(),
                    forall|k: int| 0 <= k < sorted@.len() ==> #[trigger] sorted@[k] < j,
                    forall|k: int| pos <= k < sorted@.len() ==> rank_before(order, x, #[trigger] entries@[sorted@[k] as int]),
                decreases pos,
            {
                pos = pos - 1;
            }
            proof {
                let before = sorted@;
                lemma_insert_bounded(entries@, cutoff, j as int, before, pos as int);
                lemma_insert_complete(entries@, cutoff, j as int, before, pos as int);
                lemma_insert_sorted(entries@, order, j as int, before, pos as int);
                lemma_insert_stable(entries@, order, j as int, before, pos as int);
                lemma_insert_keys(entries@, cutoff, j as int, before, pos as int);
            }
            sorted.insert(pos, j);
        } else {
            proof {
                assert(prefix_complete(entries@, cutoff, j + 1, sorted@));
                assert(entries@.subrange(0, j + 1).drop_last() =~= entries@.subrange(0, j as int));
            }
        }
        j = j + 1;
    }
    assert(entries@.subrange(0, n as int) =~= entries@);
    sorted
}

} // verus!

verus! {

/// The keys of the presented entries, in presentation order.
pub open spec fn presented_keys(entries: Seq<RankKey>, out: Seq<usize>) -> Seq<RankKey> {
    out.map_values(|i: usize| entries[i as int])
}

/// The window's keys: those of the entries posted at or after `cutoff`.
pub open spec fn windowed(entries: Seq<RankKey>, cutoff: i64, k: RankKey) -> bool {
    exists|i: int| 0 <= i < entries.len() && entries[i] == k && entries[i].original_at >= cutoff
}

/// No two entries in the window share a tie value.
pub open spec fn ties_distinct(entries: Seq<RankKey>, cutoff: i64) -> bool {
    forall|i: int, j: int|
        0 <= i < entries.len() && 0 <= j < entries.len() && i != j && entries[i].original_at >= cutoff
            && entries[j].original_at >= cutoff ==> #[trigger] entries[i].tie != #[trigger] entries[j].tie
}

/// Each key strictly before every later one.
pub open spec fn strictly_ranked(order: Order, s: Seq<RankKey>) -> bool {
    forall|a: int, b: int| 0 <= a < b < s.len() ==> rank_before(order, #[trigger] s[a], #[trigger] s[b])
}

proof fn lemma_rank_total(order: Order, a: RankKey, b: RankKey)
    requires
        a.tie != b.tie,
    ensures
        rank_before(order, a, b) || rank_before(order, b, a),
{
}

proof fn lemma_rank_irreflexive(order: Order, a: RankKey)
    ensures
        !rank_before(order, a, a),
{
}

/// Two strictly ranked sequences holding the same keys are the same.
proof fn lemma_strictly_ranked_unique(order: Order, s: Seq<RankKey>, t: Seq<RankKey>)
    requires
        strictly_ranked(order, s),
        strictly_ranked(order, t),
        forall|k: RankKey| s.contains(k) <==> t.contains(k),
    ensures
        s == t,
    decreases s.len() + t.len(),
{
    if s.len() == 0 || t.len() == 0 {
        if s.len() > 0 {
            assert(s.contains(s[0]));
        }
        if t.len() > 0 {
            assert(t.contains(t[0]));
        }
        assert(s =~= t);
    } else {
        assert(s.contains(s[0]));
        assert(t.contains(t[0]));
        let j = choose|j: int| 0 <= j < s.len() && s[j] == t[0];
        let k = choose|k: int| 0 <= k < t.len() && t[k] == s[0];
        if s[0] != t[0] {
            assert(j > 0 && k > 0);
            assert(rank_before(order, s[0], s[j]));
            assert(rank_before(order, t[0], t[k]));
            lemma_rank_transitive(order, s[0], t[0], s[0]);
            lemma_rank_irreflexive(order, s[0]);
        }
        let s1 = s.drop_first();
        let t1 = t.drop_first();
        assert forall|x: RankKey| s1.contains(x) <==> t1.contains(x) by {
            if s1.contains(x) {
                let a = choose|a: int| 0 <= a < s1.len() && s1[a] == x;
                assert(s[a + 1] == x);
                assert(rank_before(order, s[0], s[a + 1]));
                lemma_rank_irreflexive(order, x);
                assert(t.contains(x));
                let b = choose|b: int| 0 <= b < t.len() && t[b] == x;
                assert(b != 0);
                assert(t1[b - 1] == x);
            }
            if t1.contains(x) {
                let a = choose|a: int| 0 <= a < t1.len() && t1[a] == x;
                assert(t[a + 1] == x);
                assert(rank_before(order, t[0], t[a + 1]));
                lemma_rank_irreflexive(order, x);
                assert(s.contains(x));
                let b = choose|b: int| 0 <= b < s.len() && s[b] == x;
                assert(b != 0);
                assert(s1[b - 1] == x);
            }
        }
        assert forall|a: int, b: int| 0 <= a < b < s1.len() implies rank_before(order, #[trigger] s1[a], #[trigger] s1[b]) by {
            assert(s1[a] == s[a + 1] && s1[b] == s[b + 1]);
        }
        assert forall|a: int, b: int| 0 <= a < b < t1.len() implies rank_before(order, #[trigger] t1[a], #[trigger] t1[b]) by {
            assert(t1[a] == t[a + 1] && t1[b] == t[b + 1]);
        }
        lemma_strictly_ranked_unique(order, s1, t1);
        assert(s =~= seq![s[0]] + s1);
        assert(t =~= seq![t[0]] + t1);
    }
}

proof fn lemma_presented_strict(entries: Seq<RankKey>, cutoff: i64, order: Order, out: Seq<usize>)
    requires
        entries.len() <= usize::MAX,
        presented(entries, cutoff, order, out),
        ties_distinct(entries, cutoff),
    ensures
        strictly_ranked(order, presented_keys(entries, out)),
        forall|k: RankKey| presented_keys(entries, out).contains(k) <==> windowed(entries, cutoff, k),
{
    let keys = presented_keys(entries, out);
    assert forall|a: int, b: int| 0 <= a < b < keys.len() implies rank_before(order, #[trigger] keys[a], #[trigger] keys[b]) by {
        let ia = out[a] as int;
        let ib = out[b] as int;
        assert(keys[a] == entries[ia] && keys[b] == entries[ib]);
        assert(ia != ib);
        assert(entries[ia].tie != entries[ib].tie);
        lemma_rank_total(order, entries[ia], entries[ib]);
    }
    assert forall|k: RankKey| keys.contains(k) <==> windowed(entries, cutoff, k) by {
        if keys.contains(k) {
            let a = choose|a: int| 0 <= a < keys.len() && keys[a] == k;
            assert(entries[out[a] as int] == k);
        }
        if windowed(entries, cutoff, k) {
            let i = choose|i: int| 0 <= i < entries.len() && entries[i] == k && entries[i].original_at >= cutoff;
            assert(out.contains(i as usize));
            let a = choose|a: int| 0 <= a < out.len() && out[a] == i as usize;
            assert(keys[a] == k);
        }
    }
}

/// The presentation order does not depend on the order the entries came
/// in: two inputs holding the same entries in the window, each with its
/// own tie value, are presented as the same sequence.
pub proof fn lemma_presented_order_is_input_independent(
    e1: Seq<RankKey>,
    e2: Seq<RankKey>,
    cutoff: i64,
    order: Order,
    out1: Seq<usize>,
    out2: Seq<usize>,
)
    requires
        e1.len() <= usize::MAX,
        e2.len() <= usize::MAX,
        presented(e1, cutoff, order, out1),
        presented(e2, cutoff, order, out2),
        ties_distinct(e1, cutoff),
        ties_distinct(e2, cutoff),
        forall|k: RankKey| windowed(e1, cutoff, k) <==> windowed(e2, cutoff, k),
    ensures
        presented_keys(e1, out1) == presented_keys(e2, out2),
{
    lemma_presented_strict(e1, cutoff, order, out1);
    lemma_presented_strict(e2, cutoff, order, out2);
    let k1 = presented_keys(e1, out1);
    let k2 = presented_keys(e2, out2);
    assert forall|k: RankKey| k1.contains(k) <==> k2.contains(k) by {
        assert(k1.contains(k) <==> windowed(e1, cutoff, k));
        assert(k2.contains(k) <==> windowed(e2, cutoff, k));
    }
    lemma_strictly_ranked_unique(order, presented_keys(e1, out1), presented_keys(e2, out2));
}

/// What `order` ranks a key by, with the fields it ignores cleared: two keys
/// rank equal exactly when their views are equal.
pub open spec fn rank_view(order: Order, k: RankKey) -> RankKey {
    match order {
        Order::Recency => RankKey { original_at: k.original_at, band: None, score: None, tie: k.tie },
        Order::Quality => RankKey { original_at: 0, band: k.band, score: k.score, tie: k.tie },
        Order::QualityRecency => RankKey { original_at: k.original_at, band: k.band, score: None, tie: k.tie },
    }
}

/// Each key of `s` is not ranked above any earlier one.
pub open spec fn rank_nondecreasing(order: Order, s: Seq<RankKey>) -> bool {
    forall|a: int, b: int| 0 <= a < b < s.len() ==> !rank_before(order, #[trigger] s[b], #[trigger] s[a])
}

proof fn lemma_view_ranks(order: Order, a: RankKey, b: RankKey)
    ensures
        rank_before(order, rank_view(order, a), rank_view(order, b)) == rank_before(order, a, b),
        rank_view(order, rank_view(order, a)) == rank_view(order, a),
        rank_equal(order, a, b) <==> rank_view(order, a) == rank_view(order, b),
{
}

proof fn lemma_in_window_count(e: Seq<RankKey>, cutoff: i64)
    ensures
        forall|x: RankKey| #[trigger] in_window(e, cutoff).to_multiset().count(x) == (if x.original_at >= cutoff {
            e.to_multiset().count(x)
        } else {
            0
        }),
    decreases e.len(),
{
    broadcast use vstd::seq_lib::group_to_multiset_ensures;
    broadcast use vstd::multiset::group_multiset_axioms;
    if e.len() > 0 {
        let d = e.drop_last();
        let w = in_window(d, cutoff);
        lemma_in_window_count(d, cutoff);
        assert(e =~= d.push(e.last()));
        assert(e.to_multiset() == d.push(e.last()).to_multiset());
        assert(d.push(e.last()).to_multiset() == d.to_multiset().insert(e.last()));
        if e.last().original_at >= cutoff {
            assert(in_window(e, cutoff) == w.push(e.last()));
            assert(w.push(e.last()).to_multiset() == w.to_multiset().insert(e.last()));
        }
    } else {
        assert(e.to_multiset() =~= Multiset::empty());
        assert(in_window(e, cutoff).to_multiset() =~= Multiset::empty());
    }
}

/// Rearranging a sequence does not change the values a map gives, or how
/// often each occurs.
proof fn lemma_map_values_multiset<A, B>(s: Seq<A>, t: Seq<A>, f: spec_fn(A) -> B)
    requires
        s.to_multiset() == t.to_multiset(),
    ensures
        s.map_values(f).to_multiset() == t.map_values(f).to_multiset(),
    decreases s.len(),
{
    broadcast use vstd::seq_lib::group_to_multiset_ensures;
    broadcast use vstd::multiset::group_multiset_axioms;
    assert(s.to_multiset().len() == s.len());
    assert(t.to_multiset().len() == t.len());
    if s.len() == 0 {
        assert(t.len() == 0);
        assert(s.map_values(f) =~= t.map_values(f));
    } else {
        let x = s[0];
        assert(s.to_multiset().count(x) > 0) by {
            assert(s.contains(x));
        }
        assert(t.to_multiset().count(x) > 0);
        assert(t.contains(x));
        let j = choose|j: int| 0 <= j < t.len() && t[j] == x;
        assert(s.remove(0).to_multiset() == t.remove(j).to_multiset());
        lemma_map_values_multiset(s.remove(0), t.remove(j), f);
        let sm = s.map_values(f);
        let tm = t.map_values(f);
        assert(sm.remove(0) =~= s.remove(0).map_values(f));
        assert(tm.remove(j) =~= t.remove(j).map_values(f));
        assert(sm.remove(0).to_multiset() == sm.to_multiset().remove(f(x)));
        assert(tm.remove(j).to_multiset() == tm.to_multiset().remove(f(x)));
        assert(sm.to_multiset().count(f(x)) > 0) by {
            assert(sm.contains(sm[0]));
        }
        assert(tm.to_multiset().count(f(x)) > 0) by {
            assert(tm.contains(tm[j]));
        }
        assert(sm.to_multiset() =~= tm.to_multiset()) by {
            assert forall|y: B| sm.to_multiset().count(y) == tm.to_multiset().count(y) by {
                assert(sm.to_multiset().remove(f(x)).count(y) == tm.to_multiset().remove(f(x)).count(y));
            }
        }
    }
}

/// Two sequences of rank views, each not ranked upward along itself and
/// holding the same views as often, are the same sequence.
proof fn lemma_sorted_views_unique(order: Order, p: Seq<RankKey>, q: Seq<RankKey>)
    requires
        rank_nondecreasing(order, p),
        rank_nondecreasing(order, q),
        forall|i: int| 0 <= i < p.len() ==> rank_view(order, #[trigger] p[i]) == p[i],
        forall|i: int| 0 <= i < q.len() ==> rank_view(order, #[trigger] q[i]) == q[i],
        p.to_multiset() == q.to_multiset(),
    ensures
        p == q,
    decreases p.len(),
{
    broadcast use vstd::seq_lib::group_to_multiset_ensures;
    broadcast use vstd::multiset::group_multiset_axioms;
    assert(p.to_multiset().len() == p.len());
    assert(q.to_multiset().len() == q.len());
    if p.len() == 0 {
        assert(q.len() == 0);
        assert(p =~= q);
    } else {
        assert(q.len() == p.len());
        assert(p.contains(p[0]));
        assert(p.to_multiset().count(p[0]) > 0);
        assert(q.to_multiset().count(p[0]) > 0);
        assert(q.contains(p[0]));
        assert(q.contains(q[0]));
        assert(q.to_multiset().count(q[0]) > 0);
        assert(p.to_multiset().count(q[0]) > 0);
        assert(p.contains(q[0]));
        let j = choose|j: int| 0 <= j < q.len() && q[j] == p[0];
        let k = choose|k: int| 0 <= k < p.len() && p[k] == q[0];
        lemma_rank_irreflexive(order, p[0]);
        lemma_rank_irreflexive(order, q[0]);
        if j > 0 {
            assert(!rank_before(order, q[j], q[0]));
        }
        if k > 0 {
            assert(!rank_before(order, p[k], p[0]));
        }
        lemma_view_ranks(order, p[0], q[0]);
        assert(p[0] == q[0]);
        let p1 = p.drop_first();
        let q1 = q.drop_first();
        assert(p.remove(0) =~= p1);
        assert(q.remove(0) =~= q1);
        assert(p1.to_multiset() == q1.to_multiset());
        assert forall|a: int, b: int| 0 <= a < b < p1.len() implies !rank_before(order, #[trigger] p1[b], #[trigger] p1[a]) by {
            assert(p1[a] == p[a + 1] && p1[b] == p[b + 1]);
        }
        assert forall|a: int, b: int| 0 <= a < b < q1.len() implies !rank_before(order, #[trigger] q1[b], #[trigger] q1[a]) by {
            assert(q1[a] == q[a + 1] && q1[b] == q[b + 1]);
        }
        assert forall|i: int| 0 <= i < p1.len() implies rank_view(order, #[trigger] p1[i]) == p1[i] by {
            assert(p1[i] == p[i + 1]);
        }
        assert forall|i: int| 0 <= i < q1.len() implies rank_view(order, #[trigger] q1[i]) == q1[i] by {
            assert(q1[i] == q[i + 1]);
        }
        lemma_sorted_views_unique(order, p1, q1);
        assert forall|i: int| 0 <= i < p.len() implies p[i] == q[i] by {
            if i > 0 {
                assert(p[i] == p1[i - 1] && q[i] == q1[i - 1]);
            }
        }
        assert(p =~= q);
    }
}

/// The presentation order does not depend on the order the entries came
/// in: for any two inputs holding the same entries, as often, in any order,
/// the presented sequences agree position by position on everything the
/// order ranks by and on the tie value, that is on which (image id, skeet
/// id) pair stands at each place.
pub proof fn lemma_presentation_is_input_independent(
    e1: Seq<RankKey>,
    e2: Seq<RankKey>,
    cutoff: i64,
    order: Order,
    out1: Seq<usize>,
    out2: Seq<usize>,
)
    requires
        presented(e1, cutoff, order, out1),
        presented(e2, cutoff, order, out2),
        e1.to_multiset() == e2.to_multiset(),
    ensures
        presented_keys(e1, out1).map_values(|k: RankKey| rank_view(order, k)) == presented_keys(e2, out2).map_values(
            |k: RankKey| rank_view(order, k),
        ),
        presented_keys(e1, out1).len() == presented_keys(e2, out2).len(),
        forall|i: int|
            0 <= i < presented_keys(e1, out1).len() ==> (#[trigger] presented_keys(e1, out1)[i]).tie == presented_keys(
                e2,
                out2,
            )[i].tie && rank_equal(order, presented_keys(e1, out1)[i], presented_keys(e2, out2)[i]),
{
    broadcast use vstd::multiset::group_multiset_axioms;
    let f = |k: RankKey| rank_view(order, k);
    let k1 = presented_keys(e1, out1);
    let k2 = presented_keys(e2, out2);
    lemma_in_window_count(e1, cutoff);
    lemma_in_window_count(e2, cutoff);
    assert(in_window(e1, cutoff).to_multiset() =~= in_window(e2, cutoff).to_multiset());
    assert(k1.to_multiset() == k2.to_multiset());
    lemma_map_values_multiset(k1, k2, f);
    let p = k1.map_values(f);
    let q = k2.map_values(f);
    assert forall|a: int, b: int| 0 <= a < b < p.len() implies !rank_before(order, #[trigger] p[b], #[trigger] p[a]) by {
        assert(k1[a] == e1[out1[a] as int] && k1[b] == e1[out1[b] as int]);
        lemma_view_ranks(order, k1[b], k1[a]);
    }
    assert forall|a: int, b: int| 0 <= a < b < q.len() implies !rank_before(order, #[trigger] q[b], #[trigger] q[a]) by {
        assert(k2[a] == e2[out2[a] as int] && k2[b] == e2[out2[b] as int]);
        lemma_view_ranks(order, k2[b], k2[a]);
    }
    assert forall|i: int| 0 <= i < p.len() implies rank_view(order, #[trigger] p[i]) == p[i] by {
        lemma_view_ranks(order, k1[i], k1[i]);
    }
    assert forall|i: int| 0 <= i < q.len() implies rank_view(order, #[trigger] q[i]) == q[i] by {
        lemma_view_ranks(order, k2[i], k2[i]);
    }
    lemma_sorted_views_unique(order, p, q);
    assert forall|i: int| 0 <= i < k1.len() implies (#[trigger] k1[i]).tie == k2[i].tie && rank_equal(
        order,
        k1[i],
        k2[i],
    ) by {
        assert(p[i] == q[i]);
        lemma_view_ranks(order, k1[i], k2[i]);
    }
}

} // verus!
