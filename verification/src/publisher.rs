//! The publisher's own rules around a publish cycle: which entries stand
//! for a skeet, what one existence check is asked about, how its verdicts
//! update the entries, and how many images the pruner processed.

use vstd::prelude::*;

use crate::keyed::{entries_map, lemma_entries_map, position_of, unique_keys};
use crate::published::{Dimensions, PublishedImage};

verus! {

/// What an existence probe learned of one image URL.
#[derive(Debug, Clone, Copy, PartialEq, Eq, Structural)]
pub struct UrlStatus {
    pub exists: bool,
    pub dimensions: Option<Dimensions>,
}

/// The verdicts of one existence check: per skeet id whether the skeet
/// exists, and per image URL what the probe found. An item the check could
/// not conclude on is absent.
pub struct ExistenceResults {
    pub skeets: Vec<(String, bool)>,
    pub images: Vec<(String, UrlStatus)>,
}

impl ExistenceResults {
    /// Each key at most once in either list.
    pub open spec fn wf(&self) -> bool {
        unique_keys(self.skeets@) && unique_keys(self.images@)
    }
}

/// `pair` after taking in the verdicts: a skeet or URL absent from the
/// results keeps its fail-open defaults.
pub open spec fn enriched(pair: PublishedImage, skeets: Map<Seq<char>, bool>, images: Map<Seq<char>, UrlStatus>) -> (
    bool,
    bool,
    Option<Dimensions>,
) {
    (
        if skeets.dom().contains(pair.skeet_id@) { skeets[pair.skeet_id@] } else { pair.skeet_id_exists },
        if images.dom().contains(pair.image_url@) { images[pair.image_url@].exists } else { pair.image_url_exists },
        if images.dom().contains(pair.image_url@) {
            images[pair.image_url@].dimensions
        } else {
            pair.image_url_dimensions
        },
    )
}

/// What taking in the verdicts does to a pair: a verdict on the pair's skeet
/// sets whether the skeet exists; a verdict on its image URL sets whether
/// the image exists and its dimensions; with no verdict, the pair keeps what
/// it had.
pub proof fn lemma_verdicts_overwrite_pair(
    pair: PublishedImage,
    skeets: Seq<(String, bool)>,
    images: Seq<(String, UrlStatus)>,
)
    requires
        unique_keys(skeets),
        unique_keys(images),
    ensures
        forall|k: int|
            0 <= k < images.len() && (#[trigger] images[k]).0@ == pair.image_url@ ==> enriched(
                pair,
                entries_map(skeets),
                entries_map(images),
            ).1 == images[k].1.exists && enriched(pair, entries_map(skeets), entries_map(images)).2
                == images[k].1.dimensions,
        (forall|k: int| 0 <= k < images.len() ==> (#[trigger] images[k]).0@ != pair.image_url@) ==> enriched(
            pair,
            entries_map(skeets),
            entries_map(images),
        ).1 == pair.image_url_exists && enriched(pair, entries_map(skeets), entries_map(images)).2
            == pair.image_url_dimensions,
        forall|k: int|
            0 <= k < skeets.len() && (#[trigger] skeets[k]).0@ == pair.skeet_id@ ==> enriched(
                pair,
                entries_map(skeets),
                entries_map(images),
            ).0 == skeets[k].1,
        (forall|k: int| 0 <= k < skeets.len() ==> (#[trigger] skeets[k]).0@ != pair.skeet_id@) ==> enriched(
            pair,
            entries_map(skeets),
            entries_map(images),
        ).0 == pair.skeet_id_exists,
{
    lemma_entries_map(skeets);
    lemma_entries_map(images);
}

/// Overwrite a pair's existence flags and dimensions from an existence check.
pub fn enrich(pair: &mut PublishedImage, results: &ExistenceResults)
    requires
        results.wf(),
    ensures
        forall|k: int|
            0 <= k < results.images@.len() && (#[trigger] results.images@[k]).0@ == old(pair).image_url@
                ==> final(pair).image_url_exists == results.images@[k].1.exists
                && final(pair).image_url_dimensions == results.images@[k].1.dimensions,
        (forall|k: int| 0 <= k < results.images@.len() ==> (#[trigger] results.images@[k]).0@ != old(pair).image_url@)
            ==> final(pair).image_url_exists == old(pair).image_url_exists
            && final(pair).image_url_dimensions == old(pair).image_url_dimensions,
        forall|k: int|
            0 <= k < results.skeets@.len() && (#[trigger] results.skeets@[k]).0@ == old(pair).skeet_id@
                ==> final(pair).skeet_id_exists == results.skeets@[k].1,
        (forall|k: int| 0 <= k < results.skeets@.len() ==> (#[trigger] results.skeets@[k]).0@ != old(pair).skeet_id@)
            ==> final(pair).skeet_id_exists == old(pair).skeet_id_exists,
        (final(pair).skeet_id_exists, final(pair).image_url_exists, final(pair).image_url_dimensions) == enriched(
            *old(pair),
            entries_map(results.skeets@),
            entries_map(results.images@),
        ),
        final(pair).image_url@ == old(pair).image_url@,
        final(pair).image_id@ == old(pair).image_id@,
        final(pair).skeet_id@ == old(pair).skeet_id@,
{
    proof {
        lemma_entries_map(results.skeets@);
        lemma_entries_map(results.images@);
        lemma_verdicts_overwrite_pair(*pair, results.skeets@, results.images@);
    }
    if let Some(i) = position_of(&results.skeets, pair.skeet_id.as_str()) {
        pair.skeet_id_exists = results.skeets[i].1;
    }
    if let Some(i) = position_of(&results.images, pair.image_url.as_str()) {
        let status = results.images[i].1;
        pair.image_url_exists = status.exists;
        pair.image_url_dimensions = status.dimensions;
    }
}

/// Enrich every pair of a list, in place.
pub fn enrich_all(pairs: &mut Vec<PublishedImage>, results: &ExistenceResults)
    requires
        results.wf(),
    ensures
        final(pairs)@.len() == old(pairs)@.len(),
        forall|i: int|
            0 <= i < old(pairs)@.len() ==> {
                let p = #[trigger] final(pairs)@[i];
                let q = old(pairs)@[i];
                &&& (p.skeet_id_exists, p.image_url_exists, p.image_url_dimensions) == enriched(
                    q,
                    entries_map(results.skeets@),
                    entries_map(results.images@),
                )
                &&& p.image_url@ == q.image_url@
                &&& p.image_id@ == q.image_id@
                &&& p.skeet_id@ == q.skeet_id@
            },
{
    let ghost start = pairs@;
    let n = pairs.len();
    let mut i: usize = 0;
    while i < n
        invariant
            n == start.len(),
            pairs@.len() == n,
            i <= n,
            results.wf(),
            forall|j: int| i <= j < n ==> #[trigger] pairs@[j] == start[j],
            forall|j: int|
                0 <= j < i ==> {
                    let p = #[trigger] pairs@[j];
                    let q = start[j];
                    &&& (p.skeet_id_exists, p.image_url_exists, p.image_url_dimensions) == enriched(
                        q,
                        entries_map(results.skeets@),
                        entries_map(results.images@),
                    )
                    &&& p.image_url@ == q.image_url@
                    &&& p.image_id@ == q.image_id@
                    &&& p.skeet_id@ == q.skeet_id@
                },
        decreases n - i,
    {
        let mut pair = pairs.remove(i);
        enrich(&mut pair, results);
        pairs.insert(i, pair);
        i = i + 1;
    }
}

/// The (skeet id, image URL) of every pair of every list, lists in order.
pub open spec fn items_of(lists: Seq<Vec<PublishedImage>>) -> Seq<(Seq<char>, Seq<char>)>
    decreases lists.len(),
{
    if lists.len() == 0 {
        Seq::empty()
    } else {
        items_of(lists.drop_last()) + lists.last()@.map_values(
            |p: PublishedImage| (p.skeet_id@, p.image_url@),
        )
    }
}

/// What one existence check over all lists is asked about: the union of
/// their (skeet id, image URL) items, so a pair several lists share is
/// probed in a single call.
pub fn existence_items(lists: &Vec<Vec<PublishedImage>>) -> (items: Vec<(String, String)>)
    ensures
        items@.map_values(|it: (String, String)| (it.0@, it.1@)) == items_of(lists@),
{
    let mut items: Vec<(String, String)> = Vec::new();
    let n = lists.len();
    let mut i: usize = 0;
    proof {
        assert(items@.map_values(|it: (String, String)| (it.0@, it.1@)) =~= items_of(lists@.take(0)));
    }
    while i < n
        invariant
            n == lists@.len(),
            i <= n,
            items@.map_values(|it: (String, String)| (it.0@, it.1@)) == items_of(lists@.take(i as int)),
        decreases n - i,
    {
        let list = &lists[i];
        let ghost before = items@.map_values(|it: (String, String)| (it.0@, it.1@));
        let m = list.len();
        let mut j: usize = 0;
        while j < m
            invariant
                m == list@.len(),
                j <= m,
                items@.map_values(|it: (String, String)| (it.0@, it.1@)) == before + list@.take(j as int).map_values(
                    |p: PublishedImage| (p.skeet_id@, p.image_url@),
                ),
            decreases m - j,
        {
            let ghost prev = items@;
            let skeet = crate::text::string_of(list[j].skeet_id.as_str());
            let url = crate::text::string_of(list[j].image_url.as_str());
            items.push((skeet, url));
            proof {
                assert(items@.map_values(|it: (String, String)| (it.0@, it.1@)) =~= prev.map_values(
                    |it: (String, String)| (it.0@, it.1@),
                ).push((list@[j as int].skeet_id@, list@[j as int].image_url@)));
                assert(list@.take(j + 1).map_values(|p: PublishedImage| (p.skeet_id@, p.image_url@))
                    =~= list@.take(j as int).map_values(|p: PublishedImage| (p.skeet_id@, p.image_url@)).push(
                    (list@[j as int].skeet_id@, list@[j as int].image_url@),
                ));
            }
            j = j + 1;
        }
        proof {
            assert(list@.take(m as int) =~= list@);
            assert(lists@.take(i + 1).drop_last() =~= lists@.take(i as int));
        }
        i = i + 1;
    }
    proof {
        assert(lists@.take(n as int) =~= lists@);
    }
    items
}

/// Of the images the pruner sees, about 0.2 percent are saved: each saved
/// image stands for this many processed ones.
pub const IMAGES_PER_SAVE: u64 = 500;

/// Estimate how many images the pruner processed from how many were scored
/// and saved, by inverting the save rate; a count too large for `u64`
/// saturates.
pub fn estimate_processed(scored: usize) -> (n: u64)
    ensures
        n == (if scored * IMAGES_PER_SAVE <= u64::MAX { scored * IMAGES_PER_SAVE } else { u64::MAX as int }),
{
    match (scored as u64).checked_mul(IMAGES_PER_SAVE) {
        Some(n) => n,
        None => u64::MAX,
    }
}

/// The entries that stand for their skeets: each eligible entry whose skeet
/// id no earlier eligible entry carries, in input order.
pub open spec fn is_first_eligible(skeet_ids: Seq<String>, eligible: Seq<bool>, i: int) -> bool {
    &&& eligible[i]
    &&& forall|j: int| 0 <= j < i && eligible[j] ==> #[trigger] skeet_ids[j]@ != skeet_ids[i]@
}

/// Whether entry `i` is eligible and no earlier eligible entry carries its
/// skeet id.
fn first_eligible(skeet_ids: &Vec<String>, eligible: &Vec<bool>, i: usize) -> (b: bool)
    requires
        skeet_ids@.len() == eligible@.len(),
        i < skeet_ids@.len(),
    ensures
        b == is_first_eligible(skeet_ids@, eligible@, i as int),
{
    if !eligible[i] {
        return false;
    }
    let mut j: usize = 0;
    while j < i
        invariant
            skeet_ids@.len() == eligible@.len(),
            i < skeet_ids@.len(),
            j <= i,
            forall|q: int| 0 <= q < j && eligible@[q] ==> #[trigger] skeet_ids@[q]@ != skeet_ids@[i as int]@,
        decreases i - j,
    {
        if eligible[j] && crate::text::str_eq(skeet_ids[j].as_str(), skeet_ids[i].as_str()) {
            return false;
        }
        j = j + 1;
    }
    true
}

/// The indices of the entries to show: eligible entries (a visible skeet's
/// post), one per skeet id, the first of each, in input order.
pub fn visible_entry_indices(skeet_ids: &Vec<String>, eligible: &Vec<bool>) -> (out: Vec<usize>)
    requires
        skeet_ids@.len() == eligible@.len(),
    ensures
        forall|a: int, b: int| 0 <= a < b < out@.len() ==> #[trigger] out@[a] < #[trigger] out@[b],
        forall|k: int| 0 <= k < out@.len() ==> #[trigger] out@[k] < skeet_ids@.len()
            && is_first_eligible(skeet_ids@, eligible@, out@[k] as int),
        forall|i: int|
            0 <= i < skeet_ids@.len() && #[trigger] is_first_eligible(skeet_ids@, eligible@, i) ==> out@.contains(
                i as usize,
            ),
{
    let mut out: Vec<usize> = Vec::new();
    let n = skeet_ids.len();
    let mut i: usize = 0;
    while i < n
        invariant
            n == skeet_ids@.len(),
            n == eligible@.len(),
            i <= n,
            forall|a: int, b: int| 0 <= a < b < out@.len() ==> #[trigger] out@[a] < #[trigger] out@[b],
            forall|k: int| 0 <= k < out@.len() ==> #[trigger] out@[k] < i,
            forall|k: int| 0 <= k < out@.len() ==> is_first_eligible(skeet_ids@, eligible@, #[trigger] out@[k] as int),
            forall|j: int|
                0 <= j < i && #[trigger] is_first_eligible(skeet_ids@, eligible@, j) ==> out@.contains(j as usize),
        decreases n - i,
    {
        if first_eligible(skeet_ids, eligible, i) {
            let ghost before = out@;
            out.push(i);
            proof {
                assert forall|j: int| 0 <= j < i + 1 && #[trigger] is_first_eligible(skeet_ids@, eligible@, j)
                    implies out@.contains(j as usize) by {
                    if j < i {
                        let k = choose|k: int| 0 <= k < before.len() && before[k] == j as usize;
                        assert(out@[k] == j as usize);
                    } else {
                        assert(out@[out@.len() - 1] == j as usize);
                    }
                }
            }
        }
        i = i + 1;
    }
    out
}

} // verus!

verus! {

/// Whether a publish-if-changed cycle did work.
pub enum PublishOutcome {
    /// No relevant table version moved and every list was present: nothing
    /// written.
    Unchanged,
    /// The lists were recomputed and republished.
    Published(Vec<(crate::order::Order, crate::limit::Limit)>),
}

} // verus!

verus! {

/// A published list's statistics over its window: `examined` images, the
/// list's length as found, and how many of those are still live.
pub fn list_statistics_for(
    interval_start: i64,
    interval_end: i64,
    examined: u64,
    pairs: &Vec<PublishedImage>,
) -> (s: crate::statistics::ListStatistics)
    ensures
        s == (crate::statistics::ListStatistics {
            interval_start,
            interval_end,
            examined,
            found: pairs@.len() as u64,
            exists: crate::source::live_entries(pairs@).len() as u64,
            next_match_prediction: None,
        }),
{
    let n = pairs.len();
    let mut live: u64 = 0;
    let mut i: usize = 0;
    while i < n
        invariant
            n == pairs@.len(),
            i <= n,
            live == crate::source::live_entries(pairs@.take(i as int)).len(),
            live <= i,
        decreases n - i,
    {
        proof {
            assert(pairs@.take(i + 1).drop_last() =~= pairs@.take(i as int));
        }
        if pairs[i].is_live() {
            live = live + 1;
        }
        i = i + 1;
    }
    proof {
        assert(pairs@.take(n as int) =~= pairs@);
    }
    crate::statistics::ListStatistics::new(interval_start, interval_end, examined, n as u64, live)
}

} // verus!

verus! {

/// The widest window among the specs, in seconds; 0 for none. The publisher
/// fetches once over this window and windows each list within it.
pub fn widest_window_seconds(specs: &Vec<(crate::order::Order, crate::limit::Limit)>) -> (w: u64)
    requires
        forall|i: int| 0 <= i < specs@.len() ==> (#[trigger] specs@[i]).1.window_secs() <= u64::MAX,
    ensures
        forall|i: int| 0 <= i < specs@.len() ==> (#[trigger] specs@[i]).1.window_secs() <= w,
        specs@.len() == 0 ==> w == 0,
        specs@.len() > 0 ==> exists|i: int| 0 <= i < specs@.len() && (#[trigger] specs@[i]).1.window_secs() == w,
{
    let n = specs.len();
    let mut w: u64 = 0;
    let mut i: usize = 0;
    while i < n
        invariant
            n == specs@.len(),
            i <= n,
            forall|k: int| 0 <= k < n ==> (#[trigger] specs@[k]).1.window_secs() <= u64::MAX,
            forall|k: int| 0 <= k < i ==> (#[trigger] specs@[k]).1.window_secs() <= w,
            i == 0 ==> w == 0,
            i > 0 ==> exists|k: int| 0 <= k < i && (#[trigger] specs@[k]).1.window_secs() == w,
        decreases n - i,
    {
        let s = specs[i].1.window_seconds();
        if i == 0 || s > w {
            w = s;
        }
        i = i + 1;
    }
    w
}

} // verus!
