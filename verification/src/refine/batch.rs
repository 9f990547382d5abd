//! A batch of (id, image) candidates for refinement, with completion
//! bookkeeping that decides the next tick's discovery-time watermark.

use vstd::prelude::*;

use crate::keyed::{entries_map, insert_entry, lemma_entries_map, position_of, unique_keys, views};
use crate::refine::tick::ScoreOutcomes;

verus! {

#[verifier::external_type_specification]
#[verifier::external_body]
pub struct ExDynamicImage(image::DynamicImage);

/// One stored original to refine: its image id, when it was discovered
/// (microseconds since the epoch), and the decoded image.
pub struct Original {
    pub image_id: String,
    pub discovered_at: i64,
    pub image: image::DynamicImage,
}

/// A batch of candidates for refinement.
pub struct Batch {
    ids: Vec<String>,
    images: Vec<image::DynamicImage>,
    discovered_at_by_id: Vec<(String, i64)>,
    completed: Vec<String>,
}

impl Batch {
    /// The candidate ids, in order.
    pub closed spec fn spec_ids(&self) -> Seq<String> {
        self.ids@
    }

    /// The candidate images, in the order of their ids.
    pub closed spec fn spec_images(&self) -> Seq<image::DynamicImage> {
        self.images@
    }

    /// Each id's discovery time.
    pub closed spec fn spec_discovered(&self) -> Map<Seq<char>, i64> {
        entries_map(self.discovered_at_by_id@)
    }

    /// The ids marked completed.
    pub closed spec fn spec_completed(&self) -> Set<Seq<char>> {
        views(self.completed@).to_set()
    }

    /// Well-formed: no id carries two discovery times.
    pub closed spec fn wf(&self) -> bool {
        unique_keys(self.discovered_at_by_id@)
    }

    /// An empty batch.
    pub fn new() -> (b: Batch)
        ensures
            b.wf(),
            b.spec_ids() == Seq::<String>::empty(),
            b.spec_images() == Seq::<image::DynamicImage>::empty(),
            b.spec_discovered() == Map::<Seq<char>, i64>::empty(),
            b.spec_completed() == Set::<Seq<char>>::empty(),
    {
        let b = Batch { ids: Vec::new(), images: Vec::new(), discovered_at_by_id: Vec::new(), completed: Vec::new() };
        proof {
            assert(views(b.completed@) =~= Seq::<Seq<char>>::empty());
            assert(views(b.completed@).to_set() =~= Set::<Seq<char>>::empty());
        }
        b
    }

    /// A batch of one (id, discovered-at) entry and no images, for
    /// exercising the watermark without a fetch.
    pub fn with_entry(id: String, discovered_at: i64) -> (b: Batch)
        ensures
            b.wf(),
            b.spec_ids() == Seq::<String>::empty(),
            b.spec_discovered() == Map::<Seq<char>, i64>::empty().insert(id@, discovered_at),
            b.spec_completed() == Set::<Seq<char>>::empty(),
    {
        let mut entries: Vec<(String, i64)> = Vec::new();
        entries.push((id, discovered_at));
        proof {
            assert(entries@.drop_last() =~= Seq::<(String, i64)>::empty());
            assert(entries_map(entries@.drop_last()) == Map::<Seq<char>, i64>::empty());
        }
        let b = Batch { ids: Vec::new(), images: Vec::new(), discovered_at_by_id: entries, completed: Vec::new() };
        proof {
            assert(views(b.completed@) =~= Seq::<Seq<char>>::empty());
            assert(views(b.completed@).to_set() =~= Set::<Seq<char>>::empty());
        }
        b
    }

    /// Build a batch from stored originals, in order. A repeated id keeps
    /// both images but its last discovery time.
    pub fn from_originals(originals: Vec<Original>) -> (b: Batch)
        ensures
            b.wf(),
            b.spec_ids().len() == originals@.len(),
            forall|k: int| 0 <= k < originals@.len() ==> #[trigger] b.spec_ids()[k]@ == originals@[k].image_id@,
            b.spec_images().len() == originals@.len(),
            forall|k: int| 0 <= k < originals@.len() ==> #[trigger] b.spec_images()[k] == originals@[k].image,
            b.spec_discovered() == discovered_map(originals@),
            b.spec_completed() == Set::<Seq<char>>::empty(),
    {
        let mut ids: Vec<String> = Vec::new();
        let mut images: Vec<image::DynamicImage> = Vec::new();
        let mut entries: Vec<(String, i64)> = Vec::new();
        let mut rest = originals;
        let ghost all = rest@;
        let n = rest.len();
        let mut i: usize = 0;
        while i < n
            invariant
                n == all.len(),
                i <= n,
                rest@ == all.subrange(i as int, n as int),
                ids@.len() == i,
                forall|k: int| 0 <= k < i ==> #[trigger] ids@[k]@ == all[k].image_id@,
                images@.len() == i,
                forall|k: int| 0 <= k < i ==> #[trigger] images@[k] == all[k].image,
                unique_keys(entries@),
                entries_map(entries@) == discovered_map(all.subrange(0, i as int)),
            decreases n - i,
        {
            let o = rest.remove(0);
            assert(o == all[i as int]);
            assert(rest@ =~= all.subrange(i + 1, n as int));
            let ghost prev = all.subrange(0, i as int);
            let ghost next = all.subrange(0, i + 1);
            assert(next.drop_last() =~= prev);
            assert(next.last() == o);
            let key = o.image_id.clone();
            insert_entry(&mut entries, key, o.discovered_at);
            ids.push(o.image_id);
            images.push(o.image);
            i = i + 1;
        }
        proof {
            assert(all.subrange(0, n as int) =~= all);
        }
        let b = Batch { ids, images, discovered_at_by_id: entries, completed: Vec::new() };
        proof {
            assert(views(b.completed@) =~= Seq::<Seq<char>>::empty());
            assert(views(b.completed@).to_set() =~= Set::<Seq<char>>::empty());
        }
        b
    }

    pub fn len(&self) -> (n: usize)
        ensures
            n == self.spec_ids().len(),
    {
        self.ids.len()
    }

    pub fn is_empty(&self) -> (b: bool)
        ensures
            b == (self.spec_ids().len() == 0),
    {
        self.ids.len() == 0
    }

    /// The candidate ids, in order.
    pub fn ids(&self) -> (r: &Vec<String>)
        ensures
            r@ == self.spec_ids(),
    {
        &self.ids
    }

    /// When `id` was discovered, if it is part of this batch.
    pub fn discovered_at(&self, id: &String) -> (r: Option<i64>)
        requires
            self.wf(),
        ensures
            r == (if self.spec_discovered().dom().contains(id@) {
                Some(self.spec_discovered()[id@])
            } else {
                None
            }),
    {
        proof {
            lemma_entries_map(self.discovered_at_by_id@);
        }
        match position_of(&self.discovered_at_by_id, id.as_str()) {
            Some(i) => Some(self.discovered_at_by_id[i].1),
            None => None,
        }
    }

    /// Hand out the images for scoring, leaving the batch without them.
    pub fn take_images(&mut self) -> (images: Vec<image::DynamicImage>)
        requires
            old(self).wf(),
        ensures
            final(self).wf(),
            images@ == old(self).spec_images(),
            final(self).spec_images() == Seq::<image::DynamicImage>::empty(),
            final(self).spec_ids() == old(self).spec_ids(),
            final(self).spec_discovered() == old(self).spec_discovered(),
            final(self).spec_completed() == old(self).spec_completed(),
    {
        let mut images: Vec<image::DynamicImage> = Vec::new();
        std::mem::swap(&mut images, &mut self.images);
        images
    }

    /// Settle a scored batch: `results[i]` is the outcome for the `i`-th id
    /// (`None` where a repeated id already took its result). Successes are
    /// marked completed; outcomes come back in id order.
    pub fn settle<S, E>(&mut self, results: Vec<Option<Result<S, E>>>) -> (out: ScoreOutcomes<S, E>)
        requires
            old(self).wf(),
            results@.len() == old(self).spec_ids().len(),
        ensures
            final(self).wf(),
            final(self).spec_ids() == old(self).spec_ids(),
            final(self).spec_images() == old(self).spec_images(),
            final(self).spec_discovered() == old(self).spec_discovered(),
            final(self).spec_completed() == old(self).spec_completed().union(
                succeeded_ids(old(self).spec_ids(), results@),
            ),
            keyed_views(out.successes@) == successes_of(old(self).spec_ids(), results@),
            keyed_views(out.failures@) == failures_of(old(self).spec_ids(), results@),
    {
        let ghost ids0 = self.ids@;
        let ghost res0 = results@;
        let ghost done0 = self.spec_completed();
        let mut successes: Vec<(String, S)> = Vec::new();
        let mut failures: Vec<(String, E)> = Vec::new();
        let mut rest = results;
        let n = rest.len();
        let mut i: usize = 0;
        proof {
            assert(res0.take(0) =~= Seq::<Option<Result<S, E>>>::empty());
            assert(keyed_views(successes@) =~= Seq::<(Seq<char>, S)>::empty());
            assert(keyed_views(failures@) =~= Seq::<(Seq<char>, E)>::empty());
            assert(done0.union(succeeded_ids(ids0, res0.take(0))) =~= done0);
        }
        while i < n
            invariant
                n == res0.len(),
                n == ids0.len(),
                i <= n,
                self.wf(),
                self.ids@ == ids0,
                rest@ == res0.subrange(i as int, n as int),
                self.spec_images() == old(self).spec_images(),
                self.spec_discovered() == old(self).spec_discovered(),
                self.spec_completed() == done0.union(succeeded_ids(ids0, res0.take(i as int))),
                keyed_views(successes@) == successes_of(ids0, res0.take(i as int)),
                keyed_views(failures@) == failures_of(ids0, res0.take(i as int)),
            decreases n - i,
        {
            let r = rest.remove(0);
            proof {
                assert(rest@ =~= res0.subrange(i + 1, n as int));
                assert(r == res0[i as int]);
                assert(res0.take(i + 1).drop_last() =~= res0.take(i as int));
            }
            let ghost before_s = successes@;
            let ghost before_f = failures@;
            let ghost before_done = self.spec_completed();
            match r {
                Some(Ok(score)) => {
                    let id = self.ids[i].clone();
                    self.mark_completed(&id);
                    successes.push((id, score));
                    proof {
                        assert(successes@.drop_last() =~= before_s);
                        assert(keyed_views(successes@) =~= keyed_views(before_s).push((ids0[i as int]@, score)));
                        assert(self.spec_completed() =~= done0.union(succeeded_ids(ids0, res0.take(i + 1))));
                    }
                },
                Some(Err(e)) => {
                    let id = self.ids[i].clone();
                    failures.push((id, e));
                    proof {
                        assert(failures@.drop_last() =~= before_f);
                        assert(keyed_views(failures@) =~= keyed_views(before_f).push((ids0[i as int]@, e)));
                        assert(succeeded_ids(ids0, res0.take(i + 1)) =~= succeeded_ids(ids0, res0.take(i as int)));
                    }
                },
                None => {
                    proof {
                        assert(succeeded_ids(ids0, res0.take(i + 1)) =~= succeeded_ids(ids0, res0.take(i as int)));
                    }
                },
            }
            i = i + 1;
        }
        proof {
            assert(res0.take(n as int) =~= res0);
        }
        ScoreOutcomes { successes, failures }
    }

    /// Mark `id` as successfully processed.
    pub fn mark_completed(&mut self, id: &String)
        requires
            old(self).wf(),
        ensures
            final(self).wf(),
            final(self).spec_completed() == old(self).spec_completed().insert(id@),
            final(self).spec_discovered() == old(self).spec_discovered(),
            final(self).spec_ids() == old(self).spec_ids(),
            final(self).spec_images() == old(self).spec_images(),
    {
        let ghost before = self.completed@;
        self.completed.push(id.clone());
        proof {
            assert(views(self.completed@) =~= views(before).push(id@));
            views(before).lemma_push_to_set_commute(id@);
        }
    }

    fn is_completed(&self, id: &String) -> (b: bool)
        ensures
            b == self.spec_completed().contains(id@),
    {
        let n = self.completed.len();
        let mut i: usize = 0;
        while i < n
            invariant
                n == self.completed.len(),
                i <= n,
                forall|j: int| 0 <= j < i ==> self.completed@[j]@ != id@,
            decreases n - i,
        {
            if crate::text::str_eq(self.completed[i].as_str(), id.as_str()) {
                assert(views(self.completed@)[i as int] == id@);
                return true;
            }
            i = i + 1;
        }
        proof {
            if views(self.completed@).to_set().contains(id@) {
                let j = choose|j: int| 0 <= j < views(self.completed@).len() && views(self.completed@)[j] == id@;
                assert(self.completed@[j]@ == id@);
            }
        }
        false
    }

    /// The watermark for the next tick: the oldest discovery time among the
    /// members not yet completed (so the next inclusive scan re-fetches that
    /// straggler); when every member completed, the newest discovery time;
    /// `None` for an empty batch.
    pub fn watermark(&self) -> (w: Option<i64>)
        requires
            self.wf(),
        ensures
            spec_watermark(self.spec_discovered(), self.spec_completed(), w),
    {
        proof {
            lemma_entries_map(self.discovered_at_by_id@);
        }
        let ghost m = self.spec_discovered();
        let ghost done = self.spec_completed();
        let n = self.discovered_at_by_id.len();
        let mut oldest_uncompleted: Option<i64> = None;
        let mut newest: Option<i64> = None;
        let mut i: usize = 0;
        while i < n
            invariant
                n == self.discovered_at_by_id.len(),
                i <= n,
                m == self.spec_discovered(),
                done == self.spec_completed(),
                forall|j: int| 0 <= j < n ==> #[trigger] m[self.discovered_at_by_id@[j].0@] == self.discovered_at_by_id@[j].1,
                forall|j: int| 0 <= j < n ==> m.dom().contains(#[trigger] self.discovered_at_by_id@[j].0@),
                newest is None <==> i == 0,
                newest matches Some(v) ==> (exists|j: int| 0 <= j < i && self.discovered_at_by_id@[j].1 == v)
                    && (forall|j: int| 0 <= j < i ==> #[trigger] self.discovered_at_by_id@[j].1 <= v),
                oldest_uncompleted is None <==> (forall|j: int| 0 <= j < i ==> done.contains(
                    #[trigger] self.discovered_at_by_id@[j].0@,
                )),
                oldest_uncompleted matches Some(v) ==> (exists|j: int| 0 <= j < i && !done.contains(
                    self.discovered_at_by_id@[j].0@,
                ) && self.discovered_at_by_id@[j].1 == v) && (forall|j: int| 0 <= j < i && !done.contains(
                    #[trigger] self.discovered_at_by_id@[j].0@,
                ) ==> v <= self.discovered_at_by_id@[j].1),
            decreases n - i,
        {
            let at = self.discovered_at_by_id[i].1;
            let completed = self.is_completed(&self.discovered_at_by_id[i].0);
            newest = match newest {
                Some(v) => if at > v { Some(at) } else { Some(v) },
                None => Some(at),
            };
            if !completed {
                oldest_uncompleted = match oldest_uncompleted {
                    Some(v) => if at < v { Some(at) } else { Some(v) },
                    None => Some(at),
                };
            }
            i = i + 1;
        }
        let w = match oldest_uncompleted {
            Some(v) => Some(v),
            None => newest,
        };
        proof {
            let e = self.discovered_at_by_id@;
            if n == 0 {
                assert(m.dom() =~= Set::<Seq<char>>::empty());
            } else {
                assert(m.dom().contains(e[0].0@));
            }
            match oldest_uncompleted {
                Some(v) => {
                    let j = choose|j: int| 0 <= j < n && !done.contains(e[j].0@) && e[j].1 == v;
                    assert(m.dom().contains(e[j].0@) && !done.contains(e[j].0@) && m[e[j].0@] == v);
                    assert forall|k: Seq<char>| m.dom().contains(k) && !done.contains(k) implies v <= #[trigger] m[k] by {
                        let jj = choose|jj: int| 0 <= jj < n && e[jj].0@ == k;
                        assert(!done.contains(e[jj].0@));
                    }
                },
                None => {
                    assert forall|k: Seq<char>| #[trigger] m.dom().contains(k) implies done.contains(k) by {
                        let jj = choose|jj: int| 0 <= jj < n && e[jj].0@ == k;
                        assert(done.contains(e[jj].0@));
                    }
                    if let Some(v) = newest {
                        let j = choose|j: int| 0 <= j < n && e[j].1 == v;
                        assert(m.dom().contains(e[j].0@) && m[e[j].0@] == v);
                        assert forall|k: Seq<char>| #[trigger] m.dom().contains(k) implies m[k] <= v by {
                            let jj = choose|jj: int| 0 <= jj < n && e[jj].0@ == k;
                            assert(e[jj].1 <= v);
                        }
                    }
                },
            }
        }
        w
    }
}

/// Each pair with its key taken by text.
pub open spec fn keyed_views<T>(v: Seq<(String, T)>) -> Seq<(Seq<char>, T)> {
    v.map_values(|p: (String, T)| (p.0@, p.1))
}

/// The ids whose result is a success, among the first `results.len()`.
pub open spec fn succeeded_ids<S, E>(ids: Seq<String>, results: Seq<Option<Result<S, E>>>) -> Set<Seq<char>>
    decreases results.len(),
{
    if results.len() == 0 {
        Set::empty()
    } else {
        let i = results.len() - 1;
        let before = succeeded_ids(ids, results.drop_last());
        match results.last() {
            Some(Ok(_)) => before.insert(ids[i]@),
            _ => before,
        }
    }
}

/// The successes, in id order, each with its id.
pub open spec fn successes_of<S, E>(ids: Seq<String>, results: Seq<Option<Result<S, E>>>) -> Seq<(Seq<char>, S)>
    decreases results.len(),
{
    if results.len() == 0 {
        Seq::empty()
    } else {
        let i = results.len() - 1;
        let before = successes_of(ids, results.drop_last());
        match results.last() {
            Some(Ok(s)) => before.push((ids[i]@, s)),
            _ => before,
        }
    }
}

/// The failures, in id order, each with its id.
pub open spec fn failures_of<S, E>(ids: Seq<String>, results: Seq<Option<Result<S, E>>>) -> Seq<(Seq<char>, E)>
    decreases results.len(),
{
    if results.len() == 0 {
        Seq::empty()
    } else {
        let i = results.len() - 1;
        let before = failures_of(ids, results.drop_last());
        match results.last() {
            Some(Err(e)) => before.push((ids[i]@, e)),
            _ => before,
        }
    }
}

/// Each original's discovery time by image id (a repeated id keeps its last).
pub open spec fn discovered_map(originals: Seq<Original>) -> Map<Seq<char>, i64>
    decreases originals.len(),
{
    if originals.len() == 0 {
        Map::empty()
    } else {
        discovered_map(originals.drop_last()).insert(originals.last().image_id@, originals.last().discovered_at)
    }
}

/// `w` is the watermark of a batch with discovery times `m` and completed
/// ids `done`: the oldest uncompleted discovery time if any member is
/// uncompleted; otherwise the newest discovery time; `None` when empty.
pub open spec fn spec_watermark(m: Map<Seq<char>, i64>, done: Set<Seq<char>>, w: Option<i64>) -> bool {
    if m.dom().len() == 0 && m.dom().finite() {
        w is None
    } else if exists|k: Seq<char>| m.dom().contains(k) && !done.contains(k) {
        w matches Some(v) && (exists|k: Seq<char>| m.dom().contains(k) && !done.contains(k) && m[k] == v)
            && (forall|k: Seq<char>| m.dom().contains(k) && !done.contains(k) ==> v <= #[trigger] m[k])
    } else {
        w matches Some(v) && (exists|k: Seq<char>| m.dom().contains(k) && m[k] == v)
            && (forall|k: Seq<char>| #[trigger] m.dom().contains(k) ==> m[k] <= v)
    }
}

/// The refinement loop's resume point: the watermark of the last committed
/// batch, which never moves backwards.
pub struct PollingCursor {
    last_discovered_at: Option<i64>,
}

impl PollingCursor {
    pub closed spec fn spec_last(&self) -> Option<i64> {
        self.last_discovered_at
    }

    pub fn new() -> (c: PollingCursor)
        ensures
            c.spec_last() is None,
    {
        PollingCursor { last_discovered_at: None }
    }

    /// The discovery-time cutoff the next fetch scans from (inclusive).
    pub fn last_discovered_at(&self) -> (r: Option<i64>)
        ensures
            r == self.spec_last(),
    {
        self.last_discovered_at
    }

    /// Consume `batch` and advance the cutoff to its watermark. Monotonic:
    /// an earlier watermark never rolls the cutoff back.
    pub fn commit(&mut self, batch: Batch)
        requires
            batch.wf(),
        ensures
            ({
                let m = batch.spec_discovered();
                let done = batch.spec_completed();
                exists|w: Option<i64>| #[trigger] spec_watermark(m, done, w) && final(self).spec_last() == match (
                    old(self).spec_last(),
                    w,
                ) {
                    (_, None) => old(self).spec_last(),
                    (Some(prev), Some(v)) => if prev >= v { Some(prev) } else { Some(v) },
                    (None, Some(v)) => Some(v),
                }
            }),
    {
        let w = match batch.watermark() {
            Some(w) => w,
            None => {
                return;
            },
        };
        match self.last_discovered_at {
            Some(prev) => {
                if prev < w {
                    self.last_discovered_at = Some(w);
                }
            },
            None => {
                self.last_discovered_at = Some(w);
            },
        }
    }
}

/// Committing never moves the cutoff backwards, and always reaches at least
/// the batch's watermark.
pub proof fn lemma_commit_monotone(before: Option<i64>, w: Option<i64>, after: Option<i64>)
    requires
        after == match (before, w) {
            (_, None) => before,
            (Some(prev), Some(v)) => if prev >= v { Some(prev) } else { Some(v) },
            (None, Some(v)) => Some(v),
        },
    ensures
        before matches Some(p) ==> after matches Some(a) && p <= a,
        w matches Some(v) ==> after matches Some(a) && v <= a,
{
}

} // verus!

verus! {

/// What the refinement loop remembers between ticks: the version of the
/// images table at its last scan (a fetch is skipped while it is unchanged)
/// and the resume cutoff.
pub struct PollingBatchSource {
    images_gate: Option<String>,
    cursor: PollingCursor,
}

impl PollingBatchSource {
    /// The images-table version last scanned, if any.
    pub closed spec fn spec_gate(&self) -> Option<Seq<char>> {
        match self.images_gate {
            Some(v) => Some(v@),
            None => None,
        }
    }

    /// The resume cutoff.
    pub closed spec fn spec_last(&self) -> Option<i64> {
        self.cursor.spec_last()
    }

    /// A cold source: nothing scanned, no cutoff.
    pub fn new() -> (s: PollingBatchSource)
        ensures
            s.spec_gate() is None,
            s.spec_last() is None,
    {
        PollingBatchSource { images_gate: None, cursor: PollingCursor::new() }
    }

    /// Whether a fetch must scan, given the images table's current version:
    /// always on a cold start, otherwise only when the version moved.
    pub fn needs_scan(&self, images_version: &str) -> (b: bool)
        ensures
            b == (self.spec_gate() != Some(images_version@)),
    {
        match &self.images_gate {
            Some(v) => !crate::text::str_eq(v.as_str(), images_version),
            None => true,
        }
    }

    /// Record that the table was scanned at `images_version`.
    pub fn scanned(&mut self, images_version: &str)
        ensures
            final(self).spec_gate() == Some(images_version@),
            final(self).spec_last() == old(self).spec_last(),
    {
        self.images_gate = Some(crate::text::string_of(images_version));
    }

    /// The discovery-time cutoff the next scan starts from (inclusive).
    pub fn last_discovered_at(&self) -> (r: Option<i64>)
        ensures
            r == self.spec_last(),
    {
        self.cursor.last_discovered_at()
    }

    /// Consume `batch` and advance the cutoff to its watermark, never
    /// backwards.
    pub fn commit(&mut self, batch: Batch)
        requires
            batch.wf(),
        ensures
            final(self).spec_gate() == old(self).spec_gate(),
            ({
                let m = batch.spec_discovered();
                let done = batch.spec_completed();
                exists|w: Option<i64>| #[trigger] spec_watermark(m, done, w) && final(self).spec_last() == match (
                    old(self).spec_last(),
                    w,
                ) {
                    (_, None) => old(self).spec_last(),
                    (Some(prev), Some(v)) => if prev >= v { Some(prev) } else { Some(v) },
                    (None, Some(v)) => Some(v),
                }
            }),
    {
        self.cursor.commit(batch);
    }
}

} // verus!
