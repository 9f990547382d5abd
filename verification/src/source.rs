//! What the feed surfaces read from a published list: the skeleton of unique
//! skeet ids for `getFeedSkeleton`, and the live images for the public page.

use vstd::prelude::*;

use crate::published::PublishedImage;
use crate::statistics::ListStatistics;

verus! {

/// The feed as the Bluesky feed generator sees it: ordered, unique skeet ids
/// plus when the backing list was last refreshed (microseconds since epoch).
#[derive(Debug)]
pub struct FeedSkeleton {
    pub skeet_ids: Vec<String>,
    pub refreshed_at: Option<i64>,
}

/// The full per-image published list (not deduped to skeets) plus when it
/// was last refreshed and its statistics.
#[derive(Debug)]
pub struct PublishedImages {
    pub images: Vec<PublishedImage>,
    pub refreshed_at: Option<i64>,
    pub statistics: Option<ListStatistics>,
}

/// The skeet ids of the live entries, in order, keeping only the first
/// occurrence of each.
pub open spec fn unique_live_skeets(published: Seq<PublishedImage>) -> Seq<Seq<char>>
    decreases published.len(),
{
    if published.len() == 0 {
        Seq::empty()
    } else {
        let prev = unique_live_skeets(published.drop_last());
        let last = published.last();
        if last.spec_is_live() && !prev.contains(last.skeet_id@) {
            prev.push(last.skeet_id@)
        } else {
            prev
        }
    }
}

/// Entry `i` of `published` is live and belongs to skeet `x`.
pub open spec fn live_at(published: Seq<PublishedImage>, i: int, x: Seq<char>) -> bool {
    0 <= i < published.len() && published[i].spec_is_live() && published[i].skeet_id@ == x
}

/// Some entry of `published` before index `j` is live and belongs to skeet `x`.
pub open spec fn live_before(published: Seq<PublishedImage>, j: int, x: Seq<char>) -> bool {
    exists|i: int| i < j && live_at(published, i, x)
}

/// Some entry of `published` is live and belongs to skeet `x`.
pub open spec fn has_live_entry(published: Seq<PublishedImage>, x: Seq<char>) -> bool {
    exists|i: int| live_at(published, i, x)
}

/// What the skeleton is: each skeet at most once; exactly the skeets with a
/// live entry; and in published order, each skeet placed before every skeet
/// whose live entries all come after one of its own.
pub proof fn lemma_skeleton_is_unique_live_skeets(published: Seq<PublishedImage>)
    ensures
        forall|a: int, b: int|
            0 <= a < b < unique_live_skeets(published).len() ==> #[trigger] unique_live_skeets(published)[a]
                != #[trigger] unique_live_skeets(published)[b],
        forall|x: Seq<char>| #[trigger] unique_live_skeets(published).contains(x) <==> exists|i: int|
            live_at(published, i, x),
        forall|a: int, b: int, j: int|
            #![trigger live_at(published, j, unique_live_skeets(published)[b]), unique_live_skeets(published)[a]]
            0 <= a < b < unique_live_skeets(published).len() && live_at(
                published,
                j,
                unique_live_skeets(published)[b],
            ) ==> live_before(published, j, unique_live_skeets(published)[a]),
    decreases published.len(),
{
    let u = unique_live_skeets(published);
    if published.len() > 0 {
        let n = published.len() as int;
        let d = published.drop_last();
        let prev = unique_live_skeets(d);
        let last = published.last();
        lemma_skeleton_is_unique_live_skeets(d);
        assert forall|i: int, x: Seq<char>| live_at(d, i, x) <==> (0 <= i < n - 1 && #[trigger] live_at(published, i, x)) by {
            if 0 <= i < n - 1 {
                assert(d[i] == published[i]);
            }
        }
        assert forall|x: Seq<char>| #[trigger] u.contains(x) <==> exists|i: int| live_at(published, i, x) by {
            if u.contains(x) {
                if prev.contains(x) {
                    let i = choose|i: int| live_at(d, i, x);
                    assert(live_at(published, i, x));
                } else {
                    assert(live_at(published, n - 1, x));
                }
            }
            if exists|i: int| live_at(published, i, x) {
                let i = choose|i: int| live_at(published, i, x);
                if i < n - 1 {
                    assert(live_at(d, i, x));
                    assert(prev.contains(x));
                    if last.spec_is_live() && !prev.contains(last.skeet_id@) {
                        assert(u == prev.push(last.skeet_id@));
                        let k = choose|k: int| 0 <= k < prev.len() && prev[k] == x;
                        assert(u[k] == x);
                    }
                } else {
                    if !prev.contains(x) {
                        assert(u == prev.push(x));
                        assert(u[prev.len() as int] == x);
                    }
                }
            }
        }
        assert forall|a: int, b: int, j: int|
            #![trigger live_at(published, j, u[b]), u[a]]
            0 <= a < b < u.len() && live_at(published, j, u[b]) implies live_before(published, j, u[a]) by {
            assert(prev.contains(prev[a]) || a >= prev.len());
            assert(a < prev.len()) by {
                assert(u.len() <= prev.len() + 1);
            }
            assert(u[a] == prev[a]);
            assert(prev.contains(u[a]));
            let i0 = choose|i: int| live_at(d, i, u[a]);
            if j == n - 1 {
                assert(live_at(published, i0, u[a]));
            } else {
                assert(live_at(d, j, u[b]));
                if b < prev.len() {
                    assert(u[b] == prev[b]);
                    assert(live_at(d, j, prev[b]));
                    assert(live_before(d, j, prev[a]));
                    let i1 = choose|i: int| i < j && live_at(d, i, prev[a]);
                    assert(live_at(published, i1, u[a]));
                } else {
                    assert(prev.contains(u[b]));
                    assert(false);
                }
            }
        }
    } else {
        assert(u.len() == 0);
    }
}

/// The live entries, in order.
pub open spec fn live_entries(published: Seq<PublishedImage>) -> Seq<PublishedImage>
    decreases published.len(),
{
    if published.len() == 0 {
        Seq::empty()
    } else if published.last().spec_is_live() {
        live_entries(published.drop_last()).push(published.last())
    } else {
        live_entries(published.drop_last())
    }
}

fn contains_string(v: &Vec<String>, s: &String) -> (b: bool)
    ensures
        b == v@.map_values(|x: String| x@).contains(s@),
{
    let ghost views = v@.map_values(|x: String| x@);
    let mut i: usize = 0;
    while i < v.len()
        invariant
            i <= v.len(),
            views == v@.map_values(|x: String| x@),
            forall|j: int| 0 <= j < i ==> views[j] != s@,
        decreases v.len() - i,
    {
        if v[i] == *s {
            assert(views[i as int] == s@);
            return true;
        }
        i = i + 1;
    }
    false
}

/// The skeleton's skeet ids: the live entries' skeet ids, deduplicated with
/// the published order preserved.
pub fn skeleton_ids(published: &Vec<PublishedImage>) -> (ids: Vec<String>)
    ensures
        ids@.map_values(|x: String| x@) == unique_live_skeets(published@),
        forall|a: int, b: int| 0 <= a < b < ids@.len() ==> #[trigger] ids@[a]@ != #[trigger] ids@[b]@,
        forall|i: int| 0 <= i < published@.len() && #[trigger] published@[i].spec_is_live() ==> exists|k: int|
            0 <= k < ids@.len() && ids@[k]@ == published@[i].skeet_id@,
        forall|k: int| 0 <= k < ids@.len() ==> has_live_entry(published@, #[trigger] ids@[k]@),
{
    let mut ids: Vec<String> = Vec::new();
    let mut i: usize = 0;
    while i < published.len()
        invariant
            i <= published.len(),
            ids@.map_values(|x: String| x@) == unique_live_skeets(published@.subrange(0, i as int)),
        decreases published.len() - i,
    {
        let item = &published[i];
        let ghost prev = published@.subrange(0, i as int);
        assert(published@.subrange(0, i + 1).drop_last() =~= prev);
        assert(published@.subrange(0, i + 1).last() == *item);
        if item.is_live() && !contains_string(&ids, &item.skeet_id) {
            let id = item.skeet_id.clone();
            ids.push(id);
            assert(ids@.map_values(|x: String| x@) =~= unique_live_skeets(prev).push(item.skeet_id@));
        }
        i = i + 1;
    }
    assert(published@.subrange(0, published.len() as int) =~= published@);
    proof {
        let u = unique_live_skeets(published@);
        let v = ids@.map_values(|x: String| x@);
        lemma_skeleton_is_unique_live_skeets(published@);
        assert forall|a: int, b: int| 0 <= a < b < ids@.len() implies #[trigger] ids@[a]@ != #[trigger] ids@[b]@ by {
            assert(v[a] == ids@[a]@ && v[b] == ids@[b]@);
        }
        assert forall|i: int| 0 <= i < published@.len() && #[trigger] published@[i].spec_is_live() implies exists|k: int|
            0 <= k < ids@.len() && ids@[k]@ == published@[i].skeet_id@ by {
            assert(live_at(published@, i, published@[i].skeet_id@));
            assert(u.contains(published@[i].skeet_id@));
            let k = choose|k: int| 0 <= k < u.len() && u[k] == published@[i].skeet_id@;
            assert(v[k] == ids@[k]@);
        }
        assert forall|k: int| 0 <= k < ids@.len() implies has_live_entry(published@, #[trigger] ids@[k]@) by {
            assert(v[k] == ids@[k]@);
            assert(u[k] == ids@[k]@);
            assert(u.contains(u[k]));
            let i = choose|i: int| live_at(published@, i, u[k]);
            assert(live_at(published@, i, ids@[k]@));
        }
    }
    ids
}

/// Build the skeleton from a published list and its refresh time.
pub fn skeleton(published: &Vec<PublishedImage>, refreshed_at: Option<i64>) -> (s: FeedSkeleton)
    ensures
        s.skeet_ids@.map_values(|x: String| x@) == unique_live_skeets(published@),
        s.refreshed_at == refreshed_at,
{
    FeedSkeleton { skeet_ids: skeleton_ids(published), refreshed_at }
}

/// The live entries of a published list, in published order.
pub fn live_images(published: Vec<PublishedImage>) -> (live: Vec<PublishedImage>)
    ensures
        live@ == live_entries(published@),
{
    let mut live: Vec<PublishedImage> = Vec::new();
    let n = published.len();
    let mut rest = published;
    let ghost all = rest@;
    let mut i: usize = 0;
    while i < n
        invariant
            n == all.len(),
            i <= n,
            rest@ == all.subrange(i as int, n as int),
            live@ == live_entries(all.subrange(0, i as int)),
        decreases n - i,
    {
        let item = rest.remove(0);
        assert(item == all[i as int]);
        assert(all.subrange(0, i + 1).drop_last() =~= all.subrange(0, i as int));
        assert(all.subrange(0, i + 1).last() == item);
        assert(rest@ =~= all.subrange(i + 1, n as int));
        if item.is_live() {
            live.push(item);
        }
        i = i + 1;
    }
    assert(all.subrange(0, n as int) =~= all);
    live
}

} // verus!

verus! {

/// A feed source backed by one published list on the publish server: the
/// server's URL and the list to read.
pub struct RedisFeedSource {
    url: String,
    list: crate::published_list::PublishedList,
}

impl RedisFeedSource {
    pub closed spec fn spec_url(&self) -> Seq<char> {
        self.url@
    }

    pub closed spec fn spec_list(&self) -> crate::published_list::PublishedList {
        self.list
    }

    pub fn new(url: String, order: crate::order::Order, limit: crate::limit::Limit) -> (s: RedisFeedSource)
        ensures
            s.spec_url() == url@,
            s.spec_list().order_of() == order,
            s.spec_list().limit_of() == limit,
    {
        RedisFeedSource { url, list: crate::published_list::PublishedList::new(order, limit) }
    }

    /// The publish server's URL.
    pub fn url(&self) -> (r: &str)
        ensures
            r@ == self.spec_url(),
    {
        self.url.as_str()
    }

    /// The list this source reads.
    pub fn list(&self) -> (r: crate::published_list::PublishedList)
        ensures
            r == self.spec_list(),
    {
        self.list
    }
}

/// The reader behind a fallback source: the server's URL, and a source for
/// the preferred list that also serves the global examined-count read.
pub struct RedisFallbackReader {
    url: String,
    examined_count_reader: RedisFeedSource,
}

impl RedisFallbackReader {
    pub closed spec fn spec_url(&self) -> Seq<char> {
        self.url@
    }

    pub closed spec fn spec_examined_count_reader(&self) -> RedisFeedSource {
        self.examined_count_reader
    }

    pub fn new(url: String, preferred: (crate::order::Order, crate::limit::Limit)) -> (r: RedisFallbackReader)
        ensures
            r.spec_url() == url@,
            r.spec_examined_count_reader().spec_url() == url@,
            r.spec_examined_count_reader().spec_list().order_of() == preferred.0,
            r.spec_examined_count_reader().spec_list().limit_of() == preferred.1,
    {
        let reader_url = crate::text::string_of(url.as_str());
        let examined_count_reader = RedisFeedSource::new(reader_url, preferred.0, preferred.1);
        RedisFallbackReader { url, examined_count_reader }
    }

    /// The publish server's URL.
    pub fn url(&self) -> (r: &str)
        ensures
            r@ == self.spec_url(),
    {
        self.url.as_str()
    }

    /// The source for the single examined-count read.
    pub fn examined_count_reader(&self) -> (r: &RedisFeedSource)
        ensures
            *r == self.spec_examined_count_reader(),
    {
        &self.examined_count_reader
    }

    /// A source for one list of the chain, on the same server.
    pub fn source_for(&self, spec: (crate::order::Order, crate::limit::Limit)) -> (s: RedisFeedSource)
        ensures
            s.spec_url() == self.spec_url(),
            s.spec_list().order_of() == spec.0,
            s.spec_list().limit_of() == spec.1,
    {
        RedisFeedSource::new(crate::text::string_of(self.url.as_str()), spec.0, spec.1)
    }
}

} // verus!
