//! The firehose resume cursor: where to resume after a reconnect.

use vstd::prelude::*;

verus! {

/// How far to rewind the resume cursor before reconnecting (5 s, in
/// microseconds), so the replayed window overlaps the disconnect boundary
/// rather than leaving a gap. Safe because the sink is idempotent.
pub const RECONNECT_REWIND_MICROS: u64 = 5_000_000;

/// The resume instant, in microseconds since the epoch, for the last
/// observed event time: rewound by [`RECONNECT_REWIND_MICROS`], or `None`
/// when that would precede the epoch.
pub open spec fn spec_cursor_micros(time_us: u64) -> Option<u64> {
    if time_us >= RECONNECT_REWIND_MICROS {
        Some((time_us - RECONNECT_REWIND_MICROS) as u64)
    } else {
        None
    }
}

pub fn cursor_micros(time_us: u64) -> (r: Option<u64>)
    ensures
        r == spec_cursor_micros(time_us),
{
    time_us.checked_sub(RECONNECT_REWIND_MICROS)
}

/// The resume cursor is never after the event it resumes from, moves
/// forward with the event time, and sits exactly the rewind before it.
pub proof fn lemma_cursor_laws(a: u64, b: u64)
    requires
        a >= RECONNECT_REWIND_MICROS,
        b >= RECONNECT_REWIND_MICROS,
    ensures
        spec_cursor_micros(a) matches Some(c) && c <= a && c + RECONNECT_REWIND_MICROS == a,
        a <= b ==> spec_cursor_micros(a).unwrap() <= spec_cursor_micros(b).unwrap(),
{
}

} // verus!

verus! {

/// Some label of the post is among the excluded values.
pub open spec fn spec_has_excluded_label(labels: Seq<String>, excluded: Seq<String>) -> bool {
    exists|i: int, j: int| 0 <= i < labels.len() && 0 <= j < excluded.len() && #[trigger] labels[i]@ == #[trigger] excluded[j]@
}

/// Whether any of a post's self-labels is an excluded value.
pub fn has_excluded_label(labels: &Vec<String>, excluded: &Vec<String>) -> (b: bool)
    ensures
        b == spec_has_excluded_label(labels@, excluded@),
{
    let n = labels.len();
    let m = excluded.len();
    let mut i: usize = 0;
    while i < n
        invariant
            n == labels@.len(),
            m == excluded@.len(),
            i <= n,
            forall|a: int, b: int| 0 <= a < i && 0 <= b < m ==> #[trigger] labels@[a]@ != #[trigger] excluded@[b]@,
        decreases n - i,
    {
        let mut j: usize = 0;
        while j < m
            invariant
                n == labels@.len(),
                m == excluded@.len(),
                i < n,
                j <= m,
                forall|b: int| 0 <= b < j ==> labels@[i as int]@ != #[trigger] excluded@[b]@,
            decreases m - j,
        {
            if crate::text::str_eq(labels[i].as_str(), excluded[j].as_str()) {
                return true;
            }
            j = j + 1;
        }
        i = i + 1;
    }
    false
}

/// The images of a post that yielded a usable blob id, in order.
pub open spec fn usable_images(images: Seq<Option<crate::prune::stages::ImageCandidate>>) -> Seq<
    crate::prune::stages::ImageCandidate,
>
    decreases images.len(),
{
    if images.len() == 0 {
        Seq::empty()
    } else {
        match images.last() {
            Some(c) => usable_images(images.drop_last()).push(c),
            None => usable_images(images.drop_last()),
        }
    }
}

/// The candidate for a newly created post with `images` (each `None` where
/// its blob id could not be read), or `None` when the post carries an
/// excluded self-label, has no images, or none of them is usable.
pub fn skeet_candidate(
    skeet_id: String,
    original_at: i64,
    labels: &Vec<String>,
    excluded: &Vec<String>,
    images: Vec<Option<crate::prune::stages::ImageCandidate>>,
) -> (r: Option<crate::prune::stages::SkeetCandidate>)
    ensures
        (spec_has_excluded_label(labels@, excluded@) || usable_images(images@).len() == 0) ==> r is None,
        !(spec_has_excluded_label(labels@, excluded@) || usable_images(images@).len() == 0) ==> (r matches Some(
            c,
        ) && c.skeet_id@ == skeet_id@ && c.original_at == original_at && c.images@ == usable_images(images@)),
{
    if has_excluded_label(labels, excluded) {
        return None;
    }
    let ghost all = images@;
    let n = images.len();
    let mut rest = images;
    let mut usable: Vec<crate::prune::stages::ImageCandidate> = Vec::new();
    let mut i: usize = 0;
    proof {
        assert(all.take(0) =~= Seq::<Option<crate::prune::stages::ImageCandidate>>::empty());
    }
    while i < n
        invariant
            n == all.len(),
            i <= n,
            rest@ == all.subrange(i as int, n as int),
            usable@ == usable_images(all.take(i as int)),
        decreases n - i,
    {
        let item = rest.remove(0);
        proof {
            assert(rest@ =~= all.subrange(i + 1, n as int));
            assert(all.take(i + 1).drop_last() =~= all.take(i as int));
            assert(item == all[i as int]);
        }
        match item {
            Some(c) => usable.push(c),
            None => {},
        }
        i = i + 1;
    }
    proof {
        assert(all.take(n as int) =~= all);
    }
    if usable.len() == 0 {
        return None;
    }
    Some(crate::prune::stages::SkeetCandidate { skeet_id, original_at, images: usable })
}

} // verus!

verus! {

/// Where the firehose resumes after a reconnect: the time of the last event
/// observed (any event, so a quiet period cannot leave it stale), held in
/// memory only.
pub struct FirehoseCursor {
    last_time_us: Option<u64>,
}

impl FirehoseCursor {
    pub closed spec fn spec_last(&self) -> Option<u64> {
        self.last_time_us
    }

    /// No event observed yet: a connection starts at the live tail.
    pub fn new() -> (c: FirehoseCursor)
        ensures
            c.spec_last() is None,
    {
        FirehoseCursor { last_time_us: None }
    }

    /// Advance past an observed event.
    pub fn observe(&mut self, time_us: u64)
        ensures
            final(self).spec_last() == Some(time_us),
    {
        self.last_time_us = Some(time_us);
    }

    /// The instant to resume from (microseconds since the epoch), rewound
    /// from the last event; `None` before any event or when the rewind would
    /// precede the epoch.
    pub fn resume_micros(&self) -> (r: Option<u64>)
        ensures
            r == (match self.spec_last() {
                Some(t) => spec_cursor_micros(t),
                None => None,
            }),
            r matches Some(c) ==> self.spec_last() matches Some(t) && c <= t,
    {
        match self.last_time_us {
            Some(t) => cursor_micros(t),
            None => None,
        }
    }
}

} // verus!
