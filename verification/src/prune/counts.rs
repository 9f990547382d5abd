//! Content tallies: skeets seen, images examined and saved, and the rejection
//! breakdown. A commutative monoid under [`ContentCounts::merge`].

use vstd::prelude::*;

verus! {

/// Why an image was rejected.
#[derive(Debug, Clone, Copy, PartialEq, Eq, Hash, Structural)]
pub enum Rejection {
    FaceTooSmall,
    TooMuchText,
    BlockedByMetadata,
}

/// The detection category a rejection belongs to.
#[derive(Debug, Clone, Copy, PartialEq, Eq, Hash, Structural)]
pub enum RejectionCategory {
    Face,
    Text,
    Metadata,
}

impl Rejection {
    pub open spec fn spec_category(self) -> RejectionCategory {
        match self {
            Rejection::FaceTooSmall => RejectionCategory::Face,
            Rejection::TooMuchText => RejectionCategory::Text,
            Rejection::BlockedByMetadata => RejectionCategory::Metadata,
        }
    }

    pub fn category(self) -> (c: RejectionCategory)
        ensures
            c == self.spec_category(),
    {
        match self {
            Rejection::FaceTooSmall => RejectionCategory::Face,
            Rejection::TooMuchText => RejectionCategory::Text,
            Rejection::BlockedByMetadata => RejectionCategory::Metadata,
        }
    }

    /// The reason's name, as metrics label it.
    pub open spec fn spec_label(self) -> Seq<char> {
        match self {
            Rejection::FaceTooSmall => "FaceTooSmall"@,
            Rejection::TooMuchText => "TooMuchText"@,
            Rejection::BlockedByMetadata => "BlockedByMetadata"@,
        }
    }

    pub fn as_str(self) -> (s: &'static str)
        ensures
            s@ == self.spec_label(),
    {
        match self {
            Rejection::FaceTooSmall => "FaceTooSmall",
            Rejection::TooMuchText => "TooMuchText",
            Rejection::BlockedByMetadata => "BlockedByMetadata",
        }
    }
}

impl RejectionCategory {
    /// The category's name, as metrics label it.
    pub open spec fn spec_label(self) -> Seq<char> {
        match self {
            RejectionCategory::Face => "Face"@,
            RejectionCategory::Text => "Text"@,
            RejectionCategory::Metadata => "Metadata"@,
        }
    }

    pub fn as_str(self) -> (s: &'static str)
        ensures
            s@ == self.spec_label(),
    {
        match self {
            RejectionCategory::Face => "Face",
            RejectionCategory::Text => "Text",
            RejectionCategory::Metadata => "Metadata",
        }
    }
}

/// `a + b`, capped at `u64::MAX`.
pub open spec fn sat_add(a: u64, b: u64) -> u64 {
    if a + b > u64::MAX { u64::MAX } else { (a + b) as u64 }
}

/// Saturating addition is associative and commutative, with 0 as identity.
pub proof fn lemma_sat_add(a: u64, b: u64, c: u64)
    ensures
        sat_add(sat_add(a, b), c) == sat_add(a, sat_add(b, c)),
        sat_add(a, b) == sat_add(b, a),
        sat_add(a, 0) == a,
        sat_add(0, a) == a,
{
}

/// Counts per rejection reason.
#[derive(Debug, Clone, Copy, PartialEq, Eq, Structural)]
pub struct ReasonCounts {
    pub face_too_small: u64,
    pub too_much_text: u64,
    pub blocked_by_metadata: u64,
}

/// Counts per rejection category.
#[derive(Debug, Clone, Copy, PartialEq, Eq, Structural)]
pub struct CategoryCounts {
    pub face: u64,
    pub text: u64,
    pub metadata: u64,
}

impl ReasonCounts {
    pub open spec fn spec_get(self, r: Rejection) -> u64 {
        match r {
            Rejection::FaceTooSmall => self.face_too_small,
            Rejection::TooMuchText => self.too_much_text,
            Rejection::BlockedByMetadata => self.blocked_by_metadata,
        }
    }

    pub open spec fn spec_merge(self, o: ReasonCounts) -> ReasonCounts {
        ReasonCounts {
            face_too_small: sat_add(self.face_too_small, o.face_too_small),
            too_much_text: sat_add(self.too_much_text, o.too_much_text),
            blocked_by_metadata: sat_add(self.blocked_by_metadata, o.blocked_by_metadata),
        }
    }

    pub fn zero() -> (c: ReasonCounts)
        ensures
            c == (ReasonCounts { face_too_small: 0, too_much_text: 0, blocked_by_metadata: 0 }),
    {
        ReasonCounts { face_too_small: 0, too_much_text: 0, blocked_by_metadata: 0 }
    }

    /// The count for one reason.
    pub fn get(&self, r: Rejection) -> (c: u64)
        ensures
            c == self.spec_get(r),
    {
        match r {
            Rejection::FaceTooSmall => self.face_too_small,
            Rejection::TooMuchText => self.too_much_text,
            Rejection::BlockedByMetadata => self.blocked_by_metadata,
        }
    }

    /// No reason has been counted.
    pub fn is_empty(&self) -> (b: bool)
        ensures
            b == (self.face_too_small == 0 && self.too_much_text == 0 && self.blocked_by_metadata == 0),
    {
        self.face_too_small == 0 && self.too_much_text == 0 && self.blocked_by_metadata == 0
    }

    fn bump(&mut self, r: Rejection)
        requires
            old(self).spec_get(r) < u64::MAX,
        ensures
            forall|k: Rejection| #[trigger] final(self).spec_get(k) == if k == r {
                old(self).spec_get(k) + 1
            } else {
                old(self).spec_get(k) as int
            },
    {
        match r {
            Rejection::FaceTooSmall => self.face_too_small = self.face_too_small + 1,
            Rejection::TooMuchText => self.too_much_text = self.too_much_text + 1,
            Rejection::BlockedByMetadata => self.blocked_by_metadata = self.blocked_by_metadata + 1,
        }
    }

    pub fn merge(self, o: ReasonCounts) -> (c: ReasonCounts)
        ensures
            c == self.spec_merge(o),
    {
        ReasonCounts {
            face_too_small: self.face_too_small.saturating_add(o.face_too_small),
            too_much_text: self.too_much_text.saturating_add(o.too_much_text),
            blocked_by_metadata: self.blocked_by_metadata.saturating_add(o.blocked_by_metadata),
        }
    }
}

impl CategoryCounts {
    pub open spec fn spec_get(self, c: RejectionCategory) -> u64 {
        match c {
            RejectionCategory::Face => self.face,
            RejectionCategory::Text => self.text,
            RejectionCategory::Metadata => self.metadata,
        }
    }

    pub open spec fn spec_merge(self, o: CategoryCounts) -> CategoryCounts {
        CategoryCounts {
            face: sat_add(self.face, o.face),
            text: sat_add(self.text, o.text),
            metadata: sat_add(self.metadata, o.metadata),
        }
    }

    pub fn zero() -> (c: CategoryCounts)
        ensures
            c == (CategoryCounts { face: 0, text: 0, metadata: 0 }),
    {
        CategoryCounts { face: 0, text: 0, metadata: 0 }
    }

    /// The count for one category.
    pub fn get(&self, c: RejectionCategory) -> (n: u64)
        ensures
            n == self.spec_get(c),
    {
        match c {
            RejectionCategory::Face => self.face,
            RejectionCategory::Text => self.text,
            RejectionCategory::Metadata => self.metadata,
        }
    }

    /// No category has been counted.
    pub fn is_empty(&self) -> (b: bool)
        ensures
            b == (self.face == 0 && self.text == 0 && self.metadata == 0),
    {
        self.face == 0 && self.text == 0 && self.metadata == 0
    }

    pub fn merge(self, o: CategoryCounts) -> (c: CategoryCounts)
        ensures
            c == self.spec_merge(o),
    {
        CategoryCounts {
            face: self.face.saturating_add(o.face),
            text: self.text.saturating_add(o.text),
            metadata: self.metadata.saturating_add(o.metadata),
        }
    }
}

/// Rejection counts by reason, by detection category, and by the category
/// that was the sole detection.
#[derive(Debug, Clone, Copy, PartialEq, Eq, Structural)]
pub struct RejectionBreakdown {
    pub by_reason: ReasonCounts,
    pub by_category: CategoryCounts,
    pub by_sole_category: CategoryCounts,
}

impl RejectionBreakdown {
    pub open spec fn spec_merge(self, o: RejectionBreakdown) -> RejectionBreakdown {
        RejectionBreakdown {
            by_reason: self.by_reason.spec_merge(o.by_reason),
            by_category: self.by_category.spec_merge(o.by_category),
            by_sole_category: self.by_sole_category.spec_merge(o.by_sole_category),
        }
    }

    pub fn zero() -> (b: RejectionBreakdown)
        ensures
            b == (RejectionBreakdown {
                by_reason: ReasonCounts { face_too_small: 0, too_much_text: 0, blocked_by_metadata: 0 },
                by_category: CategoryCounts { face: 0, text: 0, metadata: 0 },
                by_sole_category: CategoryCounts { face: 0, text: 0, metadata: 0 },
            }),
    {
        RejectionBreakdown {
            by_reason: ReasonCounts::zero(),
            by_category: CategoryCounts::zero(),
            by_sole_category: CategoryCounts::zero(),
        }
    }

    pub fn merge(self, o: RejectionBreakdown) -> (b: RejectionBreakdown)
        ensures
            b == self.spec_merge(o),
    {
        RejectionBreakdown {
            by_reason: self.by_reason.merge(o.by_reason),
            by_category: self.by_category.merge(o.by_category),
            by_sole_category: self.by_sole_category.merge(o.by_sole_category),
        }
    }
}

/// The pipeline's content tallies. Each pipeline message carries a delta; the
/// sink folds them into one running total.
#[derive(Debug, Clone, Copy, PartialEq, Eq, Structural)]
pub struct ContentCounts {
    pub posts: u64,
    pub images: u64,
    pub saved: u64,
    pub rejected: u64,
    pub rejections: RejectionBreakdown,
}

/// How many of `reasons` equal `r`.
pub open spec fn occurrences(reasons: Seq<Rejection>, r: Rejection) -> nat
    decreases reasons.len(),
{
    if reasons.len() == 0 {
        0
    } else {
        occurrences(reasons.drop_last(), r) + if reasons.last() == r { 1nat } else { 0nat }
    }
}

/// Some reason in `reasons` belongs to category `c`.
pub open spec fn has_category(reasons: Seq<Rejection>, c: RejectionCategory) -> bool {
    exists|i: int| 0 <= i < reasons.len() && #[trigger] reasons[i].spec_category() == c
}

/// Every reason in `reasons` belongs to category `c`, and there is one.
pub open spec fn sole_category(reasons: Seq<Rejection>, c: RejectionCategory) -> bool {
    &&& reasons.len() > 0
    &&& forall|i: int| 0 <= i < reasons.len() ==> #[trigger] reasons[i].spec_category() == c
}

/// The tally of one image rejected for `reasons`.
pub open spec fn spec_rejected(reasons: Seq<Rejection>) -> ContentCounts {
    ContentCounts {
        posts: 0,
        images: 0,
        saved: 0,
        rejected: 1,
        rejections: RejectionBreakdown {
            by_reason: ReasonCounts {
                face_too_small: occurrences(reasons, Rejection::FaceTooSmall) as u64,
                too_much_text: occurrences(reasons, Rejection::TooMuchText) as u64,
                blocked_by_metadata: occurrences(reasons, Rejection::BlockedByMetadata) as u64,
            },
            by_category: CategoryCounts {
                face: if has_category(reasons, RejectionCategory::Face) { 1 } else { 0 },
                text: if has_category(reasons, RejectionCategory::Text) { 1 } else { 0 },
                metadata: if has_category(reasons, RejectionCategory::Metadata) { 1 } else { 0 },
            },
            by_sole_category: CategoryCounts {
                face: if sole_category(reasons, RejectionCategory::Face) { 1 } else { 0 },
                text: if sole_category(reasons, RejectionCategory::Text) { 1 } else { 0 },
                metadata: if sole_category(reasons, RejectionCategory::Metadata) { 1 } else { 0 },
            },
        },
    }
}

proof fn lemma_occurrences_bound(reasons: Seq<Rejection>, r: Rejection)
    ensures
        occurrences(reasons, r) <= reasons.len(),
    decreases reasons.len(),
{
    if reasons.len() > 0 {
        lemma_occurrences_bound(reasons.drop_last(), r);
    }
}

impl ContentCounts {
    /// The combine of two tallies: field-wise saturating addition.
    pub open spec fn spec_merge(self, o: ContentCounts) -> ContentCounts {
        ContentCounts {
            posts: sat_add(self.posts, o.posts),
            images: sat_add(self.images, o.images),
            saved: sat_add(self.saved, o.saved),
            rejected: sat_add(self.rejected, o.rejected),
            rejections: self.rejections.spec_merge(o.rejections),
        }
    }

    /// The empty tally, the identity of [`ContentCounts::merge`].
    pub open spec fn spec_zero() -> ContentCounts {
        ContentCounts {
            posts: 0,
            images: 0,
            saved: 0,
            rejected: 0,
            rejections: RejectionBreakdown {
                by_reason: ReasonCounts { face_too_small: 0, too_much_text: 0, blocked_by_metadata: 0 },
                by_category: CategoryCounts { face: 0, text: 0, metadata: 0 },
                by_sole_category: CategoryCounts { face: 0, text: 0, metadata: 0 },
            },
        }
    }

    pub fn zero() -> (c: ContentCounts)
        ensures
            c == ContentCounts::spec_zero(),
    {
        ContentCounts { posts: 0, images: 0, saved: 0, rejected: 0, rejections: RejectionBreakdown::zero() }
    }

    /// The delta for one observed post that passed metadata: one skeet and
    /// its `images` examined.
    pub fn post(images: u64) -> (c: ContentCounts)
        ensures
            c == (ContentCounts { posts: 1, images, ..ContentCounts::spec_zero() }),
    {
        ContentCounts { posts: 1, images, ..ContentCounts::zero() }
    }

    /// The delta for one image saved to the store.
    pub fn saved() -> (c: ContentCounts)
        ensures
            c == (ContentCounts { saved: 1, ..ContentCounts::spec_zero() }),
    {
        ContentCounts { saved: 1, ..ContentCounts::zero() }
    }

    /// The delta for one rejected image: the headline count, each reason,
    /// each distinct detection category once, and, when one category was the
    /// sole detection, that category's sole tally.
    pub fn rejected(reasons: &[Rejection]) -> (c: ContentCounts)
        ensures
            c == spec_rejected(reasons@),
            c.posts == 0 && c.images == 0 && c.saved == 0,
            c.rejected == 1,
            forall|r: Rejection| #[trigger] c.rejections.by_reason.spec_get(r) == occurrences(reasons@, r),
            forall|k: RejectionCategory| #[trigger] c.rejections.by_category.spec_get(k) == if has_category(
                reasons@,
                k,
            ) {
                1u64
            } else {
                0u64
            },
            forall|k: RejectionCategory| #[trigger] c.rejections.by_sole_category.spec_get(k) == if sole_category(
                reasons@,
                k,
            ) {
                1u64
            } else {
                0u64
            },
    {
        let mut by_reason = ReasonCounts::zero();
        let mut face = false;
        let mut text = false;
        let mut metadata = false;
        let n = reasons.len();
        let mut i: usize = 0;
        while i < n
            invariant
                n == reasons@.len(),
                i <= n,
                forall|r: Rejection| #[trigger] by_reason.spec_get(r) == occurrences(
                    reasons@.subrange(0, i as int),
                    r,
                ),
                face == has_category(reasons@.subrange(0, i as int), RejectionCategory::Face),
                text == has_category(reasons@.subrange(0, i as int), RejectionCategory::Text),
                metadata == has_category(reasons@.subrange(0, i as int), RejectionCategory::Metadata),
            decreases n - i,
        {
            let r = reasons[i];
            let ghost prev = reasons@.subrange(0, i as int);
            let ghost next = reasons@.subrange(0, i + 1);
            assert(next.drop_last() =~= prev);
            assert(next.last() == r);
            proof {
                lemma_occurrences_bound(prev, r);
                assert(occurrences(prev, r) <= i);
            }
            by_reason.bump(r);
            match r.category() {
                RejectionCategory::Face => face = true,
                RejectionCategory::Text => text = true,
                RejectionCategory::Metadata => metadata = true,
            }
            proof {
                assert forall|k: RejectionCategory| has_category(next, k) == (has_category(prev, k)
                    || r.spec_category() == k) by {
                    if has_category(next, k) {
                        let j = choose|j: int| 0 <= j < next.len() && #[trigger] next[j].spec_category() == k;
                        if j < i {
                            assert(prev[j] == next[j]);
                        }
                    }
                    if has_category(prev, k) {
                        let j = choose|j: int| 0 <= j < prev.len() && #[trigger] prev[j].spec_category() == k;
                        assert(next[j] == prev[j]);
                    }
                    if r.spec_category() == k {
                        assert(next[i as int].spec_category() == k);
                    }
                }
            }
            i = i + 1;
        }
        let ghost all = reasons@;
        assert(all.subrange(0, n as int) =~= all);
        let distinct: u64 = (if face { 1 } else { 0 }) + (if text { 1 } else { 0 }) + (if metadata { 1 } else { 0 });
        let by_category = CategoryCounts {
            face: if face { 1 } else { 0 },
            text: if text { 1 } else { 0 },
            metadata: if metadata { 1 } else { 0 },
        };
        let by_sole_category = if distinct == 1 { by_category } else { CategoryCounts::zero() };
        proof {
            assert forall|k: RejectionCategory| #[trigger] by_sole_category.spec_get(k) == if sole_category(all, k) {
                1u64
            } else {
                0u64
            } by {
                if sole_category(all, k) {
                    assert(all[0].spec_category() == k);
                    assert(has_category(all, k));
                    assert forall|k2: RejectionCategory| k2 != k implies !has_category(all, k2) by {
                        if has_category(all, k2) {
                            let j = choose|j: int| 0 <= j < all.len() && #[trigger] all[j].spec_category() == k2;
                            assert(all[j].spec_category() == k);
                        }
                    }
                } else if distinct == 1 && by_category.spec_get(k) == 1 {
                    assert(has_category(all, k));
                    assert forall|j: int| 0 <= j < all.len() implies #[trigger] all[j].spec_category() == k by {
                        let kj = all[j].spec_category();
                        assert(has_category(all, kj));
                    }
                }
            }
        }
        proof {
            assert(by_sole_category.spec_get(RejectionCategory::Face) == by_sole_category.face);
            assert(by_sole_category.spec_get(RejectionCategory::Text) == by_sole_category.text);
            assert(by_sole_category.spec_get(RejectionCategory::Metadata) == by_sole_category.metadata);
            assert(by_reason.spec_get(Rejection::FaceTooSmall) == by_reason.face_too_small);
            assert(by_reason.spec_get(Rejection::TooMuchText) == by_reason.too_much_text);
            assert(by_reason.spec_get(Rejection::BlockedByMetadata) == by_reason.blocked_by_metadata);
        }
        ContentCounts {
            posts: 0,
            images: 0,
            saved: 0,
            rejected: 1,
            rejections: RejectionBreakdown { by_reason, by_category, by_sole_category },
        }
    }

    /// Combine two tallies field-wise (saturating).
    pub fn merge(self, other: ContentCounts) -> (c: ContentCounts)
        ensures
            c == self.spec_merge(other),
    {
        ContentCounts {
            posts: self.posts.saturating_add(other.posts),
            images: self.images.saturating_add(other.images),
            saved: self.saved.saturating_add(other.saved),
            rejected: self.rejected.saturating_add(other.rejected),
            rejections: self.rejections.merge(other.rejections),
        }
    }

    /// Fold `rhs` into this running total.
    pub fn add_assign(&mut self, rhs: &ContentCounts)
        ensures
            *final(self) == old(self).spec_merge(*rhs),
    {
        *self = self.merge(*rhs);
    }
}

impl core::ops::Add for ContentCounts {
    type Output = ContentCounts;

    fn add(self, rhs: ContentCounts) -> (c: ContentCounts) {
        self.merge(rhs)
    }
}

impl vstd::std_specs::ops::AddSpecImpl for ContentCounts {
    open spec fn obeys_add_spec() -> bool {
        true
    }

    open spec fn add_req(self, rhs: ContentCounts) -> bool {
        true
    }

    open spec fn add_spec(self, rhs: ContentCounts) -> ContentCounts {
        self.spec_merge(rhs)
    }
}

impl Default for ContentCounts {
    fn default() -> (c: ContentCounts)
        ensures
            c == ContentCounts::spec_zero(),
    {
        ContentCounts::zero()
    }
}

/// The tallies form a commutative monoid: the empty tally is the identity,
/// and merging is associative and commutative (saturating, so the laws hold
/// for every `u64` without overflow).
pub proof fn lemma_content_counts_monoid(a: ContentCounts, b: ContentCounts, c: ContentCounts)
    ensures
        ContentCounts::spec_zero().spec_merge(a) == a,
        a.spec_merge(ContentCounts::spec_zero()) == a,
        a.spec_merge(b).spec_merge(c) == a.spec_merge(b.spec_merge(c)),
        a.spec_merge(b) == b.spec_merge(a),
{
}

} // verus!
