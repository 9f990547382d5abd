//! Choosing which published images make up the montage, and fingerprinting
//! that choice so identical selections share a cached image and ETag.

use vstd::prelude::*;

use crate::published::PublishedImage;
use crate::source::live_entries;
use crate::text::push_str;

verus! {

/// How many of the best (first) live images go into the montage.
pub const MONTAGE_TILE_COUNT: usize = 10;

/// The lowercase hex MD5 digest of the UTF-8 encoding of `text`.
pub uninterp spec fn md5_hex(text: Seq<char>) -> Seq<char>;

/// Whether `c` is a lowercase hexadecimal digit.
pub open spec fn is_lower_hex(c: char) -> bool {
    ('0' <= c && c <= '9') || ('a' <= c && c <= 'f')
}

/// Whether `s` has the shape of an MD5 hex digest: 32 lowercase hex digits.
pub open spec fn is_hex_digest(s: Seq<char>) -> bool {
    s.len() == 32 && forall|i: int| 0 <= i < 32 ==> is_lower_hex(#[trigger] s[i])
}

/// `md5::compute` on the string's UTF-8 bytes, formatted `{:x}`: 16 bytes,
/// each as two lowercase hex digits.
#[verifier::external_body]
fn md5_hex_of(text: &str) -> (digest: String)
    ensures
        digest@ == md5_hex(text@),
        digest@.len() == 32,
        forall|i: int| 0 <= i < 32 ==> is_lower_hex(#[trigger] digest@[i]),
{
    format!("{:x}", md5::compute(text))
}

/// Each id followed by a newline, concatenated in order.
pub open spec fn joined_ids(ids: Seq<Seq<char>>) -> Seq<char>
    decreases ids.len(),
{
    if ids.len() == 0 {
        Seq::empty()
    } else {
        joined_ids(ids.drop_last()) + ids.last() + "\n"@
    }
}

/// A short, stable fingerprint of the exact tiles, and their order, that
/// make up a montage: equal signatures mean an identical montage.
#[derive(Debug, Clone, PartialEq, Eq, Hash)]
pub struct ContentSignature(String);

impl ContentSignature {
    pub closed spec fn spec_text(&self) -> Seq<char> {
        self.0@
    }

    /// Fingerprint an ordered sequence of image ids. Order-sensitive.
    pub fn of_ids(ids: &Vec<String>) -> (sig: ContentSignature)
        ensures
            sig.spec_text() == md5_hex(joined_ids(ids@.map_values(|s: String| s@))),
            is_hex_digest(sig.spec_text()),
    {
        let mut joined = String::new();
        let ghost views = ids@.map_values(|s: String| s@);
        let mut i: usize = 0;
        while i < ids.len()
            invariant
                i <= ids.len(),
                views == ids@.map_values(|s: String| s@),
                joined@ == joined_ids(views.subrange(0, i as int)),
            decreases ids.len() - i,
        {
            push_str(&mut joined, ids[i].as_str());
            push_str(&mut joined, "\n");
            assert(views.subrange(0, i + 1).drop_last() =~= views.subrange(0, i as int));
            i = i + 1;
        }
        assert(views.subrange(0, ids.len() as int) =~= views);
        ContentSignature(md5_hex_of(joined.as_str()))
    }

    /// The signature's text (for a signature made by [`Self::of_ids`] or
    /// [`select_tiles`], 32 lowercase hex digits).
    pub fn as_str(&self) -> (s: &str)
        ensures
            s@ == self.spec_text(),
    {
        self.0.as_str()
    }
}

/// The tiles selected for the montage: their thumbnail URLs in best-first
/// order, with the signature of that ordered selection.
pub struct MontageSelection {
    pub tile_urls: Vec<String>,
    pub signature: ContentSignature,
}

/// The live images the montage uses: the first `MONTAGE_TILE_COUNT` live ones.
pub open spec fn selected(images: Seq<PublishedImage>) -> Seq<PublishedImage> {
    let live = live_entries(images);
    if live.len() <= MONTAGE_TILE_COUNT {
        live
    } else {
        live.take(MONTAGE_TILE_COUNT as int)
    }
}

/// Select the montage tiles from a published list: only live items (a dead
/// thumbnail never reaches the montage), at most [`MONTAGE_TILE_COUNT`] in
/// published (best-first) order, fingerprinted by their ordered image ids.
pub fn select_tiles(images: &Vec<PublishedImage>) -> (sel: MontageSelection)
    ensures
        sel.tile_urls@.map_values(|s: String| s@) == selected(images@).map_values(
            |p: PublishedImage| p.image_url@,
        ),
        sel.signature.spec_text() == md5_hex(
            joined_ids(selected(images@).map_values(|p: PublishedImage| p.image_id@)),
        ),
        is_hex_digest(sel.signature.spec_text()),
{
    let mut urls: Vec<String> = Vec::new();
    let mut ids: Vec<String> = Vec::new();
    let ghost all = images@;
    let mut i: usize = 0;
    while i < images.len() && urls.len() < MONTAGE_TILE_COUNT
        invariant
            i <= images.len(),
            all == images@,
            urls.len() == ids.len(),
            urls.len() <= MONTAGE_TILE_COUNT,
            urls.len() == live_entries(all.subrange(0, i as int)).len(),
            forall|k: int| 0 <= k < urls.len() ==> #[trigger] urls@[k]@ == live_entries(
                all.subrange(0, i as int),
            )[k].image_url@,
            forall|k: int| 0 <= k < ids.len() ==> #[trigger] ids@[k]@ == live_entries(
                all.subrange(0, i as int),
            )[k].image_id@,
        decreases images.len() - i,
    {
        let item = &images[i];
        assert(all.subrange(0, i + 1).drop_last() =~= all.subrange(0, i as int));
        assert(all.subrange(0, i + 1).last() == *item);
        if item.is_live() {
            urls.push(item.image_url.clone());
            ids.push(item.image_id.clone());
        }
        i = i + 1;
    }
    proof {
        lemma_live_prefix(all, i as int);
        let sel = selected(all);
        assert(urls@.map_values(|s: String| s@) =~= sel.map_values(|p: PublishedImage| p.image_url@));
        assert(ids@.map_values(|s: String| s@) =~= sel.map_values(|p: PublishedImage| p.image_id@));
    }
    let signature = ContentSignature::of_ids(&ids);
    MontageSelection { tile_urls: urls, signature }
}

/// The live entries of a prefix are a prefix of the live entries; once the
/// prefix holds `MONTAGE_TILE_COUNT` live entries, the selection is fixed.
proof fn lemma_live_prefix(all: Seq<PublishedImage>, i: int)
    requires
        0 <= i <= all.len(),
        i == all.len() || live_entries(all.subrange(0, i)).len() >= MONTAGE_TILE_COUNT,
        live_entries(all.subrange(0, i)).len() <= MONTAGE_TILE_COUNT,
    ensures
        live_entries(all.subrange(0, i)) == selected(all),
{
    lemma_live_entries_prefix(all, i);
    assert(all.subrange(0, all.len() as int) =~= all);
    if i < all.len() {
        let p = live_entries(all.subrange(0, i));
        let full = live_entries(all);
        assert(full.take(p.len() as int) == p);
        assert(p.len() == MONTAGE_TILE_COUNT);
        assert(full.len() >= p.len());
        if full.len() == MONTAGE_TILE_COUNT {
            assert(full.take(MONTAGE_TILE_COUNT as int) =~= full);
        }
    }
}

/// Live entries of a prefix form a prefix of the live entries.
proof fn lemma_live_entries_prefix(all: Seq<PublishedImage>, i: int)
    requires
        0 <= i <= all.len(),
    ensures
        live_entries(all.subrange(0, i)).len() <= live_entries(all).len(),
        live_entries(all).take(live_entries(all.subrange(0, i)).len() as int) == live_entries(
            all.subrange(0, i),
        ),
    decreases all.len() - i,
{
    if i == all.len() {
        assert(all.subrange(0, i) =~= all);
        assert(live_entries(all).take(live_entries(all).len() as int) =~= live_entries(all));
    } else {
        lemma_live_entries_prefix(all, i + 1);
        let a = live_entries(all.subrange(0, i));
        let b = live_entries(all.subrange(0, i + 1));
        assert(all.subrange(0, i + 1).drop_last() =~= all.subrange(0, i));
        let full = live_entries(all);
        if all[i].spec_is_live() {
            assert(b == a.push(all[i]));
            assert(full.take(a.len() as int) =~= full.take(b.len() as int).take(a.len() as int));
            assert(full.take(b.len() as int).take(a.len() as int) =~= b.take(a.len() as int));
            assert(b.take(a.len() as int) =~= a);
        } else {
            assert(b == a);
        }
    }
}

} // verus!

verus! {

/// No id contains a newline.
pub open spec fn newline_free(ids: Seq<Seq<char>>) -> bool {
    forall|i: int, k: int| 0 <= i < ids.len() && 0 <= k < ids[i].len() ==> #[trigger] ids[i][k] != '\n'
}

proof fn lemma_joined_ends_in_newline(ids: Seq<Seq<char>>)
    ensures
        ids.len() > 0 ==> joined_ids(ids).len() > 0 && joined_ids(ids).last() == '\n',
        ids.len() == 0 ==> joined_ids(ids).len() == 0,
{
    reveal_strlit("\n");
}

/// In `p + x`, where `p` is empty or ends in a newline and `x` has none,
/// the last newline is `p`'s last character.
proof fn lemma_last_newline(p: Seq<char>, x: Seq<char>)
    requires
        p.len() == 0 || p.last() == '\n',
        forall|k: int| 0 <= k < x.len() ==> x[k] != '\n',
    ensures
        p.len() == 0 ==> crate::text::index_of_last(p + x, '\n') is None,
        p.len() > 0 ==> crate::text::index_of_last(p + x, '\n') == Some(p.len() - 1),
{
    let s = p + x;
    if p.len() == 0 {
        assert forall|j: int| 0 <= j < s.len() implies s[j] != '\n' by {
            assert(s[j] == x[j]);
        }
        crate::text::lemma_index_of_last_none(s, '\n');
    } else {
        assert(s[p.len() - 1] == '\n');
        assert forall|j: int| p.len() - 1 < j < s.len() implies s[j] != '\n' by {
            assert(s[j] == x[j - p.len()]);
        }
        crate::text::lemma_index_of_last(s, '\n', p.len() - 1);
    }
}

/// The fingerprinted text tells ordered selections apart: newline-free id
/// sequences that join to the same text are the same sequence, so a
/// reordered or changed selection is hashed from a different text.
pub proof fn lemma_joined_ids_injective(a: Seq<Seq<char>>, b: Seq<Seq<char>>)
    requires
        newline_free(a),
        newline_free(b),
        joined_ids(a) == joined_ids(b),
    ensures
        a == b,
    decreases a.len(),
{
    reveal_strlit("\n");
    lemma_joined_ends_in_newline(a);
    lemma_joined_ends_in_newline(b);
    if a.len() == 0 || b.len() == 0 {
        assert(a.len() == 0 && b.len() == 0);
        assert(a =~= b);
    } else {
        let pa = joined_ids(a.drop_last());
        let pb = joined_ids(b.drop_last());
        let x = a.last();
        let y = b.last();
        let s = joined_ids(a);
        assert(s == pa + x + "\n"@);
        assert(joined_ids(b) == pb + y + "\n"@);
        assert(s.drop_last() =~= pa + x);
        assert(joined_ids(b).drop_last() =~= pb + y);
        lemma_joined_ends_in_newline(a.drop_last());
        lemma_joined_ends_in_newline(b.drop_last());
        assert forall|k: int| 0 <= k < x.len() implies x[k] != '\n' by {
            assert(x[k] == a[a.len() - 1][k]);
        }
        assert forall|k: int| 0 <= k < y.len() implies y[k] != '\n' by {
            assert(y[k] == b[b.len() - 1][k]);
        }
        lemma_last_newline(pa, x);
        lemma_last_newline(pb, y);
        assert(pa.len() == pb.len());
        assert(pa =~= s.drop_last().subrange(0, pa.len() as int));
        assert(pb =~= s.drop_last().subrange(0, pb.len() as int));
        assert(x =~= s.drop_last().subrange(pa.len() as int, s.len() - 1));
        assert(y =~= s.drop_last().subrange(pb.len() as int, s.len() - 1));
        assert(newline_free(a.drop_last()));
        assert(newline_free(b.drop_last()));
        lemma_joined_ids_injective(a.drop_last(), b.drop_last());
        assert(a =~= a.drop_last().push(x));
        assert(b =~= b.drop_last().push(y));
    }
}

} // verus!

verus! {

/// A dead image, or any image once the montage is full, leaves the
/// selection (and so the signature) unchanged when it joins the list.
pub proof fn lemma_selection_ignores_dead_and_overflow(images: Seq<PublishedImage>, p: PublishedImage)
    ensures
        !p.spec_is_live() ==> selected(images.push(p)) == selected(images),
        live_entries(images).len() >= MONTAGE_TILE_COUNT ==> selected(images.push(p)) == selected(images),
{
    let grown = images.push(p);
    assert(grown.drop_last() =~= images);
    let before = live_entries(images);
    let after = live_entries(grown);
    if p.spec_is_live() {
        assert(after == before.push(p));
        if before.len() >= MONTAGE_TILE_COUNT {
            assert(after.take(MONTAGE_TILE_COUNT as int) =~= before.take(MONTAGE_TILE_COUNT as int));
            if before.len() == MONTAGE_TILE_COUNT {
                assert(before.take(MONTAGE_TILE_COUNT as int) =~= before);
            }
        }
    } else {
        assert(after == before);
    }
}

} // verus!
