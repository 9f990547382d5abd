//! One entry of a published list.

use vstd::prelude::*;

verus! {

/// Version of the stored entry format, prefixed onto every redis list name.
///
/// Bumped whenever the stored format changes incompatibly, so a new writer and
/// an old reader use different keys (`v3-recency-48h`) instead of one failing
/// to decode the other's entries.
pub const SCHEMA_VERSION: &'static str = "v3";

/// The width and height of an image, in pixels.
#[derive(Debug, Clone, Copy, PartialEq, Eq, Hash, Structural)]
pub struct Dimensions {
    pub width: u32,
    pub height: u32,
}

/// One published image plus the publisher's last existence verdict.
///
/// Identifiers are held in their canonical text forms: the CDN image URL, the
/// image id (`v3:<cid>`), and the skeet's AT-URI. `skeet_id_exists` and
/// `image_url_exists` are fail-open (a probe that can't conclude leaves them
/// `true`); `image_url_dimensions` is `None` until a probe measured the image.
#[derive(Debug, Clone, PartialEq, Eq)]
pub struct PublishedImage {
    pub image_url: String,
    pub image_id: String,
    pub skeet_id: String,
    pub skeet_id_exists: bool,
    pub image_url_exists: bool,
    pub image_url_dimensions: Option<Dimensions>,
}

impl PublishedImage {
    /// Whether both the skeet and the image still exist, i.e. the entry is shown.
    pub open spec fn spec_is_live(&self) -> bool {
        self.skeet_id_exists && self.image_url_exists
    }

    pub fn is_live(&self) -> (b: bool)
        ensures
            b == self.spec_is_live(),
    {
        self.skeet_id_exists && self.image_url_exists
    }

    /// An image not yet probed: both existence flags default to `true`
    /// (shown until a probe proves otherwise) and the dimensions are unknown.
    pub fn unprobed(image_url: String, image_id: String, skeet_id: String) -> (p: PublishedImage)
        ensures
            p.image_url@ == image_url@,
            p.image_id@ == image_id@,
            p.skeet_id@ == skeet_id@,
            p.skeet_id_exists,
            p.image_url_exists,
            p.image_url_dimensions is None,
    {
        PublishedImage {
            image_url,
            image_id,
            skeet_id,
            skeet_id_exists: true,
            image_url_exists: true,
            image_url_dimensions: None,
        }
    }
}

} // verus!
