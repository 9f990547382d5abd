use bobby::preview::layout::{
    cap_crop, max_tile_height, plan_layout, scaled_height, target_tile_width, Placement, PREVIEW_HEIGHT,
    PREVIEW_WIDTH, TILE_GUTTER,
};
use bobby::preview::selection::{select_tiles, ContentSignature, MONTAGE_TILE_COUNT};
use bobby::published::PublishedImage;
use bobby::qr::qr_svg;

fn preview_size() -> (u32, u32) {
    (PREVIEW_WIDTH, PREVIEW_HEIGHT)
}

fn overlaps(a: &Placement, b: &Placement) -> bool {
    a.x < b.x + b.width && b.x < a.x + a.width && a.y < b.y + b.height && b.y < a.y + a.height
}

fn ten_tiles() -> Vec<(u32, u32)> {
    let target = target_tile_width(PREVIEW_WIDTH);
    (0..10).map(|i| (target, [200, 390, 300, 500, 250][i % 5])).collect()
}

#[test]
fn layout_keeps_tiles_in_bounds_unrotated_and_non_overlapping() {
    let sizes = ten_tiles();
    let placements = plan_layout(&sizes, preview_size());

    for p in &placements {
        assert!(
            p.x + p.width <= PREVIEW_WIDTH && p.y + p.height <= PREVIEW_HEIGHT,
            "placement {p:?} escapes the canvas"
        );
        assert_eq!((p.width, p.height), sizes[p.tile_index], "tile {} was rotated by the packer", p.tile_index);
    }
    for (i, a) in placements.iter().enumerate() {
        for b in &placements[i + 1..] {
            assert!(!overlaps(a, b), "placements overlap: {a:?} vs {b:?}");
        }
    }
}

#[test]
fn layout_fits_a_few_tiles_across_the_top_row() {
    let sizes = ten_tiles();
    let placements = plan_layout(&sizes, preview_size());

    let top = placements.iter().map(|p| p.y).min().expect("some placement");
    let across_top = placements.iter().filter(|p| p.y == top).count();
    assert!((3..=4).contains(&across_top), "expected 3–4 tiles across the top, got {across_top}");
}

#[test]
fn layout_drops_rows_that_would_overflow() {
    let sizes = ten_tiles();
    let placements = plan_layout(&sizes, preview_size());
    // Rows of 390 and 500 px tiles fill the canvas; the third row is dropped.
    assert_eq!(placements.len(), 4);
    assert_eq!(placements[0], Placement { tile_index: 0, x: TILE_GUTTER, y: TILE_GUTTER, width: sizes[0].0, height: 200 });
    assert!(plan_layout(&[], preview_size()).is_empty());
}

#[test]
fn tile_sizing_formulas() {
    assert_eq!(target_tile_width(1200), 292);
    assert_eq!(max_tile_height(630), 306);
    assert_eq!(scaled_height(600, 1600, 292), 778);
    assert_eq!(scaled_height(900, 500, 292), 162);
    assert_eq!(scaled_height(0, 10, 292), 2920);
    assert_eq!(scaled_height(1000, 1, 292), 1);
    assert_eq!(cap_crop(778, 306), (236, 306));
    assert_eq!(cap_crop(162, 306), (0, 162));
}

#[test]
fn tall_portraits_are_capped_but_shorter_tiles_pass_through() {
    let width = target_tile_width(PREVIEW_WIDTH);
    let max_height = max_tile_height(PREVIEW_HEIGHT);
    let tall = scaled_height(600, 1600, width);
    assert_eq!(cap_crop(tall, max_height).1, max_height);
    let wide = scaled_height(900, 500, width);
    assert!(cap_crop(wide, max_height).1 < max_height, "landscape should not be capped");
}

fn live_image(seed: char) -> PublishedImage {
    let cid = format!("bafkreibme22gw2h7y2h7tg2fhqotaq{seed}ucnbc24deqo72b6mkl2egezxhvy");
    PublishedImage::unprobed(
        format!("https://cdn.bsky.app/img/feed_thumbnail/plain/did:plc:abc/{cid}@jpeg"),
        format!("v3:{cid}"),
        format!("at://did:plc:abc/app.bsky.feed.post/post{seed}"),
    )
}

fn dead_image(seed: char) -> PublishedImage {
    let mut image = live_image(seed);
    image.image_url_exists = false;
    image
}

fn images(seeds: &str) -> Vec<PublishedImage> {
    seeds.chars().map(live_image).collect()
}

#[test]
fn same_list_yields_the_same_signature() {
    assert_eq!(select_tiles(&images("abcde")).signature, select_tiles(&images("abcde")).signature);
}

#[test]
fn reordering_changes_the_signature() {
    assert_ne!(select_tiles(&images("abcde")).signature, select_tiles(&images("abced")).signature);
}

#[test]
fn changing_a_tile_changes_the_signature() {
    assert_ne!(select_tiles(&images("abcde")).signature, select_tiles(&images("abcdf")).signature);
}

#[test]
fn dead_items_are_excluded_from_selection_and_signature() {
    let mut with_dead = images("abc");
    with_dead.push(dead_image('z'));
    let selection = select_tiles(&with_dead);
    assert_eq!(selection.tile_urls.len(), 3, "dead tile must be dropped");
    assert_eq!(selection.signature, select_tiles(&images("abc")).signature);
}

#[test]
fn selection_is_capped_at_the_tile_count() {
    let twelve = images("abcdefghijkl");
    let selection = select_tiles(&twelve);
    assert_eq!(selection.tile_urls.len(), MONTAGE_TILE_COUNT);

    let mut altered = twelve;
    altered[11] = live_image('z');
    assert_eq!(
        selection.signature,
        select_tiles(&altered).signature,
        "changing an image past the cap must not change the signature"
    );
}

#[test]
fn signature_as_str_is_stable_hex_reflecting_content() {
    let a = select_tiles(&images("abc")).signature;
    let b = select_tiles(&images("abd")).signature;
    assert_eq!(a.as_str().len(), 32, "md5 hex is 32 chars");
    assert!(a.as_str().chars().all(|c| c.is_ascii_hexdigit()));
    assert_ne!(a.as_str(), b.as_str(), "different content must surface as a different string");
}

#[test]
fn tile_urls_follow_published_order() {
    let selection = select_tiles(&images("abc"));
    assert!(selection.tile_urls[0].contains("aucnbc"), "first url is seed a");
    assert!(selection.tile_urls[1].contains("bucnbc"), "second url is seed b");
}

#[test]
fn signature_is_the_md5_of_the_newline_joined_ids() {
    let sig = ContentSignature::of_ids(&vec!["a".to_string(), "b".to_string()]);
    // md5("a\nb\n")
    assert_eq!(sig.as_str(), format!("{:x}", md5::compute("a\nb\n")));
    assert_eq!(ContentSignature::of_ids(&vec![]).as_str(), "d41d8cd98f00b204e9800998ecf8427e");
}

#[test]
fn renders_a_well_formed_svg() {
    let svg = qr_svg("https://bobby.houseofmoran.io/").expect("should encode");
    assert!(svg.contains("<svg"), "output should be an SVG element");
    assert!(svg.contains("</svg>"), "SVG element should be closed");
    assert!(!svg.contains("http://www.w3.org/1999/xlink"), "no external refs");
}

#[test]
fn different_urls_produce_different_codes() {
    let a = qr_svg("https://bobby.houseofmoran.io/").expect("encode a");
    let b = qr_svg("https://bobby-staging.houseofmoran.io/").expect("encode b");
    assert_ne!(a, b, "distinct URLs should encode to distinct QR codes");
}
