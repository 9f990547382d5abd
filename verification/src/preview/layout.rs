//! Montage geometry: tile sizes and the shelf layout of tiles on the canvas.
//! Pure arithmetic: pixels are scaled, cropped and drawn elsewhere.

use vstd::prelude::*;

verus! {

/// Standard Open Graph / Twitter `summary_large_image` size (1.91:1).
pub const PREVIEW_WIDTH: u32 = 1200;
pub const PREVIEW_HEIGHT: u32 = 630;

/// Number of equal-width columns: how many tiles sit across a row.
pub const MONTAGE_COLUMNS: u32 = 4;

/// Rows the montage always has room for, even when tiles are tall portraits:
/// tile heights are capped so this many rows fit.
pub const MONTAGE_MIN_ROWS: u32 = 2;

/// Gutter between tiles (and around the montage edges), in pixels.
pub const TILE_GUTTER: u32 = 6;

/// Height of the bottom fade-to-background band, in pixels.
pub const FADE_HEIGHT: u32 = 220;

/// The column width every tile is scaled to: the canvas width less the
/// gutters on each side and between columns, split across the columns.
pub open spec fn spec_target_tile_width(canvas_width: u32) -> nat {
    if canvas_width >= 30 {
        ((canvas_width - 30) / 4) as nat
    } else {
        0
    }
}

/// The tallest a tile may be: the canvas height less the inter-row gutters,
/// split so `MONTAGE_MIN_ROWS` rows always fit.
pub open spec fn spec_max_tile_height(canvas_height: u32) -> nat {
    if canvas_height >= 18 {
        ((canvas_height - 18) / 2) as nat
    } else {
        0
    }
}

pub fn target_tile_width(canvas_width: u32) -> (w: u32)
    ensures
        w == spec_target_tile_width(canvas_width),
{
    canvas_width.saturating_sub((MONTAGE_COLUMNS + 1) * TILE_GUTTER) / MONTAGE_COLUMNS
}

pub fn max_tile_height(canvas_height: u32) -> (h: u32)
    ensures
        h == spec_max_tile_height(canvas_height),
{
    canvas_height.saturating_sub((MONTAGE_MIN_ROWS + 1) * TILE_GUTTER) / MONTAGE_MIN_ROWS
}

/// The height of an image scaled to `target_width` with its aspect ratio kept
/// (rounded down, at least one pixel).
pub open spec fn spec_scaled_height(width: u32, height: u32, target_width: u32) -> nat {
    let w = if width == 0 { 1nat } else { width as nat };
    let h = (target_width as nat * height as nat) / w;
    if h == 0 { 1 } else { h }
}

/// The height of an image of `width`×`height` scaled to `target_width`, its
/// aspect ratio preserved; the result is cast to `u32` as the renderer does
/// (exact whenever it fits).
pub fn scaled_height(width: u32, height: u32, target_width: u32) -> (h: u32)
    ensures
        h == spec_scaled_height(width, height, target_width) as u32,
        spec_scaled_height(width, height, target_width) <= u32::MAX ==> h == spec_scaled_height(
            width,
            height,
            target_width,
        ),
{
    let w: u64 = if width == 0 { 1 } else { width as u64 };
    proof {
        assert(target_width as u64 * height as u64 <= u64::MAX) by (nonlinear_arith)
            requires
                target_width <= u32::MAX,
                height <= u32::MAX,
        ;
    }
    let product: u64 = target_width as u64 * height as u64;
    let q: u64 = product / w;
    let h: u64 = if q == 0 { 1 } else { q };
    h as u32
}

/// Where to centre-crop a scaled tile of `scaled` height down to
/// `max_height`: the top row kept and the height kept. A tile no taller than
/// the cap passes through untouched.
pub fn cap_crop(scaled: u32, max_height: u32) -> (r: (u32, u32))
    ensures
        scaled <= max_height ==> r == (0u32, scaled),
        scaled > max_height ==> r == (((scaled - max_height) / 2) as u32, max_height),
{
    if scaled <= max_height {
        (0, scaled)
    } else {
        ((scaled - max_height) / 2, max_height)
    }
}

/// Where one tile is drawn: the gutter-inset top-left corner and its size.
#[derive(Debug, Clone, Copy, PartialEq, Eq, Structural)]
pub struct Placement {
    pub tile_index: usize,
    pub x: u32,
    pub y: u32,
    pub width: u32,
    pub height: u32,
}

/// Number of rows `n` tiles make.
pub open spec fn row_count(n: nat) -> nat {
    (n + 3) / 4
}

/// One past the last tile index of row `r`.
pub open spec fn row_end(n: nat, r: nat) -> nat {
    if 4 * r + 4 <= n { 4 * r + 4 } else { n }
}

/// The tallest tile among `sizes[lo..hi]` (0 when empty).
pub open spec fn max_height_in(sizes: Seq<(u32, u32)>, lo: int, hi: int) -> nat
    decreases hi - lo,
{
    if hi <= lo {
        0
    } else {
        let m = max_height_in(sizes, lo, hi - 1);
        if sizes[hi - 1].1 as nat > m { sizes[hi - 1].1 as nat } else { m }
    }
}

/// The height of row `r`: its tallest tile.
pub open spec fn row_height(sizes: Seq<(u32, u32)>, r: nat) -> nat {
    max_height_in(sizes, (4 * r) as int, row_end(sizes.len(), r) as int)
}

/// The top of row `r`: a gutter, then each earlier row and its gutter.
pub open spec fn row_top(sizes: Seq<(u32, u32)>, r: nat) -> nat
    decreases r,
{
    if r == 0 {
        6
    } else {
        row_top(sizes, (r - 1) as nat) + row_height(sizes, (r - 1) as nat) + 6
    }
}

/// Row `r` fits on a canvas of height `canvas_height`.
pub open spec fn row_fits(sizes: Seq<(u32, u32)>, canvas_height: u32, r: nat) -> bool {
    row_top(sizes, r) + row_height(sizes, r) + 6 <= canvas_height
}

/// The rows placed from row `r` on: rows are placed in order up to the first
/// that doesn't fit.
pub open spec fn rows_from(sizes: Seq<(u32, u32)>, canvas_height: u32, r: nat) -> nat
    decreases row_count(sizes.len()) - r,
{
    if r >= row_count(sizes.len()) || !row_fits(sizes, canvas_height, r) {
        r
    } else {
        rows_from(sizes, canvas_height, r + 1)
    }
}

/// How many rows of tiles the layout places.
pub open spec fn placed_rows(sizes: Seq<(u32, u32)>, canvas_height: u32) -> nat {
    rows_from(sizes, canvas_height, 0)
}

/// How many tiles the layout places.
pub open spec fn placed_tiles(sizes: Seq<(u32, u32)>, canvas_height: u32) -> nat {
    let k = 4 * placed_rows(sizes, canvas_height);
    if k <= sizes.len() { k } else { sizes.len() }
}

/// The left edge of column `c`.
pub open spec fn column_x(canvas_width: u32, c: nat) -> nat {
    6 + c * (spec_target_tile_width(canvas_width) + 6)
}

/// Tile `i` is placed at its row's top and its column's left edge, unrotated.
pub open spec fn placed_as(p: Placement, sizes: Seq<(u32, u32)>, canvas: (u32, u32), i: int) -> bool {
    &&& p.tile_index == i
    &&& p.x == column_x(canvas.0, (i % 4) as nat)
    &&& p.y == row_top(sizes, (i / 4) as nat)
    &&& p.width == sizes[i].0
    &&& p.height == sizes[i].1
}

/// No row's bottom check can overflow `u32`.
pub open spec fn heights_bounded(sizes: Seq<(u32, u32)>, canvas_height: u32) -> bool {
    forall|i: int| 0 <= i < sizes.len() ==> #[trigger] sizes[i].1 as int + (if canvas_height >= 6 {
        canvas_height as int
    } else {
        6
    }) + 6 <= u32::MAX
}

proof fn lemma_max_height_in(sizes: Seq<(u32, u32)>, lo: int, hi: int)
    requires
        0 <= lo <= hi <= sizes.len(),
    ensures
        forall|i: int| lo <= i < hi ==> sizes[i].1 <= #[trigger] max_height_in(sizes, lo, hi),
        hi > lo ==> exists|i: int| lo <= i < hi && sizes[i].1 == max_height_in(sizes, lo, hi),
        hi == lo ==> max_height_in(sizes, lo, hi) == 0,
    decreases hi - lo,
{
    if hi > lo {
        lemma_max_height_in(sizes, lo, hi - 1);
        let m = max_height_in(sizes, lo, hi - 1);
        if sizes[hi - 1].1 as nat > m {
            assert(sizes[hi - 1].1 == max_height_in(sizes, lo, hi));
        } else if hi - 1 > lo {
            let j = choose|i: int| lo <= i < hi - 1 && sizes[i].1 == max_height_in(sizes, lo, hi - 1);
            assert(lo <= j < hi && sizes[j].1 == max_height_in(sizes, lo, hi));
        } else {
            assert(sizes[lo].1 == max_height_in(sizes, lo, hi));
        }
    }
}

proof fn lemma_rows_from(sizes: Seq<(u32, u32)>, canvas_height: u32, r: nat, stop: nat)
    requires
        r <= stop,
        stop <= row_count(sizes.len()),
        forall|k: nat| r <= k < stop ==> #[trigger] row_fits(sizes, canvas_height, k),
        stop == row_count(sizes.len()) || !row_fits(sizes, canvas_height, stop),
    ensures
        rows_from(sizes, canvas_height, r) == stop,
    decreases stop - r,
{
    if r < stop {
        assert(row_fits(sizes, canvas_height, r));
        lemma_rows_from(sizes, canvas_height, r + 1, stop);
    }
}

proof fn lemma_rows_from_fit(sizes: Seq<(u32, u32)>, canvas_height: u32, r: nat, k: nat)
    requires
        r <= k < rows_from(sizes, canvas_height, r),
    ensures
        row_fits(sizes, canvas_height, k),
        rows_from(sizes, canvas_height, r) <= row_count(sizes.len()),
    decreases row_count(sizes.len()) - r,
{
    if k > r {
        lemma_rows_from_fit(sizes, canvas_height, r + 1, k);
    } else {
        lemma_rows_from_bound(sizes, canvas_height, r);
    }
}

proof fn lemma_rows_from_bound(sizes: Seq<(u32, u32)>, canvas_height: u32, r: nat)
    requires
        r <= row_count(sizes.len()),
    ensures
        r <= rows_from(sizes, canvas_height, r) <= row_count(sizes.len()),
    decreases row_count(sizes.len()) - r,
{
    if r < row_count(sizes.len()) && row_fits(sizes, canvas_height, r) {
        lemma_rows_from_bound(sizes, canvas_height, r + 1);
    }
}

proof fn lemma_row_top_monotone(sizes: Seq<(u32, u32)>, a: nat, b: nat)
    requires
        a < b,
    ensures
        row_top(sizes, a) + row_height(sizes, a) + 6 <= row_top(sizes, b),
    decreases b - a,
{
    if b > a + 1 {
        lemma_row_top_monotone(sizes, a, (b - 1) as nat);
    }
}

/// Lay the tiles out in shelf rows: `MONTAGE_COLUMNS` tiles per row, each row
/// as tall as its tallest tile, rows stacked with a gutter between. Rows that
/// would overflow the canvas are dropped (with every row after them), so the
/// output stays bounded however many tiles are offered.
pub fn plan_layout(sizes: &[(u32, u32)], canvas: (u32, u32)) -> (placements: Vec<Placement>)
    requires
        heights_bounded(sizes@, canvas.1),
    ensures
        placements.len() == placed_tiles(sizes@, canvas.1),
        forall|k: int| 0 <= k < placements.len() ==> placed_as(#[trigger] placements@[k], sizes@, canvas, k),
{
    let (canvas_width, canvas_height) = canvas;
    let column_width = target_tile_width(canvas_width);
    let n = sizes.len();
    let mut placements: Vec<Placement> = Vec::new();
    let mut y: u32 = TILE_GUTTER;
    let mut row: usize = 0;
    let ghost s = sizes@;
    let ghost bound: int = if canvas_height >= 6 { canvas_height as int } else { 6 };
    let rows: usize = n / 4 + if n % 4 == 0 { 0 } else { 1 };
    assert(rows == row_count(n as nat));
    while row < rows
        invariant
            rows == row_count(n as nat),
            s == sizes@,
            n == s.len(),
            heights_bounded(s, canvas_height),
            bound == (if canvas_height >= 6 { canvas_height as int } else { 6 }),
            column_width == spec_target_tile_width(canvas_width),
            canvas_width == canvas.0,
            canvas_height == canvas.1,
            row <= row_count(n as nat),
            y == row_top(s, row as nat),
            y <= bound,
            forall|k: nat| k < row ==> #[trigger] row_fits(s, canvas_height, k),
            placements.len() == (if 4 * row <= n { 4 * row } else { n as int }),
            forall|k: int| 0 <= k < placements.len() ==> placed_as(#[trigger] placements@[k], s, canvas, k),
        decreases n - row,
    {
        let start = row * 4;
        let end = if n - start >= 4 { start + 4 } else { n };
        // The row is as tall as its tallest tile.
        let mut row_h: u32 = 0;
        let mut i = start;
        while i < end
            invariant
                s == sizes@,
                start <= i <= end,
                end <= n,
                n == s.len(),
                row_h == max_height_in(s, start as int, i as int),
            decreases end - i,
        {
            if sizes[i].1 > row_h {
                row_h = sizes[i].1;
            }
            i = i + 1;
        }
        proof {
            lemma_max_height_in(s, start as int, end as int);
            assert(row_h == row_height(s, row as nat));
            if start < end {
                let j = choose|j: int| start <= j < end && s[j].1 == row_h;
                assert(s[j].1 as int + bound + 6 <= u32::MAX);
            }
        }
        if y + row_h + TILE_GUTTER > canvas_height {
            proof {
                lemma_rows_from(s, canvas_height, 0, row as nat);
                assert(placed_rows(s, canvas.1) == row);
                assert(4 * row < n);
                assert(placed_tiles(s, canvas.1) == 4 * row);
            }
            return placements;
        }
        let mut col: usize = 0;
        while col < end - start
            invariant
                s == sizes@,
                n == s.len(),
                start == row * 4,
                end == (if start + 4 <= n { start + 4 } else { n as int }),
                start < end,
                col <= end - start,
                column_width == spec_target_tile_width(canvas_width),
                canvas_width == canvas.0,
                canvas_height == canvas.1,
                y == row_top(s, row as nat),
                placements.len() == start + col,
                forall|k: int| 0 <= k < placements.len() ==> placed_as(#[trigger] placements@[k], s, canvas, k),
            decreases end - start - col,
        {
            let idx = start + col;
            proof {
                assert(column_width as int <= u32::MAX / 4);
                assert(col * (column_width + 6) <= 3 * (u32::MAX / 4 + 6)) by (nonlinear_arith)
                    requires
                        col <= 3,
                        column_width <= u32::MAX / 4,
                ;
                assert(idx % 4 == col && idx / 4 == row) by {
                    assert(idx == row * 4 + col);
                }
            }
            let x = TILE_GUTTER + (col as u32) * (column_width + TILE_GUTTER);
            let ghost before = placements@;
            placements.push(Placement { tile_index: idx, x, y, width: sizes[idx].0, height: sizes[idx].1 });
            proof {
                let p = placements@[idx as int];
                assert(p.tile_index == idx);
                assert(p.y == row_top(s, (idx / 4) as nat));
                assert(p.width == s[idx as int].0);
                assert(p.x == 6 + col * (column_width + 6));
                assert((idx % 4) as nat == col as nat);
                assert(column_width as nat == spec_target_tile_width(canvas.0));
                assert(column_x(canvas.0, col as nat) == 6 + col * (column_width + 6));
                assert(p.x == column_x(canvas.0, (idx % 4) as nat));
                assert(placed_as(placements@[idx as int], s, canvas, idx as int));
                assert forall|k: int| 0 <= k < placements.len() implies placed_as(#[trigger] placements@[k], s, canvas, k) by {
                    if k < idx {
                        assert(placements@[k] == before[k]);
                    }
                }
            }
            col = col + 1;
        }
        y = y + row_h + TILE_GUTTER;
        row = row + 1;
        proof {
            assert(row_fits(s, canvas_height, (row - 1) as nat));
            assert forall|k: nat| k < row implies #[trigger] row_fits(s, canvas_height, k) by {
                if k < row - 1 {
                    assert(row_fits(s, canvas_height, k));
                }
            }
        }
    }
    proof {
        lemma_rows_from(s, canvas_height, 0, row as nat);
    }
    placements
}

/// The layout keeps every placed tile inside the canvas, draws each at its
/// own size (unrotated), and never overlaps two tiles — provided the canvas is
/// wide enough for the gutters and no tile is wider than the column width
/// (as tiles scaled by [`target_tile_width`] are).
pub proof fn lemma_layout_bounded_and_disjoint(sizes: Seq<(u32, u32)>, canvas: (u32, u32))
    requires
        canvas.0 >= 30,
        forall|i: int| 0 <= i < sizes.len() ==> #[trigger] sizes[i].0 <= spec_target_tile_width(canvas.0),
    ensures
        forall|i: int| 0 <= i < placed_tiles(sizes, canvas.1) ==> column_x(canvas.0, (i % 4) as nat)
            + #[trigger] sizes[i].0 <= canvas.0 && row_top(sizes, (i / 4) as nat) + sizes[i].1
            <= canvas.1,
        forall|i: int, j: int| 0 <= i < j < placed_tiles(sizes, canvas.1) ==> !({
            &&& column_x(canvas.0, (i % 4) as nat) < column_x(canvas.0, (j % 4) as nat) + #[trigger] sizes[j].0
            &&& column_x(canvas.0, (j % 4) as nat) < column_x(canvas.0, (i % 4) as nat) + #[trigger] sizes[i].0
            &&& row_top(sizes, (i / 4) as nat) < row_top(sizes, (j / 4) as nat) + sizes[j].1
            &&& row_top(sizes, (j / 4) as nat) < row_top(sizes, (i / 4) as nat) + sizes[i].1
        }),
{
    let cw = spec_target_tile_width(canvas.0);
    let h = canvas.1;
    lemma_rows_from_bound(sizes, h, 0);
    assert forall|i: int| 0 <= i < placed_tiles(sizes, h) implies column_x(canvas.0, (i % 4) as nat)
        + #[trigger] sizes[i].0 <= canvas.0 && row_top(sizes, (i / 4) as nat) + sizes[i].1 <= canvas.1 by {
        let r = (i / 4) as nat;
        let c = (i % 4) as nat;
        assert(c <= 3);
        assert(4 * cw <= canvas.0 - 30);
        assert(c * (cw + 6) <= 3 * (cw + 6)) by (nonlinear_arith)
            requires
                c <= 3,
        ;
        assert(r < placed_rows(sizes, h)) by {
            assert(i < 4 * placed_rows(sizes, h));
        }
        lemma_rows_from_fit(sizes, h, 0, r);
        assert(4 * r <= i < row_end(sizes.len(), r));
        lemma_max_height_in(sizes, (4 * r) as int, row_end(sizes.len(), r) as int);
    }
    assert forall|i: int, j: int| 0 <= i < j < placed_tiles(sizes, h) implies !({
        &&& column_x(canvas.0, (i % 4) as nat) < column_x(canvas.0, (j % 4) as nat) + #[trigger] sizes[j].0
        &&& column_x(canvas.0, (j % 4) as nat) < column_x(canvas.0, (i % 4) as nat) + #[trigger] sizes[i].0
        &&& row_top(sizes, (i / 4) as nat) < row_top(sizes, (j / 4) as nat) + sizes[j].1
        &&& row_top(sizes, (j / 4) as nat) < row_top(sizes, (i / 4) as nat) + sizes[i].1
    }) by {
        let ri = (i / 4) as nat;
        let rj = (j / 4) as nat;
        let ci = (i % 4) as nat;
        let cj = (j % 4) as nat;
        if ri == rj {
            assert(ci < cj);
            assert(ci * (cw + 6) + (cw + 6) <= cj * (cw + 6)) by (nonlinear_arith)
                requires
                    ci < cj,
            ;
        } else {
            assert(ri < rj);
            lemma_row_top_monotone(sizes, ri, rj);
            assert(4 * ri <= i < row_end(sizes.len(), ri));
            lemma_max_height_in(sizes, (4 * ri) as int, row_end(sizes.len(), ri) as int);
        }
    }
}

} // verus!
