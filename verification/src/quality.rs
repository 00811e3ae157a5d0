//! The block quality map: the four block maps folded into one map of five decreasing quality
//! levels, `4` (A, best) down to `0` (F).

use vstd::prelude::*;

use crate::grid::{at, grid_ok, in_grid, lemma_offset};

verus! {

/// How many blocks away the neighbourhood of a block reaches, and the edge margin within which a
/// block is capped at quality `1`.
pub const NEIGHBOR_DELTA: i32 = 2;

/// A block that is low contrast or has an invalid direction.
pub open spec fn bad_cell(dm: Seq<i32>, lc: Seq<i32>, w: int, x: int, y: int) -> bool {
    at(lc, w, x, y) != 0 || at(dm, w, x, y) < 0
}

/// A block of low ridge flow or high curvature.
pub open spec fn weak_cell(lf: Seq<i32>, hc: Seq<i32>, w: int, x: int, y: int) -> bool {
    at(lf, w, x, y) != 0 || at(hc, w, x, y) != 0
}

/// Some block of columns `xa..xb` and rows `ya..yb` is [`bad_cell`].
pub open spec fn bad_in(dm: Seq<i32>, lc: Seq<i32>, w: int, xa: int, xb: int, ya: int, yb: int) -> bool {
    exists|cx: int, cy: int| xa <= cx < xb && ya <= cy < yb && #[trigger] bad_cell(dm, lc, w, cx, cy)
}

/// Some block of columns `xa..xb` and rows `ya..yb` is [`weak_cell`].
pub open spec fn weak_in(lf: Seq<i32>, hc: Seq<i32>, w: int, xa: int, xb: int, ya: int, yb: int) -> bool {
    exists|cx: int, cy: int| xa <= cx < xb && ya <= cy < yb && #[trigger] weak_cell(lf, hc, w, cx, cy)
}

/// The neighbourhood adjustment: `-2` when a bad block is near, else `-1` when a weak one is.
pub open spec fn offset_of(bad: bool, weak: bool) -> int {
    if bad {
        -2
    } else if weak {
        -1
    } else {
        0
    }
}

/// The quality of block `(x, y)`.
///
/// `0` for a low-contrast block or one with an invalid direction; otherwise `1` within
/// [`NEIGHBOR_DELTA`] blocks of the map's edge; otherwise `4`, or `3` for a block of low flow or
/// high curvature, lowered by `2` when a bad block lies within [`NEIGHBOR_DELTA`] (the block
/// itself included), else by `1` when a weak one does.
pub open spec fn quality_at(
    dm: Seq<i32>,
    lc: Seq<i32>,
    lf: Seq<i32>,
    hc: Seq<i32>,
    w: int,
    h: int,
    x: int,
    y: int,
) -> int {
    let d = NEIGHBOR_DELTA as int;
    if bad_cell(dm, lc, w, x, y) {
        0
    } else if y < d || y > h - 1 - d || x < d || x > w - 1 - d {
        1
    } else {
        let base = if weak_cell(lf, hc, w, x, y) {
            3int
        } else {
            4int
        };
        base + offset_of(
            bad_in(dm, lc, w, x - d, x + d + 1, y - d, y + d + 1),
            weak_in(lf, hc, w, x - d, x + d + 1, y - d, y + d + 1),
        )
    }
}

/// Block `(x, y)` lies at least [`NEIGHBOR_DELTA`] blocks inside a `w`×`h` map.
pub open spec fn interior(x: int, y: int, w: int, h: int) -> bool {
    NEIGHBOR_DELTA <= x <= w - 1 - NEIGHBOR_DELTA && NEIGHBOR_DELTA <= y <= h - 1 - NEIGHBOR_DELTA
}

/// Every block within [`NEIGHBOR_DELTA`] of `(x, y)` has contrast, a valid direction, good flow
/// and low curvature.
pub open spec fn clean_around(
    dm: Seq<i32>,
    lc: Seq<i32>,
    lf: Seq<i32>,
    hc: Seq<i32>,
    w: int,
    x: int,
    y: int,
) -> bool {
    forall|cx: int, cy: int|
        x - NEIGHBOR_DELTA <= cx <= x + NEIGHBOR_DELTA && y - NEIGHBOR_DELTA <= cy <= y + NEIGHBOR_DELTA
            ==> #[trigger] at(lc, w, cx, cy) == 0 && at(dm, w, cx, cy) >= 0 && at(lf, w, cx, cy) == 0
            && at(hc, w, cx, cy) == 0
}

/// What each map does to a block's quality, read off the maps themselves:
/// - a low-contrast block, or one without a valid direction, is `0`;
/// - any other block within [`NEIGHBOR_DELTA`] of the edge is `1`;
/// - an interior block of low flow or of high curvature is at most `2` (it is weak itself, and
///   counts as a weak block of its own neighbourhood);
/// - an interior block whose neighbourhood holds a low-flow or high-curvature block is at most `3`;
/// - an interior block whose whole neighbourhood is clean is `4`.
pub proof fn lemma_quality_levels(
    dm: Seq<i32>,
    lc: Seq<i32>,
    lf: Seq<i32>,
    hc: Seq<i32>,
    w: int,
    h: int,
    x: int,
    y: int,
)
    ensures
        (at(lc, w, x, y) != 0 || at(dm, w, x, y) < 0) ==> quality_at(dm, lc, lf, hc, w, h, x, y) == 0,
        (at(lc, w, x, y) == 0 && at(dm, w, x, y) >= 0 && !interior(x, y, w, h)) ==> quality_at(
            dm,
            lc,
            lf,
            hc,
            w,
            h,
            x,
            y,
        ) == 1,
        (at(lc, w, x, y) == 0 && at(dm, w, x, y) >= 0 && interior(x, y, w, h) && (at(lf, w, x, y) != 0
            || at(hc, w, x, y) != 0)) ==> quality_at(dm, lc, lf, hc, w, h, x, y) <= 2,
        forall|cx: int, cy: int|
            at(lc, w, x, y) == 0 && at(dm, w, x, y) >= 0 && interior(x, y, w, h) && x - NEIGHBOR_DELTA <= cx
                <= x + NEIGHBOR_DELTA && y - NEIGHBOR_DELTA <= cy <= y + NEIGHBOR_DELTA && (#[trigger] at(
                lf,
                w,
                cx,
                cy,
            ) != 0 || at(hc, w, cx, cy) != 0) ==> quality_at(dm, lc, lf, hc, w, h, x, y) <= 3,
        (interior(x, y, w, h) && clean_around(dm, lc, lf, hc, w, x, y)) ==> quality_at(
            dm,
            lc,
            lf,
            hc,
            w,
            h,
            x,
            y,
        ) == 4,
{
    let d = NEIGHBOR_DELTA as int;
    if at(lc, w, x, y) == 0 && at(dm, w, x, y) >= 0 && interior(x, y, w, h) {
        if at(lf, w, x, y) != 0 || at(hc, w, x, y) != 0 {
            assert(weak_cell(lf, hc, w, x, y));
            assert(weak_in(lf, hc, w, x - d, x + d + 1, y - d, y + d + 1));
        }
        assert forall|cx: int, cy: int|
            x - d <= cx <= x + d && y - d <= cy <= y + d && (#[trigger] at(lf, w, cx, cy) != 0 || at(hc, w, cx, cy)
                != 0) implies quality_at(dm, lc, lf, hc, w, h, x, y) <= 3 by {
            assert(weak_cell(lf, hc, w, cx, cy));
            assert(weak_in(lf, hc, w, x - d, x + d + 1, y - d, y + d + 1));
        }
    }
    if interior(x, y, w, h) && clean_around(dm, lc, lf, hc, w, x, y) {
        assert(at(lc, w, x, y) == 0 && at(dm, w, x, y) >= 0 && at(lf, w, x, y) == 0 && at(hc, w, x, y) == 0);
        assert(!bad_in(dm, lc, w, x - d, x + d + 1, y - d, y + d + 1)) by {
            if bad_in(dm, lc, w, x - d, x + d + 1, y - d, y + d + 1) {
                let (cx, cy) = choose|cx: int, cy: int|
                    x - d <= cx < x + d + 1 && y - d <= cy < y + d + 1 && #[trigger] bad_cell(dm, lc, w, cx, cy);
                assert(at(lc, w, cx, cy) == 0);
            }
        }
        assert(!weak_in(lf, hc, w, x - d, x + d + 1, y - d, y + d + 1)) by {
            if weak_in(lf, hc, w, x - d, x + d + 1, y - d, y + d + 1) {
                let (cx, cy) = choose|cx: int, cy: int|
                    x - d <= cx < x + d + 1 && y - d <= cy < y + d + 1 && #[trigger] weak_cell(lf, hc, w, cx, cy);
                assert(at(lc, w, cx, cy) == 0);
            }
        }
    }
}

/// The four block maps share the grid.
pub open spec fn maps_ok(
    dm: Seq<i32>,
    lc: Seq<i32>,
    lf: Seq<i32>,
    hc: Seq<i32>,
    w: int,
    h: int,
) -> bool {
    grid_ok(dm.len() as int, w, h) && grid_ok(lc.len() as int, w, h) && grid_ok(lf.len() as int, w, h)
        && grid_ok(hc.len() as int, w, h)
}

/// Whether block `(x, y)` of the four maps is bad (low contrast or invalid direction).
fn is_bad(dm: &[i32], lc: &[i32], w: i32, h: i32, x: i32, y: i32) -> (r: bool)
    requires
        grid_ok(dm@.len() as int, w as int, h as int),
        grid_ok(lc@.len() as int, w as int, h as int),
        in_grid(x as int, y as int, w as int, h as int),
    ensures
        r == bad_cell(dm@, lc@, w as int, x as int, y as int),
{
    proof {
        lemma_offset(x as int, y as int, w as int, h as int);
    }
    let k = (y * w + x) as usize;
    lc[k] != 0 || dm[k] < 0
}

/// Whether block `(x, y)` is weak (low flow or high curvature).
fn is_weak(lf: &[i32], hc: &[i32], w: i32, h: i32, x: i32, y: i32) -> (r: bool)
    requires
        grid_ok(lf@.len() as int, w as int, h as int),
        grid_ok(hc@.len() as int, w as int, h as int),
        in_grid(x as int, y as int, w as int, h as int),
    ensures
        r == weak_cell(lf@, hc@, w as int, x as int, y as int),
{
    proof {
        lemma_offset(x as int, y as int, w as int, h as int);
    }
    let k = (y * w + x) as usize;
    lf[k] != 0 || hc[k] != 0
}

/// The quality of one interior block, scanning its neighbourhood row by row; a bad block ends
/// the scan of its row.
fn block_quality(
    dm: &[i32],
    lc: &[i32],
    lf: &[i32],
    hc: &[i32],
    w: i32,
    h: i32,
    x: i32,
    y: i32,
) -> (q: i32)
    requires
        maps_ok(dm@, lc@, lf@, hc@, w as int, h as int),
        in_grid(x as int, y as int, w as int, h as int),
    ensures
        q == quality_at(dm@, lc@, lf@, hc@, w as int, h as int, x as int, y as int),
{
    let ghost (wi, hi) = (w as int, h as int);
    if is_bad(dm, lc, w, h, x, y) {
        return 0;
    }
    let base: i32 = if is_weak(lf, hc, w, h, x, y) {
        3
    } else {
        4
    };
    if y < NEIGHBOR_DELTA || y > h - 1 - NEIGHBOR_DELTA || x < NEIGHBOR_DELTA || x > w - 1
        - NEIGHBOR_DELTA {
        return 1;
    }
    let ghost (xa, xb, ya) = (x - 2, x + 3, y - 2);
    let mut qual_offset: i32 = 0;
    let mut comp_y = y - NEIGHBOR_DELTA;
    while comp_y <= y + NEIGHBOR_DELTA
        invariant
            maps_ok(dm@, lc@, lf@, hc@, wi, hi),
            wi == w && hi == h,
            2 <= x <= w - 3 && 2 <= y <= h - 3,
            xa == x - 2 && xb == x + 3 && ya == y - 2,
            y - 2 <= comp_y <= y + 3,
            qual_offset == offset_of(
                bad_in(dm@, lc@, wi, xa, xb, ya, comp_y as int),
                weak_in(lf@, hc@, wi, xa, xb, ya, comp_y as int),
            ),
        decreases y + 3 - comp_y,
    {
        let mut comp_x = x - NEIGHBOR_DELTA;
        let mut hit_bad = false;
        while comp_x <= x + NEIGHBOR_DELTA
            invariant_except_break
                !hit_bad,
                qual_offset == offset_of(
                    bad_in(dm@, lc@, wi, xa, xb, ya, comp_y as int) || bad_in(
                        dm@,
                        lc@,
                        wi,
                        xa,
                        comp_x as int,
                        comp_y as int,
                        comp_y + 1,
                    ),
                    weak_in(lf@, hc@, wi, xa, xb, ya, comp_y as int) || weak_in(
                        lf@,
                        hc@,
                        wi,
                        xa,
                        comp_x as int,
                        comp_y as int,
                        comp_y + 1,
                    ),
                ),
            invariant
                maps_ok(dm@, lc@, lf@, hc@, wi, hi),
                wi == w && hi == h,
                2 <= x <= w - 3 && 2 <= y <= h - 3,
                xa == x - 2 && xb == x + 3 && ya == y - 2,
                y - 2 <= comp_y <= y + 2,
                x - 2 <= comp_x <= x + 3,
            ensures
                hit_bad ==> qual_offset == -2 && bad_in(dm@, lc@, wi, xa, xb, ya, comp_y + 1),
                !hit_bad ==> qual_offset == offset_of(
                    bad_in(dm@, lc@, wi, xa, xb, ya, comp_y + 1),
                    weak_in(lf@, hc@, wi, xa, xb, ya, comp_y + 1),
                ),
            decreases x + 3 - comp_x,
        {
            let ghost (cx, cy) = (comp_x as int, comp_y as int);
            if is_bad(dm, lc, w, h, comp_x, comp_y) {
                qual_offset = -2;
                hit_bad = true;
                assert(bad_cell(dm@, lc@, wi, cx, cy));
                break;
            }
            if is_weak(lf, hc, w, h, comp_x, comp_y) {
                if qual_offset > -1 {
                    qual_offset = -1;
                }
                assert(weak_cell(lf@, hc@, wi, cx, cy));
            }
            proof {
                assert(bad_in(dm@, lc@, wi, xa, comp_x + 1, cy, cy + 1) == bad_in(
                    dm@,
                    lc@,
                    wi,
                    xa,
                    cx,
                    cy,
                    cy + 1,
                ));
                if weak_in(lf@, hc@, wi, xa, comp_x + 1, cy, cy + 1) {
                    let (ax, ay) = choose|ax: int, ay: int|
                        xa <= ax < comp_x + 1 && cy <= ay < cy + 1 && #[trigger] weak_cell(
                            lf@,
                            hc@,
                            wi,
                            ax,
                            ay,
                        );
                    if ax < cx {
                        assert(weak_in(lf@, hc@, wi, xa, cx, cy, cy + 1));
                    }
                }
            }
            comp_x += 1;
        }
        comp_y += 1;
    }
    base + qual_offset
}

/// Fold the four block maps into a map of quality levels `0..=4` (see [`quality_at`]).
pub fn gen_quality_map(
    direction_map: &[i32],
    low_contrast_map: &[i32],
    low_flow_map: &[i32],
    high_curve_map: &[i32],
    map_w: i32,
    map_h: i32,
) -> (q: Vec<i32>)
    requires
        maps_ok(
            direction_map@,
            low_contrast_map@,
            low_flow_map@,
            high_curve_map@,
            map_w as int,
            map_h as int,
        ),
    ensures
        q@.len() == map_w * map_h,
        forall|x: int, y: int|
            in_grid(x, y, map_w as int, map_h as int) ==> #[trigger] at(q@, map_w as int, x, y)
                == quality_at(
                direction_map@,
                low_contrast_map@,
                low_flow_map@,
                high_curve_map@,
                map_w as int,
                map_h as int,
                x,
                y,
            ),
        forall|k: int| 0 <= k < q@.len() ==> 0 <= #[trigger] q@[k] <= 4,
        forall|x: int, y: int|
            in_grid(x, y, map_w as int, map_h as int) && (at(low_contrast_map@, map_w as int, x, y) != 0
                || at(direction_map@, map_w as int, x, y) < 0) ==> #[trigger] at(q@, map_w as int, x, y)
                == 0,
        forall|x: int, y: int|
            in_grid(x, y, map_w as int, map_h as int) && at(low_contrast_map@, map_w as int, x, y) == 0
                && at(direction_map@, map_w as int, x, y) >= 0 && interior(x, y, map_w as int, map_h as int)
                && (at(low_flow_map@, map_w as int, x, y) != 0 || at(high_curve_map@, map_w as int, x, y)
                != 0) ==> #[trigger] at(q@, map_w as int, x, y) <= 2,
        forall|x: int, y: int|
            in_grid(x, y, map_w as int, map_h as int) && interior(x, y, map_w as int, map_h as int)
                && clean_around(
                direction_map@,
                low_contrast_map@,
                low_flow_map@,
                high_curve_map@,
                map_w as int,
                x,
                y,
            ) ==> #[trigger] at(q@, map_w as int, x, y) == 4,
{
    let ghost (dm, lc, lf, hc, w, h) = (
        direction_map@,
        low_contrast_map@,
        low_flow_map@,
        high_curve_map@,
        map_w as int,
        map_h as int,
    );
    let mut qual_map: Vec<i32> = Vec::new();
    let mut this_y: i32 = 0;
    while this_y < map_h
        invariant
            maps_ok(dm, lc, lf, hc, w, h),
            dm == direction_map@ && lc == low_contrast_map@ && lf == low_flow_map@ && hc
                == high_curve_map@,
            w == map_w && h == map_h,
            0 <= this_y <= map_h,
            qual_map@.len() == this_y * map_w,
            forall|x: int, y: int|
                in_grid(x, y, w, this_y as int) ==> #[trigger] at(qual_map@, w, x, y)
                    == quality_at(dm, lc, lf, hc, w, h, x, y),
            forall|k: int| 0 <= k < qual_map@.len() ==> 0 <= #[trigger] qual_map@[k] <= 4,
        decreases map_h - this_y,
    {
        let mut this_x: i32 = 0;
        while this_x < map_w
            invariant
                maps_ok(dm, lc, lf, hc, w, h),
                dm == direction_map@ && lc == low_contrast_map@ && lf == low_flow_map@ && hc
                    == high_curve_map@,
                w == map_w && h == map_h,
                0 <= this_y < map_h,
                0 <= this_x <= map_w,
                qual_map@.len() == this_y * map_w + this_x,
                forall|x: int, y: int|
                    in_grid(x, y, w, this_y as int) ==> #[trigger] at(qual_map@, w, x, y)
                        == quality_at(dm, lc, lf, hc, w, h, x, y),
                forall|x: int|
                    0 <= x < this_x ==> #[trigger] at(qual_map@, w, x, this_y as int) == quality_at(
                        dm,
                        lc,
                        lf,
                        hc,
                        w,
                        h,
                        x,
                        this_y as int,
                    ),
                forall|k: int| 0 <= k < qual_map@.len() ==> 0 <= #[trigger] qual_map@[k] <= 4,
            decreases map_w - this_x,
        {
            let q = block_quality(
                direction_map,
                low_contrast_map,
                low_flow_map,
                high_curve_map,
                map_w,
                map_h,
                this_x,
                this_y,
            );
            let ghost before = qual_map@;
            proof {
                assert(0 <= q <= 4);
            }
            qual_map.push(q);
            proof {
                assert forall|x: int, y: int| in_grid(x, y, w, this_y as int) implies #[trigger] at(
                    qual_map@,
                    w,
                    x,
                    y,
                ) == quality_at(dm, lc, lf, hc, w, h, x, y) by {
                    lemma_offset(x, y, w, this_y as int);
                    assert(w * this_y == this_y * map_w) by (nonlinear_arith)
                        requires
                            w == map_w,
                    ;
                    assert(at(before, w, x, y) == quality_at(dm, lc, lf, hc, w, h, x, y));
                    assert(qual_map@[y * w + x] == before[y * w + x]);
                }
                assert forall|x: int| 0 <= x < this_x + 1 implies #[trigger] at(
                    qual_map@,
                    w,
                    x,
                    this_y as int,
                ) == quality_at(dm, lc, lf, hc, w, h, x, this_y as int) by {
                    if x < this_x {
                        assert(at(before, w, x, this_y as int) == quality_at(
                            dm,
                            lc,
                            lf,
                            hc,
                            w,
                            h,
                            x,
                            this_y as int,
                        ));
                        assert(qual_map@[this_y * w + x] == before[this_y * w + x]);
                    }
                }
            }
            this_x += 1;
        }
        proof {
            assert(this_y * map_w + map_w == (this_y + 1) * map_w) by (nonlinear_arith);
            assert forall|x: int, y: int| in_grid(x, y, w, this_y + 1) implies #[trigger] at(
                qual_map@,
                w,
                x,
                y,
            ) == quality_at(dm, lc, lf, hc, w, h, x, y) by {
                if y < this_y {
                    assert(in_grid(x, y, w, this_y as int));
                }
            }
        }
        this_y += 1;
    }
    assert(map_h * map_w == map_w * map_h) by (nonlinear_arith);
    proof {
        assert forall|x: int, y: int| in_grid(x, y, w, h) implies {
            &&& ((at(lc, w, x, y) != 0 || at(dm, w, x, y) < 0) ==> #[trigger] at(qual_map@, w, x, y) == 0)
            &&& ((at(lc, w, x, y) == 0 && at(dm, w, x, y) >= 0 && interior(x, y, w, h) && (at(lf, w, x, y)
                != 0 || at(hc, w, x, y) != 0)) ==> at(qual_map@, w, x, y) <= 2)
            &&& ((interior(x, y, w, h) && clean_around(dm, lc, lf, hc, w, x, y)) ==> at(qual_map@, w, x, y)
                == 4)
        } by {
            lemma_quality_levels(dm, lc, lf, hc, w, h, x, y);
        }
    }
    qual_map
}

/// The sums of the pixels, and of their squares, over the first `n` pixels of row `y` from
/// column `x0`.
pub open spec fn row_sums(b: Seq<u8>, w: int, y: int, x0: int, n: int) -> (int, int)
    decreases n,
{
    if n <= 0 {
        (0, 0)
    } else {
        let (s, q) = row_sums(b, w, y, x0, n - 1);
        let p = at(b, w, x0 + n - 1, y) as int;
        (s + p, q + p * p)
    }
}

/// The sums of the pixels, and of their squares, over the first `rows` rows from `y0` of the
/// `n`-wide band from column `x0`.
pub open spec fn window_sums(b: Seq<u8>, w: int, x0: int, y0: int, n: int, rows: int) -> (int, int)
    decreases rows,
{
    if rows <= 0 {
        (0, 0)
    } else {
        let (s, q) = window_sums(b, w, x0, y0, n, rows - 1);
        let (rs, rq) = row_sums(b, w, y0 + rows - 1, x0, n);
        (s + rs, q + rq)
    }
}

/// The neighbourhood of radius `r` about `(x, y)` lies inside a `w`×`h` image.
pub open spec fn window_inside(x: int, y: int, w: int, h: int, r: int) -> bool {
    !(x < r || x > w - r - 1 || y < r || y > h - r - 1)
}

/// Row sums stay within what `n` pixels can reach.
proof fn lemma_row_sums_bound(b: Seq<u8>, w: int, y: int, x0: int, n: int)
    ensures
        0 <= row_sums(b, w, y, x0, n).0 <= 255 * (if n > 0 { n } else { 0 }),
        0 <= row_sums(b, w, y, x0, n).1 <= 255 * 255 * (if n > 0 { n } else { 0 }),
    decreases n,
{
    if n > 0 {
        lemma_row_sums_bound(b, w, y, x0, n - 1);
        let p = at(b, w, x0 + n - 1, y) as int;
        assert(0 <= p * p <= 255 * 255) by (nonlinear_arith)
            requires
                0 <= p <= 255,
        ;
    }
}

/// The pixel count, sum and sum of squares of the square neighbourhood of radius `radius_pix`
/// about `(x, y)`, or none when it would cross the image's border.
pub fn neighborhood_sums(x: i32, y: i32, idata: &[u8], iw: i32, ih: i32, radius_pix: i32) -> (r:
    Option<(i64, i64, i64)>)
    requires
        grid_ok(idata@.len() as int, iw as int, ih as int),
        0 <= radius_pix <= 0x1000,
    ensures
        !window_inside(x as int, y as int, iw as int, ih as int, radius_pix as int) ==> r is None,
        window_inside(x as int, y as int, iw as int, ih as int, radius_pix as int) ==> (r matches Some(t)
            && t.0 == (2 * radius_pix + 1) * (2 * radius_pix + 1) && (t.1 as int, t.2 as int)
            == window_sums(
            idata@,
            iw as int,
            x - radius_pix,
            y - radius_pix,
            2 * radius_pix + 1,
            2 * radius_pix + 1,
        )),
{
    if x < radius_pix || x > iw - radius_pix - 1 || y < radius_pix || y > ih - radius_pix - 1 {
        return None;
    }
    let ghost (b, w, h) = (idata@, iw as int, ih as int);
    let side = 2 * radius_pix + 1;
    let x0 = x - radius_pix;
    let y0 = y - radius_pix;
    let mut sum_x: i64 = 0;
    let mut sum_xx: i64 = 0;
    let mut row: i32 = 0;
    while row < side
        invariant
            grid_ok(b.len() as int, w, h),
            b == idata@,
            w == iw as int && h == ih as int,
            0 <= x0 && x0 + side <= w,
            0 <= y0 && y0 + side <= h,
            1 <= side <= 0x2001,
            0 <= row <= side,
            (sum_x as int, sum_xx as int) == window_sums(b, w, x0 as int, y0 as int, side as int, row as int),
            0 <= sum_x <= 255 * side * row,
            0 <= sum_xx <= 255 * 255 * side * row,
        decreases side - row,
    {
        let mut col: i32 = 0;
        let mut rs: i64 = 0;
        let mut rq: i64 = 0;
        while col < side
            invariant
                grid_ok(b.len() as int, w, h),
                b == idata@,
                w == iw as int && h == ih as int,
                0 <= x0 && x0 + side <= w,
                0 <= y0 && y0 + side <= h,
                1 <= side <= 0x2001,
                0 <= row < side,
                0 <= col <= side,
                (rs as int, rq as int) == row_sums(b, w, y0 + row, x0 as int, col as int),
                0 <= rs <= 255 * col,
                0 <= rq <= 255 * 255 * col,
            decreases side - col,
        {
            let p = crate::grid::pixel(idata, iw, ih, x0 + col, y0 + row) as i64;
            rs = rs + p;
            assert(0 <= p * p <= 255 * 255) by (nonlinear_arith)
                requires
                    0 <= p <= 255,
            ;
            let pp = p * p;
            assert(pp <= 65025);
            assert(rq <= 65025 * col);
            assert(col < side);
            assert(65025 * col <= 65025 * 0x2001);
            rq = rq + pp;
            col = col + 1;
        }
        assert(255 * side * (row + 1) == 255 * side * row + 255 * side) by (nonlinear_arith);
        assert(255 * 255 * side * (row + 1) == 255 * 255 * side * row + 255 * 255 * side) by (nonlinear_arith);
        assert(255 * 255 * side * side <= 255 * 255 * 0x2001 * 0x2001) by (nonlinear_arith)
            requires
                1 <= side <= 0x2001,
        ;
        assert(255 * 255 * side * (row + 1) <= 255 * 255 * side * side) by (nonlinear_arith)
            requires
                1 <= side,
                row + 1 <= side,
        ;
        assert(255 * side * (row + 1) <= 255 * side * side) by (nonlinear_arith)
            requires
                1 <= side,
                row + 1 <= side,
        ;
        assert(255 * side * side <= 255 * 0x2001 * 0x2001) by (nonlinear_arith)
            requires
                1 <= side <= 0x2001,
        ;
        sum_x = sum_x + rs;
        sum_xx = sum_xx + rq;
        proof {
            assert(window_sums(b, w, x0 as int, y0 as int, side as int, row + 1) == (
                window_sums(b, w, x0 as int, y0 as int, side as int, row as int).0 + row_sums(b, w, y0 + row, x0 as int, side as int).0,
                window_sums(b, w, x0 as int, y0 as int, side as int, row as int).1 + row_sums(b, w, y0 + row, x0 as int, side as int).1,
            ));
        }
        row = row + 1;
    }
    assert(side * side <= 0x2001 * 0x2001) by (nonlinear_arith)
        requires
            1 <= side <= 0x2001,
    ;
    let area = (side as i64) * (side as i64);
    Some((area, sum_x, sum_xx))
}

} // verus!
