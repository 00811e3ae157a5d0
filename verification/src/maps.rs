//! Block-map rules on integer maps: the eight-neighbourhood of a block, the high-curvature map,
//! the map margin, the search for a valid neighbour block, and the TRUE/FALSE map closing.
//!
//! A direction map holds, per block, a direction on `0..num_directions` or [`INVALID_DIR`].
//! Neighbours are visited in the fixed order NW, N, NE, E, SE, S, SW, W; a neighbour off the map
//! reads as [`INVALID_DIR`].

use vstd::prelude::*;

use crate::contour::INVALID_DIR;
use crate::grid::{at, cell, grid_ok, in_grid, lemma_offset};
use crate::util::{closest_dir_dist, dir_dist};

verus! {

/// A TRUE flag in an integer map.
pub const TRUE: i32 = 1;

/// A FALSE flag in an integer map.
pub const FALSE: i32 = 0;

/// X offset of the `k`-th neighbour in the order NW, N, NE, E, SE, S, SW, W.
pub open spec fn ring_dx(k: int) -> int {
    if k == 0 || k == 6 || k == 7 {
        -1
    } else if k == 1 || k == 5 {
        0
    } else {
        1
    }
}

/// Y offset of the `k`-th neighbour in the order NW, N, NE, E, SE, S, SW, W.
pub open spec fn ring_dy(k: int) -> int {
    if k <= 2 {
        -1
    } else if k == 3 || k == 7 {
        0
    } else {
        1
    }
}

/// The direction at block `(x, y)`, or [`INVALID_DIR`] off the map.
pub open spec fn dir_at(m: Seq<i32>, w: int, h: int, x: int, y: int) -> int {
    if in_grid(x, y, w, h) {
        at(m, w, x, y) as int
    } else {
        INVALID_DIR as int
    }
}

/// The eight neighbour directions of block `(x, y)`, NW first and clockwise.
pub open spec fn ring(m: Seq<i32>, w: int, h: int, x: int, y: int) -> Seq<int> {
    Seq::new(8, |k: int| dir_at(m, w, h, x + ring_dx(k), y + ring_dy(k)))
}

/// How many of the first `n` entries of `s` are valid (non-negative).
pub open spec fn count_valid(s: Seq<int>, n: int) -> int
    decreases n,
{
    if n <= 0 {
        0
    } else {
        count_valid(s, n - 1) + if s[n - 1] >= 0 {
            1int
        } else {
            0int
        }
    }
}

/// The signed turn between two neighbour directions: `+1` for a clockwise turn of at most half
/// the semicircle, `-1` for a larger one, `0` when they are equal or either is invalid.
pub open spec fn turn(dir1: int, dir2: int, ndirs: int) -> int {
    if dir1 != dir2 && dir1 >= 0 && dir2 >= 0 {
        let dist = if dir2 - dir1 < 0 {
            dir2 - dir1 + ndirs
        } else {
            dir2 - dir1
        };
        if dist > ndirs / 2 {
            -1
        } else {
            1
        }
    } else {
        0
    }
}

/// The sum of the turns between the first `n` consecutive pairs of the ring (the last pair closes
/// the ring from W back to NW).
pub open spec fn turns(s: Seq<int>, n: int, ndirs: int) -> int
    decreases n,
{
    if n <= 0 {
        0
    } else {
        turns(s, n - 1, ndirs) + turn(s[n - 1], s[n % 8], ndirs)
    }
}

/// The largest distance from `cur` to the first `n` entries of `s`, starting from `-1`.
pub open spec fn max_dist(cur: int, s: Seq<int>, n: int, ndirs: int) -> int
    decreases n,
{
    if n <= 0 {
        -1
    } else {
        let prev = max_dist(cur, s, n - 1, ndirs);
        let d = dir_dist(cur, s[n - 1], ndirs);
        if d > prev {
            d
        } else {
            prev
        }
    }
}

/// The eight neighbour directions of block `(mx, my)` in the order NW, N, NE, E, SE, S, SW, W,
/// each [`INVALID_DIR`] when off the map.
pub fn neighbor_dirs(imap: &[i32], mx: i32, my: i32, mw: i32, mh: i32) -> (r: [i32; 8])
    requires
        grid_ok(imap@.len() as int, mw as int, mh as int),
        in_grid(mx as int, my as int, mw as int, mh as int),
    ensures
        r@.len() == 8,
        forall|k: int| 0 <= k < 8 ==> #[trigger] r@[k] == ring(imap@, mw as int, mh as int, mx as int, my as int)[k],
{
    let e = mx + 1;
    let w = mx - 1;
    let n = my - 1;
    let s = my + 1;
    let nw = if w >= 0 && n >= 0 {
        cell(imap, mw, mh, w, n)
    } else {
        INVALID_DIR
    };
    let n_v = if n >= 0 {
        cell(imap, mw, mh, mx, n)
    } else {
        INVALID_DIR
    };
    let ne = if n >= 0 && e < mw {
        cell(imap, mw, mh, e, n)
    } else {
        INVALID_DIR
    };
    let e_v = if e < mw {
        cell(imap, mw, mh, e, my)
    } else {
        INVALID_DIR
    };
    let se = if e < mw && s < mh {
        cell(imap, mw, mh, e, s)
    } else {
        INVALID_DIR
    };
    let s_v = if s < mh {
        cell(imap, mw, mh, mx, s)
    } else {
        INVALID_DIR
    };
    let sw = if w >= 0 && s < mh {
        cell(imap, mw, mh, w, s)
    } else {
        INVALID_DIR
    };
    let w_v = if w >= 0 {
        cell(imap, mw, mh, w, my)
    } else {
        INVALID_DIR
    };
    let r = [nw, n_v, ne, e_v, se, s_v, sw, w_v];
    proof {
        let rg = ring(imap@, mw as int, mh as int, mx as int, my as int);
        assert(r@[0] == rg[0] && r@[1] == rg[1] && r@[2] == rg[2] && r@[3] == rg[3]);
        assert(r@[4] == rg[4] && r@[5] == rg[5] && r@[6] == rg[6] && r@[7] == rg[7]);
    }
    r
}

/// Count the eight-neighbours of block `(mx, my)` that hold a valid direction.
pub fn num_valid_8nbrs(imap: &[i32], mx: i32, my: i32, mw: i32, mh: i32) -> (n: i32)
    requires
        grid_ok(imap@.len() as int, mw as int, mh as int),
        in_grid(mx as int, my as int, mw as int, mh as int),
    ensures
        n == count_valid(ring(imap@, mw as int, mh as int, mx as int, my as int), 8),
        0 <= n <= 8,
{
    let nb = neighbor_dirs(imap, mx, my, mw, mh);
    let ghost rg = ring(imap@, mw as int, mh as int, mx as int, my as int);
    let mut nvalid: i32 = 0;
    let mut k: usize = 0;
    while k < 8
        invariant
            k <= 8,
            nb@.len() == 8,
            forall|j: int| 0 <= j < 8 ==> #[trigger] nb@[j] == rg[j],
            nvalid == count_valid(rg, k as int),
            0 <= nvalid <= k,
        decreases 8 - k,
    {
        if nb[k] >= 0 {
            nvalid += 1;
        }
        k += 1;
    }
    nvalid
}

/// Accumulate the signed turn from `dir1` to `dir2` into `vmeasure` (see [`turn`]).
pub fn accum_nbr_vorticity(vmeasure: &mut i32, dir1: i32, dir2: i32, ndirs: i32)
    requires
        i32::MIN < *old(vmeasure) < i32::MAX,
        0 <= ndirs,
    ensures
        *final(vmeasure) == *old(vmeasure) + turn(dir1 as int, dir2 as int, ndirs as int),
{
    if dir1 != dir2 && dir1 >= 0 && dir2 >= 0 {
        let mut dist = dir2 - dir1;
        if dist < 0 {
            dist += ndirs;
        }
        if dist > ndirs / 2 {
            *vmeasure -= 1;
        } else {
            *vmeasure += 1;
        }
    }
}

/// The cumulative turning of a block's eight neighbours walked as a ring: NW-N, N-NE, NE-E,
/// E-SE, SE-S, S-SW, SW-W, W-NW.
pub fn vorticity(imap: &[i32], mx: i32, my: i32, mw: i32, mh: i32, ndirs: i32) -> (v: i32)
    requires
        grid_ok(imap@.len() as int, mw as int, mh as int),
        in_grid(mx as int, my as int, mw as int, mh as int),
        0 <= ndirs,
    ensures
        v == turns(ring(imap@, mw as int, mh as int, mx as int, my as int), 8, ndirs as int),
        -8 <= v <= 8,
{
    let nb = neighbor_dirs(imap, mx, my, mw, mh);
    let ghost rg = ring(imap@, mw as int, mh as int, mx as int, my as int);
    let mut vmeasure: i32 = 0;
    let mut k: usize = 0;
    while k < 8
        invariant
            k <= 8,
            nb@.len() == 8,
            0 <= ndirs,
            forall|j: int| 0 <= j < 8 ==> #[trigger] nb@[j] == rg[j],
            vmeasure == turns(rg, k as int, ndirs as int),
            -(k as int) <= vmeasure <= k,
        decreases 8 - k,
    {
        let next = (k + 1) % 8;
        accum_nbr_vorticity(&mut vmeasure, nb[k], nb[next], ndirs);
        k += 1;
    }
    vmeasure
}

/// The largest wrap-aware distance between block `(mx, my)`'s direction and any neighbour's, or
/// `-1` when the block or all of its neighbours are invalid.
pub fn curvature(imap: &[i32], mx: i32, my: i32, mw: i32, mh: i32, ndirs: i32) -> (c: i32)
    requires
        grid_ok(imap@.len() as int, mw as int, mh as int),
        in_grid(mx as int, my as int, mw as int, mh as int),
        0 <= ndirs,
    ensures
        c == max_dist(
            at(imap@, mw as int, mx as int, my as int) as int,
            ring(imap@, mw as int, mh as int, mx as int, my as int),
            8,
            ndirs as int,
        ),
{
    let nb = neighbor_dirs(imap, mx, my, mw, mh);
    let ghost rg = ring(imap@, mw as int, mh as int, mx as int, my as int);
    let cur = cell(imap, mw, mh, mx, my);
    proof {
        lemma_offset(mx as int, my as int, mw as int, mh as int);
    }
    let mut cmeasure: i32 = -1;
    let mut k: usize = 0;
    while k < 8
        invariant
            k <= 8,
            nb@.len() == 8,
            0 <= ndirs,
            forall|j: int| 0 <= j < 8 ==> #[trigger] nb@[j] == rg[j],
            cmeasure == max_dist(cur as int, rg, k as int, ndirs as int),
        decreases 8 - k,
    {
        let dist = closest_dir_dist(cur, nb[k], ndirs);
        if dist > cmeasure {
            cmeasure = dist;
        }
        k += 1;
    }
    cmeasure
}

/// The thresholds of the high-curvature test.
pub struct CurveParams {
    /// Directions in the semicircle.
    pub num_directions: i32,
    /// Valid neighbours needed before vorticity is measured.
    pub vort_valid_nbr_min: i32,
    /// Vorticity at or above which an invalid block is high curvature.
    pub highcurv_vorticity_min: i32,
    /// Curvature at or above which a valid block is high curvature.
    pub highcurv_curvature_min: i32,
}

/// Whether block `(x, y)` is near a core or delta: it has a valid neighbour, and either its own
/// direction is invalid while enough neighbours are valid and their vorticity is high, or its
/// direction is valid and its curvature is high.
pub open spec fn high_curve_at(m: Seq<i32>, w: int, h: int, x: int, y: int, p: CurveParams) -> i32 {
    let rg = ring(m, w, h, x, y);
    let nv = count_valid(rg, 8);
    if nv > 0 {
        if at(m, w, x, y) == INVALID_DIR {
            if nv >= p.vort_valid_nbr_min && turns(rg, 8, p.num_directions as int)
                >= p.highcurv_vorticity_min {
                TRUE
            } else {
                FALSE
            }
        } else if max_dist(at(m, w, x, y) as int, rg, 8, p.num_directions as int)
            >= p.highcurv_curvature_min {
            TRUE
        } else {
            FALSE
        }
    } else {
        FALSE
    }
}

/// Flag the blocks near cores and deltas as high curvature (see [`high_curve_at`]).
pub fn gen_high_curve_map(direction_map: &[i32], mw: i32, mh: i32, p: &CurveParams) -> (hc: Vec<
    i32,
>)
    requires
        grid_ok(direction_map@.len() as int, mw as int, mh as int),
        0 <= p.num_directions,
    ensures
        hc@.len() == mw * mh,
        forall|x: int, y: int|
            in_grid(x, y, mw as int, mh as int) ==> #[trigger] at(hc@, mw as int, x, y)
                == high_curve_at(direction_map@, mw as int, mh as int, x, y, *p),
{
    let ghost (w, h) = (mw as int, mh as int);
    let mut high_curve_map: Vec<i32> = Vec::new();
    let mut by: i32 = 0;
    while by < mh
        invariant
            grid_ok(direction_map@.len() as int, mw as int, mh as int),
            0 <= p.num_directions,
            w == mw && h == mh,
            0 <= by <= mh,
            high_curve_map@.len() == by * mw,
            forall|x: int, y: int|
                in_grid(x, y, w, by as int) ==> #[trigger] at(high_curve_map@, w, x, y)
                    == high_curve_at(direction_map@, w, h, x, y, *p),
        decreases mh - by,
    {
        let mut bx: i32 = 0;
        while bx < mw
            invariant
                grid_ok(direction_map@.len() as int, mw as int, mh as int),
                0 <= p.num_directions,
                w == mw && h == mh,
                0 <= by < mh,
                0 <= bx <= mw,
                high_curve_map@.len() == by * mw + bx,
                forall|x: int, y: int|
                    in_grid(x, y, w, by as int) ==> #[trigger] at(high_curve_map@, w, x, y)
                        == high_curve_at(direction_map@, w, h, x, y, *p),
                forall|x: int| 0 <= x < bx ==> #[trigger] at(high_curve_map@, w, x, by as int)
                    == high_curve_at(direction_map@, w, h, x, by as int, *p),
            decreases mw - bx,
        {
            proof {
                lemma_offset(bx as int, by as int, w, h);
            }
            let nvalid = num_valid_8nbrs(direction_map, bx, by, mw, mh);
            let mut flag = FALSE;
            if nvalid > 0 {
                if cell(direction_map, mw, mh, bx, by) == INVALID_DIR {
                    if nvalid >= p.vort_valid_nbr_min {
                        let vmeasure = vorticity(direction_map, bx, by, mw, mh, p.num_directions);
                        if vmeasure >= p.highcurv_vorticity_min {
                            flag = TRUE;
                        }
                    }
                } else {
                    let cmeasure = curvature(direction_map, bx, by, mw, mh, p.num_directions);
                    if cmeasure >= p.highcurv_curvature_min {
                        flag = TRUE;
                    }
                }
            }
            let ghost before = high_curve_map@;
            high_curve_map.push(flag);
            proof {
                assert forall|x: int, y: int| in_grid(x, y, w, by as int) implies #[trigger] at(
                    high_curve_map@,
                    w,
                    x,
                    y,
                ) == high_curve_at(direction_map@, w, h, x, y, *p) by {
                    lemma_offset(x, y, w, by as int);
                    assert(w * by == by * mw) by (nonlinear_arith)
                        requires
                            w == mw,
                    ;
                    assert(y * w + x < before.len());
                    assert(at(before, w, x, y) == high_curve_at(direction_map@, w, h, x, y, *p));
                    assert(high_curve_map@[y * w + x] == before[y * w + x]);
                }
                assert forall|x: int| 0 <= x < bx + 1 implies #[trigger] at(
                    high_curve_map@,
                    w,
                    x,
                    by as int,
                ) == high_curve_at(direction_map@, w, h, x, by as int, *p) by {
                    if x < bx {
                        assert(at(high_curve_map@, w, x, by as int) == at(before, w, x, by as int));
                    }
                }
            }
            bx += 1;
        }
        proof {
            assert(by * mw + mw == (by + 1) * mw) by (nonlinear_arith);
            assert forall|x: int, y: int| in_grid(x, y, w, by + 1) implies #[trigger] at(
                high_curve_map@,
                w,
                x,
                y,
            ) == high_curve_at(direction_map@, w, h, x, y, *p) by {
                if y == by {
                } else {
                    assert(in_grid(x, y, w, by as int));
                }
            }
        }
        by += 1;
    }
    assert(mh * mw == mw * mh) by (nonlinear_arith);
    high_curve_map
}

/// Whether `(x, y)` lies on the outer ring of a `w`×`h` map.
pub open spec fn on_margin(x: int, y: int, w: int, h: int) -> bool {
    x == 0 || x == w - 1 || y == 0 || y == h - 1
}

/// Set the map's whole perimeter to `margin_value`, leaving the interior as it was.
pub fn set_margin_blocks(map: &mut [i32], mw: i32, mh: i32, margin_value: i32)
    requires
        grid_ok(old(map)@.len() as int, mw as int, mh as int),
    ensures
        final(map)@.len() == old(map)@.len(),
        forall|x: int, y: int|
            in_grid(x, y, mw as int, mh as int) ==> #[trigger] at(final(map)@, mw as int, x, y) == if on_margin(
                x,
                y,
                mw as int,
                mh as int,
            ) {
                margin_value
            } else {
                at(old(map)@, mw as int, x, y)
            },
        forall|k: int| mw * mh <= k < old(map)@.len() ==> #[trigger] final(map)@[k] == old(map)@[k],
{
    let ghost (w, h) = (mw as int, mh as int);
    let ghost m0 = map@;
    let mut x: i32 = 0;
    while x < mw
        invariant
            grid_ok(map@.len() as int, w, h),
            w == mw && h == mh,
            map@.len() == m0.len(),
            0 <= x <= mw,
            forall|k: int| w * h <= k < m0.len() ==> #[trigger] map@[k] == m0[k],
            forall|cx: int, cy: int|
                in_grid(cx, cy, w, h) ==> #[trigger] at(map@, w, cx, cy) == if (cy == 0 || cy == h
                    - 1) && cx < x {
                    margin_value
                } else {
                    at(m0, w, cx, cy)
                },
        decreases mw - x,
    {
        proof {
            lemma_offset(x as int, 0, w, h);
            lemma_offset(x as int, h - 1, w, h);
        }
        let ghost before = map@;
        map[x as usize] = margin_value;
        map[((mh - 1) * mw + x) as usize] = margin_value;
        proof {
            assert forall|cx: int, cy: int| in_grid(cx, cy, w, h) implies #[trigger] at(map@, w, cx, cy)
                == if (cy == 0 || cy == h - 1) && cx < x + 1 {
                margin_value
            } else {
                at(m0, w, cx, cy)
            } by {
                lemma_offset(cx, cy, w, h);
                if cx == x && (cy == 0 || cy == h - 1) {
                } else {
                    if cy * w + cx == x as int {
                        crate::grid::lemma_offset_injective(cx, cy, x as int, 0, w, h);
                    }
                    if cy * w + cx == (h - 1) * w + x {
                        crate::grid::lemma_offset_injective(cx, cy, x as int, h - 1, w, h);
                    }
                    assert(at(map@, w, cx, cy) == at(before, w, cx, cy));
                }
            }
        }
        x += 1;
    }
    let mut y: i32 = 1;
    while y < mh - 1
        invariant
            grid_ok(map@.len() as int, w, h),
            w == mw && h == mh,
            map@.len() == m0.len(),
            1 <= y,
            y <= mh - 1 || mh == 1,
            forall|k: int| w * h <= k < m0.len() ==> #[trigger] map@[k] == m0[k],
            forall|cx: int, cy: int|
                in_grid(cx, cy, w, h) ==> #[trigger] at(map@, w, cx, cy) == if cy == 0 || cy == h
                    - 1 || ((cx == 0 || cx == w - 1) && cy < y) {
                    margin_value
                } else {
                    at(m0, w, cx, cy)
                },
        decreases mh - y,
    {
        proof {
            lemma_offset(0, y as int, w, h);
            lemma_offset(w - 1, y as int, w, h);
        }
        let ghost before = map@;
        map[(y * mw) as usize] = margin_value;
        map[(y * mw + mw - 1) as usize] = margin_value;
        proof {
            assert forall|cx: int, cy: int| in_grid(cx, cy, w, h) implies #[trigger] at(map@, w, cx, cy)
                == if cy == 0 || cy == h - 1 || ((cx == 0 || cx == w - 1) && cy < y + 1) {
                margin_value
            } else {
                at(m0, w, cx, cy)
            } by {
                lemma_offset(cx, cy, w, h);
                if cy == y && (cx == 0 || cx == w - 1) {
                } else {
                    if cy * w + cx == y * w {
                        crate::grid::lemma_offset_injective(cx, cy, 0, y as int, w, h);
                    }
                    if cy * w + cx == y * w + w - 1 {
                        crate::grid::lemma_offset_injective(cx, cy, w - 1, y as int, w, h);
                    }
                    assert(at(map@, w, cx, cy) == at(before, w, cx, cy));
                }
            }
        }
        y += 1;
    }
}

/// How far a walk from `(x, y)` by `(dx, dy)` can still go before it leaves a `w`×`h` map.
pub open spec fn walk_room(w: int, h: int, x: int, y: int, dx: int, dy: int) -> int {
    if dx > 0 {
        w - x
    } else if dx < 0 {
        x + 1
    } else if dy > 0 {
        h - y
    } else {
        y + 1
    }
}

/// A unit step in one of the eight directions (not standing still).
pub open spec fn unit_step(dx: int, dy: int) -> bool {
    -1 <= dx <= 1 && -1 <= dy <= 1 && !(dx == 0 && dy == 0)
}

/// The first block met stepping from `(x, y)` by `(dx, dy)` (not counting `(x, y)` itself) that
/// holds a valid direction, as `(direction, x, y)`; none if the walk first leaves the map or meets
/// a low-contrast block.
pub open spec fn valid_block_from(
    dm: Seq<i32>,
    lc: Seq<i32>,
    w: int,
    h: int,
    x: int,
    y: int,
    dx: int,
    dy: int,
) -> Option<(int, int, int)>
    decreases walk_room(w, h, x, y, dx, dy),
    when unit_step(dx, dy)
{
    let nx = x + dx;
    let ny = y + dy;
    if !in_grid(nx, ny, w, h) {
        None
    } else if at(lc, w, nx, ny) != 0 {
        None
    } else if at(dm, w, nx, ny) >= 0 {
        Some((at(dm, w, nx, ny) as int, nx, ny))
    } else {
        valid_block_from(dm, lc, w, h, nx, ny, dx, dy)
    }
}

/// Search from `start` along `incr` for the first block with a valid direction, stopping at a
/// low-contrast block or the map's edge; the block found is returned as `(dir, x, y)`.
pub fn find_valid_block(
    direction_map: &[i32],
    low_contrast_map: &[i32],
    start: (i32, i32),
    dims: (i32, i32),
    incr: (i32, i32),
) -> (r: Option<(i32, i32, i32)>)
    requires
        grid_ok(direction_map@.len() as int, dims.0 as int, dims.1 as int),
        grid_ok(low_contrast_map@.len() as int, dims.0 as int, dims.1 as int),
        in_grid(start.0 as int, start.1 as int, dims.0 as int, dims.1 as int),
        unit_step(incr.0 as int, incr.1 as int),
    ensures
        r matches Some(t) ==> valid_block_from(
            direction_map@,
            low_contrast_map@,
            dims.0 as int,
            dims.1 as int,
            start.0 as int,
            start.1 as int,
            incr.0 as int,
            incr.1 as int,
        ) == Some((t.0 as int, t.1 as int, t.2 as int)),
        r is None ==> valid_block_from(
            direction_map@,
            low_contrast_map@,
            dims.0 as int,
            dims.1 as int,
            start.0 as int,
            start.1 as int,
            incr.0 as int,
            incr.1 as int,
        ) is None,
{
    let (mw, mh) = dims;
    let ghost (dm, lc, w, h) = (direction_map@, low_contrast_map@, mw as int, mh as int);
    let ghost (dx, dy) = (incr.0 as int, incr.1 as int);
    let ghost whole = valid_block_from(dm, lc, w, h, start.0 as int, start.1 as int, dx, dy);
    let mut x = start.0 + incr.0;
    let mut y = start.1 + incr.1;
    while x >= 0 && x < mw && y >= 0 && y < mh
        invariant
            grid_ok(dm.len() as int, w, h),
            grid_ok(lc.len() as int, w, h),
            dm == direction_map@ && lc == low_contrast_map@,
            w == mw && h == mh,
            dx == incr.0 && dy == incr.1,
            unit_step(dx, dy),
            -1 <= x <= mw && -1 <= y <= mh,
            in_grid(x - dx, y - dy, w, h),
            whole == valid_block_from(dm, lc, w, h, x - dx, y - dy, dx, dy),
            whole == valid_block_from(
                direction_map@,
                low_contrast_map@,
                dims.0 as int,
                dims.1 as int,
                start.0 as int,
                start.1 as int,
                incr.0 as int,
                incr.1 as int,
            ),
        decreases walk_room(w, h, x as int, y as int, dx, dy) + 1,
    {
        proof {
            assert(unit_step(dx, dy));
            assert(valid_block_from(dm, lc, w, h, x - dx, y - dy, dx, dy) == if at(lc, w, x as int, y as int) != 0 {
                None
            } else if at(dm, w, x as int, y as int) >= 0 {
                Some((at(dm, w, x as int, y as int) as int, x as int, y as int))
            } else {
                valid_block_from(dm, lc, w, h, x as int, y as int, dx, dy)
            });
        }
        if cell(low_contrast_map, mw, mh, x, y) != 0 {
            assert(whole is None);
            return None;
        }
        let dir = cell(direction_map, mw, mh, x, y);
        if dir >= 0 {
            assert(whole == Some((dir as int, x as int, y as int)));
            return Some((dir, x, y));
        }
        x += incr.0;
        y += incr.1;
    }
    None
}

/// The pixel one row below, or `failcode` off the bottom edge.
pub fn get_south8_2(img: &[u8], idx: usize, row: i32, iw: i32, ih: i32, failcode: u8) -> (p: u8)
    requires
        0 < iw,
        0 < ih,
        row < ih - 1 ==> idx + iw < img@.len(),
    ensures
        p == if row >= ih - 1 {
            failcode
        } else {
            img@[idx + iw]
        },
{
    if row >= ih - 1 {
        failcode
    } else {
        let _n = img.len();
        img[idx + iw as usize]
    }
}

/// The pixel one row above, or `failcode` off the top edge.
pub fn get_north8_2(img: &[u8], idx: usize, row: i32, iw: i32, failcode: u8) -> (p: u8)
    requires
        0 < iw,
        row >= 1 ==> iw <= idx < img@.len(),
    ensures
        p == if row < 1 {
            failcode
        } else {
            img@[idx - iw]
        },
{
    if row < 1 {
        failcode
    } else {
        img[idx - iw as usize]
    }
}

/// The pixel one column right, or `failcode` off the right edge.
pub fn get_east8_2(img: &[u8], idx: usize, col: i32, iw: i32, failcode: u8) -> (p: u8)
    requires
        0 < iw,
        col < iw - 1 ==> idx + 1 < img@.len(),
    ensures
        p == if col >= iw - 1 {
            failcode
        } else {
            img@[idx + 1]
        },
{
    if col >= iw - 1 {
        failcode
    } else {
        let _n = img.len();
        img[idx + 1]
    }
}

/// The pixel one column left, or `failcode` off the left edge.
pub fn get_west8_2(img: &[u8], idx: usize, col: i32, failcode: u8) -> (p: u8)
    requires
        col >= 1 ==> 1 <= idx < img@.len() + 1,
    ensures
        p == if col < 1 {
            failcode
        } else {
            img@[idx - 1]
        },
{
    if col < 1 {
        failcode
    } else {
        img[idx - 1]
    }
}

/// The west neighbour of cell `k`, or `fail` off the left edge.
pub open spec fn west_of(b: Seq<u8>, w: int, k: int, fail: u8) -> u8 {
    if k % w < 1 {
        fail
    } else {
        b[k - 1]
    }
}

/// The east neighbour of cell `k`, or `fail` off the right edge.
pub open spec fn east_of(b: Seq<u8>, w: int, k: int, fail: u8) -> u8 {
    if k % w >= w - 1 {
        fail
    } else {
        b[k + 1]
    }
}

/// The north neighbour of cell `k`, or `fail` off the top edge.
pub open spec fn north_of(b: Seq<u8>, w: int, k: int, fail: u8) -> u8 {
    if k / w < 1 {
        fail
    } else {
        b[k - w]
    }
}

/// The south neighbour of cell `k`, or `fail` off the bottom edge.
pub open spec fn south_of(b: Seq<u8>, w: int, h: int, k: int, fail: u8) -> u8 {
    if k / w >= h - 1 {
        fail
    } else {
        b[k + w]
    }
}

/// Cell `k` after one dilation: a false cell with a true 4-neighbour becomes true (off-image
/// neighbours count as false).
pub open spec fn dilate_px(b: Seq<u8>, w: int, h: int, k: int) -> u8 {
    if b[k] == 0 && (west_of(b, w, k, 0) != 0 || east_of(b, w, k, 0) != 0 || north_of(b, w, k, 0)
        != 0 || south_of(b, w, h, k, 0) != 0) {
        1
    } else {
        b[k]
    }
}

/// Cell `k` after one erosion: a true cell with a false 4-neighbour becomes false (off-image
/// neighbours count as true).
pub open spec fn erode_px(b: Seq<u8>, w: int, h: int, k: int) -> u8 {
    if b[k] != 0 && !(west_of(b, w, k, 1) != 0 && east_of(b, w, k, 1) != 0 && north_of(b, w, k, 1)
        != 0 && south_of(b, w, h, k, 1) != 0) {
        0
    } else {
        b[k]
    }
}

/// One dilation of the `w`×`h` image held at the front of `b`.
pub open spec fn dilate_img(b: Seq<u8>, w: int, h: int) -> Seq<u8> {
    Seq::new(
        b.len(),
        |k: int|
            if k < w * h {
                dilate_px(b, w, h, k)
            } else {
                b[k]
            },
    )
}

/// One erosion of the `w`×`h` image held at the front of `b`.
pub open spec fn erode_img(b: Seq<u8>, w: int, h: int) -> Seq<u8> {
    Seq::new(
        b.len(),
        |k: int|
            if k < w * h {
                erode_px(b, w, h, k)
            } else {
                b[k]
            },
    )
}

/// Row and column of cell `row * w + col`.
proof fn lemma_row_col(idx: int, row: int, col: int, w: int)
    requires
        0 < w,
        0 <= col < w,
        idx == row * w + col,
    ensures
        idx / w == row,
        idx % w == col,
{
    vstd::arithmetic::div_mod::lemma_fundamental_div_mod_converse(idx, w, row, col);
}

/// Dilate or erode `inp` into `out` (`dilate` chooses which).
fn morph_pass(inp: &[u8], out: &mut [u8], iw: i32, ih: i32, dilate: bool)
    requires
        old(out)@.len() == inp@.len(),
        grid_ok(inp@.len() as int, iw as int, ih as int),
    ensures
        final(out)@ == if dilate {
            dilate_img(inp@, iw as int, ih as int)
        } else {
            erode_img(inp@, iw as int, ih as int)
        },
{
    let ghost (b, w, h) = (inp@, iw as int, ih as int);
    let ghost target = if dilate {
        dilate_img(b, w, h)
    } else {
        erode_img(b, w, h)
    };
    let len = inp.len();
    let mut k: usize = 0;
    while k < len
        invariant
            len == b.len() && out@.len() == len && b == inp@,
            k <= len,
            forall|j: int| 0 <= j < k ==> #[trigger] out@[j] == b[j],
        decreases len - k,
    {
        out[k] = inp[k];
        k += 1;
    }
    let mut idx: usize = 0;
    let mut row: i32 = 0;
    while row < ih
        invariant
            len == b.len() && out@.len() == len && b == inp@,
            grid_ok(len as int, w, h),
            w == iw && h == ih,
            target == if dilate {
                dilate_img(b, w, h)
            } else {
                erode_img(b, w, h)
            },
            0 <= row <= ih,
            idx == row * iw,
            forall|j: int| 0 <= j < len ==> #[trigger] out@[j] == if j < idx {
                target[j]
            } else {
                b[j]
            },
        decreases ih - row,
    {
        let mut col: i32 = 0;
        while col < iw
            invariant
                len == b.len() && out@.len() == len && b == inp@,
                grid_ok(len as int, w, h),
                w == iw && h == ih,
                target == if dilate {
                    dilate_img(b, w, h)
                } else {
                    erode_img(b, w, h)
                },
                0 <= row < ih,
                0 <= col <= iw,
                idx == row * iw + col,
                forall|j: int| 0 <= j < len ==> #[trigger] out@[j] == if j < idx {
                    target[j]
                } else {
                    b[j]
                },
            decreases iw - col,
        {
            proof {
                lemma_offset(col as int, row as int, w, h);
                lemma_row_col(idx as int, row as int, col as int, w);
                if row < ih - 1 {
                    lemma_offset(col as int, row + 1, w, h);
                    assert((row + 1) * w + col == idx + w) by (nonlinear_arith)
                        requires
                            idx == row * w + col,
                    ;
                }
                if col < iw - 1 {
                    lemma_offset(col + 1, row as int, w, h);
                }
                if row >= 1 {
                    lemma_offset(col as int, row - 1, w, h);
                    assert((row - 1) * w + col == idx - w) by (nonlinear_arith)
                        requires
                            idx == row * w + col,
                    ;
                }
            }
            let v = inp[idx];
            let new_v = if dilate {
                if v == 0 && (get_west8_2(inp, idx, col, 0) != 0 || get_east8_2(inp, idx, col, iw, 0)
                    != 0 || get_north8_2(inp, idx, row, iw, 0) != 0 || get_south8_2(
                    inp,
                    idx,
                    row,
                    iw,
                    ih,
                    0,
                ) != 0) {
                    1
                } else {
                    v
                }
            } else {
                if v != 0 && !(get_west8_2(inp, idx, col, 1) != 0 && get_east8_2(
                    inp,
                    idx,
                    col,
                    iw,
                    1,
                ) != 0 && get_north8_2(inp, idx, row, iw, 1) != 0 && get_south8_2(
                    inp,
                    idx,
                    row,
                    iw,
                    ih,
                    1,
                ) != 0) {
                    0
                } else {
                    v
                }
            };
            proof {
                assert(new_v == target[idx as int]);
            }
            out[idx] = new_v;
            idx += 1;
            col += 1;
        }
        proof {
            assert(row * iw + iw == (row + 1) * iw) by (nonlinear_arith);
        }
        row += 1;
    }
    proof {
        assert(ih * iw == iw * ih) by (nonlinear_arith);
        assert(out@ =~= target);
    }
}

/// Set each false pixel true if any 4-neighbour is true; off-image neighbours read as false, so
/// the dilation does not spill past the border.
pub fn dilate_charimage_2(inp: &[u8], out: &mut [u8], iw: i32, ih: i32)
    requires
        old(out)@.len() == inp@.len(),
        grid_ok(inp@.len() as int, iw as int, ih as int),
    ensures
        final(out)@ == dilate_img(inp@, iw as int, ih as int),
{
    morph_pass(inp, out, iw, ih, true);
}

/// Set each true pixel false if any 4-neighbour is false; off-image neighbours read as true, so
/// the border is not eroded indiscriminately.
pub fn erode_charimage_2(inp: &[u8], out: &mut [u8], iw: i32, ih: i32)
    requires
        old(out)@.len() == inp@.len(),
        grid_ok(inp@.len() as int, iw as int, ih as int),
    ensures
        final(out)@ == erode_img(inp@, iw as int, ih as int),
{
    morph_pass(inp, out, iw, ih, false);
}

/// The TRUE/FALSE map as bytes (each entry truncated to its low byte).
pub open spec fn as_bytes(m: Seq<i32>) -> Seq<u8> {
    Seq::new(m.len(), |k: int| m[k] as u8)
}

/// The closing of a TRUE/FALSE map: dilate twice, then erode twice.
pub open spec fn closed_map(m: Seq<i32>, w: int, h: int) -> Seq<i32> {
    let c = erode_img(erode_img(dilate_img(dilate_img(as_bytes(m), w, h), w, h), w, h), w, h);
    Seq::new(m.len(), |k: int| c[k] as i32)
}

/// `|a|`.
pub open spec fn iabs(a: int) -> int {
    if a < 0 {
        -a
    } else {
        a
    }
}

/// The 4-connected (Manhattan) distance from cell `k` of a `w`-wide grid to `(px, py)`.
pub open spec fn dist_to(w: int, k: int, px: int, py: int) -> int {
    iabs(k % w - px) + iabs(k / w - py)
}

/// `b` holds, over its `w`×`h` cells, the diamond of radius `r` around `(px, py)`: `1` within,
/// `0` beyond.
pub open spec fn diamond(b: Seq<u8>, w: int, h: int, px: int, py: int, r: int) -> bool {
    &&& b.len() == w * h
    &&& forall|k: int| 0 <= k < w * h ==> #[trigger] b[k] == if dist_to(w, k, px, py) <= r {
        1u8
    } else {
        0u8
    }
}

/// Cell `k` of a `w`×`h` grid and its four neighbours, by row and column.
proof fn lemma_cell_nbrs(k: int, w: int, h: int)
    requires
        0 < w,
        0 <= k < w * h,
    ensures
        0 <= k % w < w,
        0 <= k / w < h,
        k == (k / w) * w + k % w,
        k % w >= 1 ==> (k - 1) % w == k % w - 1 && (k - 1) / w == k / w,
        k % w < w - 1 ==> (k + 1) % w == k % w + 1 && (k + 1) / w == k / w && k + 1 < w * h,
        k / w >= 1 ==> 0 <= k - w && (k - w) % w == k % w && (k - w) / w == k / w - 1,
        k / w < h - 1 ==> k + w < w * h && (k + w) % w == k % w && (k + w) / w == k / w + 1,
{
    let (x, y) = (k % w, k / w);
    vstd::arithmetic::div_mod::lemma_fundamental_div_mod(k, w);
    assert(0 <= x < w) by {
        vstd::arithmetic::div_mod::lemma_mod_bound(k, w);
    }
    assert(k == y * w + x) by (nonlinear_arith)
        requires
            k == w * y + x,
    ;
    assert(0 <= y) by {
        vstd::arithmetic::div_mod::lemma_div_pos_is_pos(k, w);
    }
    assert(y < h) by (nonlinear_arith)
        requires
            k == y * w + x,
            0 <= x,
            k < w * h,
            0 < w,
    ;
    if x >= 1 {
        vstd::arithmetic::div_mod::lemma_fundamental_div_mod_converse(k - 1, w, y, x - 1);
    }
    if x < w - 1 {
        vstd::arithmetic::div_mod::lemma_fundamental_div_mod_converse(k + 1, w, y, x + 1);
        assert(k + 1 < w * h) by (nonlinear_arith)
            requires
                k == y * w + x,
                x < w - 1,
                y < h,
                0 < w,
        ;
    }
    if y >= 1 {
        assert(k - w == (y - 1) * w + x) by (nonlinear_arith)
            requires
                k == y * w + x,
        ;
        vstd::arithmetic::div_mod::lemma_fundamental_div_mod_converse(k - w, w, y - 1, x);
        assert(0 <= (y - 1) * w) by (nonlinear_arith)
            requires
                y >= 1,
                w > 0,
        ;
    }
    if y < h - 1 {
        assert(k + w == (y + 1) * w + x) by (nonlinear_arith)
            requires
                k == y * w + x,
        ;
        vstd::arithmetic::div_mod::lemma_fundamental_div_mod_converse(k + w, w, y + 1, x);
        assert((y + 1) * w + x < w * h) by (nonlinear_arith)
            requires
                y + 1 < h,
                0 <= x < w,
                0 < w,
        ;
    }
}

/// Dilating a diamond grows it by one.
proof fn lemma_dilate_diamond(b: Seq<u8>, w: int, h: int, px: int, py: int, r: int)
    requires
        0 < w,
        0 <= px < w,
        0 <= py < h,
        0 <= r,
        diamond(b, w, h, px, py, r),
    ensures
        diamond(dilate_img(b, w, h), w, h, px, py, r + 1),
{
    let d = dilate_img(b, w, h);
    assert forall|k: int| 0 <= k < w * h implies #[trigger] d[k] == if dist_to(w, k, px, py) <= r + 1 {
        1u8
    } else {
        0u8
    } by {
        lemma_cell_nbrs(k, w, h);
        let (x, y) = (k % w, k / w);
        if k % w >= 1 {
            assert(b[k - 1] == if dist_to(w, k - 1, px, py) <= r { 1u8 } else { 0u8 });
        }
        if k % w < w - 1 {
            assert(b[k + 1] == if dist_to(w, k + 1, px, py) <= r { 1u8 } else { 0u8 });
        }
        if k / w >= 1 {
            assert(b[k - w] == if dist_to(w, k - w, px, py) <= r { 1u8 } else { 0u8 });
        }
        if k / w < h - 1 {
            assert(b[k + w] == if dist_to(w, k + w, px, py) <= r { 1u8 } else { 0u8 });
        }
        if dist_to(w, k, px, py) == r + 1 {
            if x > px {
                assert(west_of(b, w, k, 0) == 1u8);
            } else if x < px {
                assert(east_of(b, w, k, 0) == 1u8);
            } else if y > py {
                assert(north_of(b, w, k, 0) == 1u8);
            } else {
                assert(south_of(b, w, h, k, 0) == 1u8);
            }
        }
    }
    assert(d.len() == w * h);
}

/// Eroding a diamond of radius `1` or `2` that sits at least two cells inside the grid shrinks
/// it by one.
proof fn lemma_erode_diamond(b: Seq<u8>, w: int, h: int, px: int, py: int, r: int)
    requires
        2 <= px <= w - 3,
        2 <= py <= h - 3,
        1 <= r <= 2,
        diamond(b, w, h, px, py, r),
    ensures
        diamond(erode_img(b, w, h), w, h, px, py, r - 1),
{
    let e = erode_img(b, w, h);
    assert forall|k: int| 0 <= k < w * h implies #[trigger] e[k] == if dist_to(w, k, px, py) <= r - 1 {
        1u8
    } else {
        0u8
    } by {
        lemma_cell_nbrs(k, w, h);
        let (x, y) = (k % w, k / w);
        if k % w >= 1 {
            assert(b[k - 1] == if dist_to(w, k - 1, px, py) <= r { 1u8 } else { 0u8 });
        }
        if k % w < w - 1 {
            assert(b[k + 1] == if dist_to(w, k + 1, px, py) <= r { 1u8 } else { 0u8 });
        }
        if k / w >= 1 {
            assert(b[k - w] == if dist_to(w, k - w, px, py) <= r { 1u8 } else { 0u8 });
        }
        if k / w < h - 1 {
            assert(b[k + w] == if dist_to(w, k + w, px, py) <= r { 1u8 } else { 0u8 });
        }
        if dist_to(w, k, px, py) == r {
            if x == px {
                assert(west_of(b, w, k, 1) == 0u8);
            } else if y == py {
                assert(north_of(b, w, k, 1) == 0u8);
            } else if y > py {
                assert(south_of(b, w, h, k, 1) == 0u8);
            } else {
                assert(north_of(b, w, k, 1) == 0u8);
            }
        }
    }
    assert(e.len() == w * h);
}

/// A closing leaves an isolated block alone: a TRUE/FALSE map whose only TRUE block lies at
/// least two blocks from every edge is its own closing (the two dilations grow the block into a
/// diamond of radius two, and the two erosions shrink that back to the block).
pub proof fn lemma_closing_keeps_isolated_block(m: Seq<i32>, w: int, h: int, px: int, py: int)
    requires
        m.len() == w * h,
        2 <= px <= w - 3,
        2 <= py <= h - 3,
        forall|k: int| 0 <= k < m.len() ==> #[trigger] m[k] == if k == py * w + px {
            1i32
        } else {
            0i32
        },
    ensures
        closed_map(m, w, h) == m,
{
    let b0 = as_bytes(m);
    assert(diamond(b0, w, h, px, py, 0)) by {
        assert forall|k: int| 0 <= k < w * h implies #[trigger] b0[k] == if dist_to(w, k, px, py) <= 0 {
            1u8
        } else {
            0u8
        } by {
            lemma_cell_nbrs(k, w, h);
            if dist_to(w, k, px, py) <= 0 {
                assert(k % w == px && k / w == py);
                assert(k == py * w + px);
            } else {
                if k == py * w + px {
                    vstd::arithmetic::div_mod::lemma_fundamental_div_mod_converse(k, w, py, px);
                }
            }
        }
    }
    lemma_dilate_diamond(b0, w, h, px, py, 0);
    let b1 = dilate_img(b0, w, h);
    lemma_dilate_diamond(b1, w, h, px, py, 1);
    let b2 = dilate_img(b1, w, h);
    lemma_erode_diamond(b2, w, h, px, py, 2);
    let b3 = erode_img(b2, w, h);
    lemma_erode_diamond(b3, w, h, px, py, 1);
    let c = erode_img(b3, w, h);
    assert forall|k: int| 0 <= k < m.len() implies #[trigger] closed_map(m, w, h)[k] == m[k] by {
        assert(c[k] == b0[k]);
    }
    assert(closed_map(m, w, h) =~= m);
}

/// Fill small voids in a TRUE/FALSE map by a closing: dilate twice, then erode twice.
pub fn morph_tf_map(tfmap: &mut [i32], mw: i32, mh: i32)
    requires
        grid_ok(old(tfmap)@.len() as int, mw as int, mh as int),
        old(tfmap)@.len() == mw * mh,
    ensures
        final(tfmap)@ == closed_map(old(tfmap)@, mw as int, mh as int),
{
    let ghost m0 = tfmap@;
    let n = tfmap.len();
    let mut cimage: Vec<u8> = Vec::with_capacity(n);
    let mut k: usize = 0;
    while k < n
        invariant
            n == m0.len() && tfmap@ == m0,
            k <= n,
            cimage@.len() == k,
            forall|j: int| 0 <= j < k ==> #[trigger] cimage@[j] == as_bytes(m0)[j],
        decreases n - k,
    {
        cimage.push(tfmap[k] as u8);
        k += 1;
    }
    assert(cimage@ =~= as_bytes(m0));
    let mut mimage: Vec<u8> = vec![0u8; n];
    dilate_charimage_2(&cimage, &mut mimage, mw, mh);
    dilate_charimage_2(&mimage, &mut cimage, mw, mh);
    erode_charimage_2(&cimage, &mut mimage, mw, mh);
    erode_charimage_2(&mimage, &mut cimage, mw, mh);
    let ghost c = cimage@;
    let mut k: usize = 0;
    while k < n
        invariant
            n == m0.len() && tfmap@.len() == n && cimage@ == c && c.len() == n,
            k <= n,
            forall|j: int| 0 <= j < k ==> #[trigger] tfmap@[j] == c[j] as i32,
        decreases n - k,
    {
        tfmap[k] = cimage[k] as i32;
        k += 1;
    }
    assert(tfmap@ =~= closed_map(m0, mw as int, mh as int));
}

/// The sum of the first `n` samples of rotated row `iy` of a block: the pixels at `off` plus the
/// grid offsets `g[iy * bs .. iy * bs + n]`.
pub open spec fn row_sum(p: Seq<u8>, off: int, g: Seq<i32>, bs: int, iy: int, n: int) -> int
    decreases n,
{
    if n <= 0 {
        0
    } else {
        row_sum(p, off, g, bs, iy, n - 1) + p[off + g[iy * bs + n - 1]] as int
    }
}

/// Every sample of a `bs`×`bs` rotated grid at `off` lies inside the image.
pub open spec fn grid_inside(p: Seq<u8>, off: int, g: Seq<i32>, bs: int) -> bool {
    forall|j: int| 0 <= j < bs * bs ==> 0 <= off + #[trigger] g[j] < p.len() && off + g[j] <= i32::MAX
}

/// A row sum of `n` bytes is at most `255 * n`.
proof fn lemma_row_sum_bound(p: Seq<u8>, off: int, g: Seq<i32>, bs: int, iy: int, n: int)
    requires
        0 <= n,
    ensures
        0 <= row_sum(p, off, g, bs, iy, n) <= 255 * n,
    decreases n,
{
    if n > 0 {
        lemma_row_sum_bound(p, off, g, bs, iy, n - 1);
    }
}

/// Sample a block through one direction's rotated grid and sum the pixels of each rotated row.
pub fn sum_rot_block_rows(
    rowsums: &mut [i32],
    pdata: &[u8],
    blkoffset: i32,
    grid_offsets: &[i32],
    blocksize: i32,
)
    requires
        0 <= blocksize <= 0x1_0000,
        blocksize <= old(rowsums)@.len(),
        blocksize * blocksize <= grid_offsets@.len(),
        grid_inside(pdata@, blkoffset as int, grid_offsets@, blocksize as int),
    ensures
        final(rowsums)@.len() == old(rowsums)@.len(),
        forall|iy: int|
            0 <= iy < blocksize ==> #[trigger] final(rowsums)@[iy] == row_sum(
                pdata@,
                blkoffset as int,
                grid_offsets@,
                blocksize as int,
                iy,
                blocksize as int,
            ),
        forall|iy: int| blocksize <= iy < old(rowsums)@.len() ==> #[trigger] final(rowsums)@[iy] == old(rowsums)@[iy],
{
    let ghost (p, off, g, bs) = (pdata@, blkoffset as int, grid_offsets@, blocksize as int);
    let ghost r0 = rowsums@;
    let mut gi: usize = 0;
    let mut iy: i32 = 0;
    while iy < blocksize
        invariant
            p == pdata@ && g == grid_offsets@ && off == blkoffset && bs == blocksize,
            0 <= blocksize <= 0x1_0000,
            blocksize <= rowsums@.len(),
            blocksize * blocksize <= grid_offsets@.len(),
            grid_inside(p, off, g, bs),
            rowsums@.len() == r0.len(),
            0 <= iy <= blocksize,
            gi == iy * blocksize,
            forall|j: int| 0 <= j < iy ==> #[trigger] rowsums@[j] == row_sum(p, off, g, bs, j, bs),
            forall|j: int| blocksize <= j < r0.len() ==> #[trigger] rowsums@[j] == r0[j],
        decreases blocksize - iy,
    {
        rowsums[iy as usize] = 0;
        let mut ix: i32 = 0;
        while ix < blocksize
            invariant
                p == pdata@ && g == grid_offsets@ && off == blkoffset && bs == blocksize,
                0 <= blocksize <= 0x1_0000,
                blocksize <= rowsums@.len(),
                blocksize * blocksize <= grid_offsets@.len(),
                grid_inside(p, off, g, bs),
                rowsums@.len() == r0.len(),
                0 <= iy < blocksize,
                0 <= ix <= blocksize,
                gi == iy * blocksize + ix,
                rowsums@[iy as int] == row_sum(p, off, g, bs, iy as int, ix as int),
                forall|j: int| 0 <= j < iy ==> #[trigger] rowsums@[j] == row_sum(p, off, g, bs, j, bs),
                forall|j: int| blocksize <= j < r0.len() ==> #[trigger] rowsums@[j] == r0[j],
            decreases blocksize - ix,
        {
            proof {
                assert(gi < bs * bs) by (nonlinear_arith)
                    requires
                        gi == iy * bs + ix,
                        0 <= iy < bs,
                        0 <= ix < bs,
                ;
                assert(0 <= off + g[gi as int] < p.len());
                lemma_row_sum_bound(p, off, g, bs, iy as int, ix as int);
            }
            let idx = (blkoffset + grid_offsets[gi]) as usize;
            rowsums[iy as usize] = rowsums[iy as usize] + pdata[idx] as i32;
            gi += 1;
            ix += 1;
        }
        proof {
            assert(iy * blocksize + blocksize == (iy + 1) * blocksize) by (nonlinear_arith);
        }
        iy += 1;
    }
}

/// The block maps and binarized image produced on the way to the minutiae. The four block maps
/// are `map_w * map_h` entries in row-major block order; `binarized` is the full-resolution image,
/// `0` for ridge and `255` for valley.
#[derive(Clone, Debug, Default)]
pub struct DebugMaps {
    /// Per-block ridge-flow direction: [`INVALID_DIR`] or a direction index.
    pub direction_map: Vec<i32>,
    /// Per-block low-contrast flag (`1`/`0`).
    pub low_contrast_map: Vec<i32>,
    /// Per-block low-ridge-flow flag (`1`/`0`).
    pub low_flow_map: Vec<i32>,
    /// Per-block high-curvature flag (`1`/`0`).
    pub high_curve_map: Vec<i32>,
    /// Width of the block maps, in blocks.
    pub map_w: usize,
    /// Height of the block maps, in blocks.
    pub map_h: usize,
    /// The binarized image.
    pub binarized: Vec<u8>,
}

} // verus!
