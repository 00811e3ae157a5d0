//! Smoothing and interpolation of a block direction map.
//!
//! Smoothing replaces, in raster order and in place, a block's direction with the average of its
//! neighbours' where that average is strong enough and enough neighbours hold a direction.
//! Interpolation fills each INVALID block that is not low-contrast from the nearest valid block
//! to its north, east, south and west, weighting each by how much nearer it is than the others;
//! it reads only the map it was given.
//!
//! Both averages are floating-point work done by the caller and handed in as closures; what is
//! decided here is which blocks they apply to, from what, and with what.

use vstd::prelude::*;

use crate::contour::INVALID_DIR;
use crate::grid::{at, grid_ok, in_grid, lemma_offset};
use crate::maps::{find_valid_block, valid_block_from};

verus! {

/// The neighbour average of a block: its direction, whether it is strong enough to trust, and
/// how many of the eight neighbours hold a direction.
pub type NbrAverage = (i32, bool, i32);

/// The direction a block ends with, given its own and its neighbours' average: a valid direction
/// is overwritten when at least `rmv_valid_nbr_min` neighbours hold one, an INVALID one is filled
/// when at least `smth_valid_nbr_min` do, and only when the average is strong.
pub open spec fn smoothed(cur: i32, avg: NbrAverage, rmv_valid_nbr_min: i32, smth_valid_nbr_min: i32) -> i32 {
    if !avg.1 {
        cur
    } else if cur != INVALID_DIR {
        if avg.2 >= rmv_valid_nbr_min {
            avg.0
        } else {
            cur
        }
    } else if avg.2 >= smth_valid_nbr_min {
        avg.0
    } else {
        cur
    }
}

/// The map as a raster-order pass sees it on reaching entry `k`: entries before `k` already
/// rewritten, the rest as they were.
pub open spec fn seen_at(before: Seq<i32>, after: Seq<i32>, k: int) -> Seq<i32> {
    after.take(k) + before.skip(k)
}

/// Block `(x, y)` of `after` is what smoothing `before` in raster order makes of it: unchanged
/// when low-contrast, else the smoothed direction for an average that the averaging closure
/// returns on the map as the pass sees it there.
pub open spec fn smoothed_at<F: Fn(&[i32], i32, i32) -> NbrAverage>(
    f: F,
    before: Seq<i32>,
    after: Seq<i32>,
    lc: Seq<i32>,
    w: int,
    x: int,
    y: int,
    rmv_valid_nbr_min: i32,
    smth_valid_nbr_min: i32,
) -> bool {
    let k = y * w + x;
    if lc[k] != 0 {
        after[k] == before[k]
    } else {
        exists|m: &[i32], r: NbrAverage|
            m@ == seen_at(before, after, k) && #[trigger] call_ensures(f, (m, x as i32, y as i32), r)
                && after[k] == smoothed(before[k], r, rmv_valid_nbr_min, smth_valid_nbr_min)
    }
}

/// Smooth a direction map in place, in raster order, skipping low-contrast blocks.
///
/// `average(map, x, y)` is the neighbour average of block `(x, y)` on the map as it stands, with
/// its strength already held against the minimum.
pub fn smooth_direction_map<F: Fn(&[i32], i32, i32) -> NbrAverage>(
    direction_map: &mut [i32],
    low_contrast_map: &[i32],
    mw: i32,
    mh: i32,
    rmv_valid_nbr_min: i32,
    smth_valid_nbr_min: i32,
    average: &F,
)
    requires
        grid_ok(old(direction_map)@.len() as int, mw as int, mh as int),
        grid_ok(low_contrast_map@.len() as int, mw as int, mh as int),
        forall|m: &[i32], x: i32, y: i32| call_requires(*average, (m, x, y)),
    ensures
        final(direction_map)@.len() == old(direction_map)@.len(),
        forall|k: int|
            mw * mh <= k < old(direction_map)@.len() ==> #[trigger] final(direction_map)@[k] == old(
                direction_map,
            )@[k],
        forall|x: int, y: int|
            in_grid(x, y, mw as int, mh as int) ==> #[trigger] smoothed_at(
                *average,
                old(direction_map)@,
                final(direction_map)@,
                low_contrast_map@,
                mw as int,
                x,
                y,
                rmv_valid_nbr_min,
                smth_valid_nbr_min,
            ),
{
    let ghost w = mw as int;
    let ghost h = mh as int;
    let ghost m0 = direction_map@;
    let mut my: i32 = 0;
    while my < mh
        invariant
            grid_ok(m0.len() as int, w, h),
            grid_ok(low_contrast_map@.len() as int, w, h),
            w == mw as int && h == mh as int,
            m0 == old(direction_map)@,
            direction_map@.len() == m0.len(),
            0 <= my <= mh,
            forall|m: &[i32], x: i32, y: i32| call_requires(*average, (m, x, y)),
            forall|k: int| my * w <= k < m0.len() ==> #[trigger] direction_map@[k] == m0[k],
            forall|x: int, y: int|
                in_grid(x, y, w, h) && y < my ==> #[trigger] smoothed_at(
                    *average,
                    m0,
                    direction_map@,
                    low_contrast_map@,
                    w,
                    x,
                    y,
                    rmv_valid_nbr_min,
                    smth_valid_nbr_min,
                ),
        decreases mh - my,
    {
        let mut mx: i32 = 0;
        while mx < mw
            invariant
                grid_ok(m0.len() as int, w, h),
                grid_ok(low_contrast_map@.len() as int, w, h),
                w == mw as int && h == mh as int,
                m0 == old(direction_map)@,
                direction_map@.len() == m0.len(),
                0 <= my < mh,
                0 <= mx <= mw,
                forall|m: &[i32], x: i32, y: i32| call_requires(*average, (m, x, y)),
                forall|k: int| my * w + mx <= k < m0.len() ==> #[trigger] direction_map@[k] == m0[k],
                forall|x: int, y: int|
                    in_grid(x, y, w, h) && (y < my || (y == my && x < mx)) ==> #[trigger] smoothed_at(
                        *average,
                        m0,
                        direction_map@,
                        low_contrast_map@,
                        w,
                        x,
                        y,
                        rmv_valid_nbr_min,
                        smth_valid_nbr_min,
                    ),
            decreases mw - mx,
        {
            proof {
                lemma_offset(mx as int, my as int, w, h);
            }
            let idx = (my * mw + mx) as usize;
            let ghost prev = direction_map@;
            if low_contrast_map[idx] == 0 {
                let ghost seen: &[i32] = &*direction_map;
                let avg = average(direction_map, mx, my);
                let cur = direction_map[idx];
                if avg.1 {
                    if cur != INVALID_DIR {
                        if avg.2 >= rmv_valid_nbr_min {
                            direction_map[idx] = avg.0;
                        }
                    } else {
                        if avg.2 >= smth_valid_nbr_min {
                            direction_map[idx] = avg.0;
                        }
                    }
                }
                proof {
                    let k = idx as int;
                    assert(seen@ =~= seen_at(m0, direction_map@, k));
                    assert(direction_map@[k] == smoothed(m0[k], avg, rmv_valid_nbr_min, smth_valid_nbr_min));
                    assert((mx as int) as i32 == mx && (my as int) as i32 == my);
                    assert(call_ensures(*average, (seen, (mx as int) as i32, (my as int) as i32), avg));
                    assert(smoothed_at(*average, m0, direction_map@, low_contrast_map@, w, mx as int, my as int, rmv_valid_nbr_min, smth_valid_nbr_min));
                }
            } else {
                assert(smoothed_at(*average, m0, direction_map@, low_contrast_map@, w, mx as int, my as int, rmv_valid_nbr_min, smth_valid_nbr_min));
            }
            proof {
                let k0 = idx as int;
                assert forall|k: int| 0 <= k < prev.len() && k0 != k implies #[trigger] direction_map@[k] == prev[k] by {}
                assert forall|x: int, y: int|
                    in_grid(x, y, w, h) && (y < my || (y == my && x < mx + 1)) implies #[trigger] smoothed_at(
                    *average,
                    m0,
                    direction_map@,
                    low_contrast_map@,
                    w,
                    x,
                    y,
                    rmv_valid_nbr_min,
                    smth_valid_nbr_min,
                ) by {
                    lemma_offset(x, y, w, h);
                    let k = y * w + x;
                    if x == mx && y == my {
                    } else {
                        assert(k < k0) by (nonlinear_arith)
                            requires
                                k == y * w + x,
                                k0 == my * w + mx,
                                0 <= x < w,
                                0 <= mx < w,
                                y < my || (y == my && x < mx),
                        ;
                        assert(smoothed_at(*average, m0, prev, low_contrast_map@, w, x, y, rmv_valid_nbr_min, smth_valid_nbr_min));
                        assert(seen_at(m0, direction_map@, k) =~= seen_at(m0, prev, k));
                        assert(direction_map@[k] == prev[k]);
                        if low_contrast_map@[k] == 0 {
                            let (m, r) = choose|m: &[i32], r: NbrAverage|
                                m@ == seen_at(m0, prev, k) && #[trigger] call_ensures(*average, (m, x as i32, y as i32), r)
                                    && prev[k] == smoothed(m0[k], r, rmv_valid_nbr_min, smth_valid_nbr_min);
                            assert(call_ensures(*average, (m, x as i32, y as i32), r));
                        }
                    }
                }
            }
            mx = mx + 1;
        }
        assert((my + 1) * w == my * w + w) by (nonlinear_arith);
        my = my + 1;
    }
}

/// The nearest valid block from `(x, y)` in direction `(dx, dy)`, as `(direction, distance)`.
pub open spec fn toward(
    dm: Seq<i32>,
    lc: Seq<i32>,
    w: int,
    h: int,
    x: int,
    y: int,
    dx: int,
    dy: int,
) -> Seq<(int, int)> {
    match valid_block_from(dm, lc, w, h, x, y, dx, dy) {
        Some((d, nx, ny)) => seq![
            (
                d,
                if dx > 0 {
                    nx - x
                } else if dx < 0 {
                    x - nx
                } else if dy > 0 {
                    ny - y
                } else {
                    y - ny
                },
            ),
        ],
        None => Seq::empty(),
    }
}

/// The valid blocks nearest to `(x, y)` to the north, east, south and west (those that exist),
/// in that order, as `(direction, distance)`.
pub open spec fn nearest_four(dm: Seq<i32>, lc: Seq<i32>, w: int, h: int, x: int, y: int) -> Seq<(int, int)> {
    toward(dm, lc, w, h, x, y, 0, -1) + toward(dm, lc, w, h, x, y, 1, 0) + toward(dm, lc, w, h, x, y, 0, 1)
        + toward(dm, lc, w, h, x, y, -1, 0)
}

/// The sum of the distances.
pub open spec fn dist_total(s: Seq<(int, int)>) -> int
    decreases s.len(),
{
    if s.len() == 0 {
        0
    } else {
        dist_total(s.drop_last()) + s.last().1
    }
}

/// Each neighbour weighted by how much nearer it is than the sum of all distances:
/// `(direction, total - distance)`.
pub open spec fn weighted(s: Seq<(int, int)>) -> Seq<(i32, i32)> {
    Seq::new(s.len(), |i: int| (s[i].0 as i32, (dist_total(s) - s[i].1) as i32))
}

/// The sum of the weights.
pub open spec fn weight_total(s: Seq<(int, int)>) -> int {
    s.len() * dist_total(s) - dist_total(s)
}

/// Maps small enough that the weights of four neighbours across them sum within `i32`.
pub open spec fn small_map(w: int, h: int) -> bool {
    3 * (w + h) <= i32::MAX
}

/// A block found by walking from `(x, y)` lies inside the map, strictly further along the walk,
/// and holds a valid direction.
proof fn lemma_found_block(dm: Seq<i32>, lc: Seq<i32>, w: int, h: int, x: int, y: int, dx: int, dy: int)
    requires
        (dx == 0 && (dy == 1 || dy == -1)) || (dy == 0 && (dx == 1 || dx == -1)),
    ensures
        valid_block_from(dm, lc, w, h, x, y, dx, dy) matches Some((d, nx, ny)) ==> {
            &&& 0 <= d
            &&& in_grid(nx, ny, w, h)
            &&& dx > 0 ==> ny == y && nx > x
            &&& dx < 0 ==> ny == y && nx < x
            &&& dy > 0 ==> nx == x && ny > y
            &&& dy < 0 ==> nx == x && ny < y
        },
    decreases crate::maps::walk_room(w, h, x, y, dx, dy),
{
    let nx = x + dx;
    let ny = y + dy;
    if in_grid(nx, ny, w, h) && at(lc, w, nx, ny) == 0 && at(dm, w, nx, ny) < 0 {
        lemma_found_block(dm, lc, w, h, nx, ny, dx, dy);
    }
}

/// Adding one more distance to a list adds it to the total.
proof fn lemma_dist_total_push(s: Seq<(int, int)>, v: (int, int))
    ensures
        dist_total(s.push(v)) == dist_total(s) + v.1,
{
    assert(s.push(v).drop_last() =~= s);
}

/// The prefix totals grow one entry at a time.
proof fn lemma_dist_total_take(s: Seq<(int, int)>, i: int)
    requires
        0 <= i < s.len(),
    ensures
        dist_total(s.take(i + 1)) == dist_total(s.take(i)) + s[i].1,
{
    assert(s.take(i + 1).drop_last() =~= s.take(i));
}

/// Prefix totals of non-negative distances are non-negative and at most the whole total.
proof fn lemma_dist_total_prefix(s: Seq<(int, int)>, i: int)
    requires
        0 <= i <= s.len(),
        forall|j: int| 0 <= j < s.len() ==> #[trigger] s[j].1 >= 0,
    ensures
        0 <= dist_total(s.take(i)) <= dist_total(s),
    decreases s.len() - i,
{
    if i < s.len() {
        lemma_dist_total_take(s, i);
        lemma_dist_total_prefix(s, i + 1);
        lemma_dist_total_prefix_nonneg(s.take(i));
    } else {
        assert(s.take(i) =~= s);
        lemma_dist_total_prefix_nonneg(s);
    }
}

/// A total of non-negative distances is non-negative.
proof fn lemma_dist_total_prefix_nonneg(s: Seq<(int, int)>)
    requires
        forall|j: int| 0 <= j < s.len() ==> #[trigger] s[j].1 >= 0,
    ensures
        0 <= dist_total(s),
    decreases s.len(),
{
    if s.len() > 0 {
        lemma_dist_total_prefix_nonneg(s.drop_last());
    }
}

/// The weighted neighbours that interpolate block `(x, y)`: for each of the nearest valid blocks
/// to the north, east, south and west that exist, in that order, `(direction, total − distance)`
/// where `total` sums their distances; and the sum of those weights.
#[verifier::spinoff_prover]
#[verifier::rlimit(50)]
pub fn interpolation_weights(
    direction_map: &[i32],
    low_contrast_map: &[i32],
    x: i32,
    y: i32,
    mw: i32,
    mh: i32,
) -> (r: (Vec<(i32, i32)>, i32))
    requires
        grid_ok(direction_map@.len() as int, mw as int, mh as int),
        grid_ok(low_contrast_map@.len() as int, mw as int, mh as int),
        in_grid(x as int, y as int, mw as int, mh as int),
        small_map(mw as int, mh as int),
    ensures
        r.0@ == weighted(nearest_four(direction_map@, low_contrast_map@, mw as int, mh as int, x as int, y as int)),
        r.1 == weight_total(nearest_four(direction_map@, low_contrast_map@, mw as int, mh as int, x as int, y as int)),
{
    let ghost (dm, lc, w, h) = (direction_map@, low_contrast_map@, mw as int, mh as int);
    let ghost (xi, yi) = (x as int, y as int);
    proof {
        lemma_found_block(dm, lc, w, h, xi, yi, 0, -1);
        lemma_found_block(dm, lc, w, h, xi, yi, 1, 0);
        lemma_found_block(dm, lc, w, h, xi, yi, 0, 1);
        lemma_found_block(dm, lc, w, h, xi, yi, -1, 0);
    }
    let mut found: Vec<(i32, i32)> = Vec::new();
    let ghost mut g: Seq<(int, int)> = Seq::empty();
    let mut total_dist: i32 = 0;
    if let Some((d, _nx, ny)) = find_valid_block(direction_map, low_contrast_map, (x, y), (mw, mh), (0, -1)) {
        let dist = y - ny;
        proof {
            lemma_dist_total_push(g, (d as int, dist as int));
        }
        total_dist = total_dist + dist;
        found.push((d, dist));
        proof {
            g = g.push((d as int, dist as int));
        }
    }
    assert(g =~= toward(dm, lc, w, h, xi, yi, 0, -1));
    let ghost north = total_dist as int;
    if let Some((d, nx, _ny)) = find_valid_block(direction_map, low_contrast_map, (x, y), (mw, mh), (1, 0)) {
        let dist = nx - x;
        proof {
            lemma_dist_total_push(g, (d as int, dist as int));
        }
        total_dist = total_dist + dist;
        found.push((d, dist));
        proof {
            g = g.push((d as int, dist as int));
        }
    }
    assert(g =~= toward(dm, lc, w, h, xi, yi, 0, -1) + toward(dm, lc, w, h, xi, yi, 1, 0));
    let ghost east = total_dist as int - north;
    if let Some((d, _nx, ny)) = find_valid_block(direction_map, low_contrast_map, (x, y), (mw, mh), (0, 1)) {
        let dist = ny - y;
        proof {
            lemma_dist_total_push(g, (d as int, dist as int));
        }
        total_dist = total_dist + dist;
        found.push((d, dist));
        proof {
            g = g.push((d as int, dist as int));
        }
    }
    assert(g =~= toward(dm, lc, w, h, xi, yi, 0, -1) + toward(dm, lc, w, h, xi, yi, 1, 0) + toward(
        dm,
        lc,
        w,
        h,
        xi,
        yi,
        0,
        1,
    ));
    if let Some((d, nx, _ny)) = find_valid_block(direction_map, low_contrast_map, (x, y), (mw, mh), (-1, 0)) {
        let dist = x - nx;
        proof {
            lemma_dist_total_push(g, (d as int, dist as int));
        }
        total_dist = total_dist + dist;
        found.push((d, dist));
        proof {
            g = g.push((d as int, dist as int));
        }
    }
    assert(g =~= nearest_four(dm, lc, w, h, xi, yi));
    let ghost t = total_dist as int;
    assert(found@.len() == g.len() && forall|j: int|
        0 <= j < g.len() ==> #[trigger] g[j] == (found@[j].0 as int, found@[j].1 as int));
    assert(forall|j: int| 0 <= j < g.len() ==> #[trigger] g[j].1 >= 0);
    assert(g.len() <= 4);
    assert(0 <= t <= w + h - 2);
    let mut weights: Vec<(i32, i32)> = Vec::new();
    let mut total_delta: i32 = 0;
    let mut i: usize = 0;
    while i < found.len()
        invariant
            found@.len() == g.len(),
            g.len() <= 4,
            forall|j: int| 0 <= j < g.len() ==> #[trigger] g[j] == (found@[j].0 as int, found@[j].1 as int),
            forall|j: int| 0 <= j < g.len() ==> #[trigger] g[j].1 >= 0,
            t == total_dist,
            t == dist_total(g),
            0 <= t <= w + h - 2,
            small_map(w, h),
            0 <= i <= g.len(),
            weights@ =~= weighted(g).take(i as int),
            total_delta == i * t - dist_total(g.take(i as int)),
        decreases g.len() - i,
    {
        let (d, dist) = found[i];
        proof {
            lemma_dist_total_take(g, i as int);
            lemma_dist_total_prefix(g, i as int);
            lemma_dist_total_prefix(g, i as int + 1);
            assert(dist <= t) by {
                lemma_dist_total_prefix(g, i as int);
            }
            if i + 1 == g.len() {
                assert(g.take(i as int + 1) =~= g);
            }
            assert(0 <= (i + 1) * t - dist_total(g.take(i as int + 1)) <= 3 * t) by (nonlinear_arith)
                requires
                    0 <= i < g.len() <= 4,
                    0 <= t,
                    0 <= dist_total(g.take(i as int + 1)) <= t,
                    i + 1 == g.len() ==> dist_total(g.take(i as int + 1)) == t,
            ;
            assert((i + 1) * t == i * t + t) by (nonlinear_arith);
            assert(g[i as int].1 == dist);
        }
        let delta = total_dist - dist;
        total_delta = total_delta + delta;
        weights.push((d, delta));
        i = i + 1;
    }
    assert(g.take(g.len() as int) =~= g);
    (weights, total_delta)
}

/// Block `(x, y)` of `after` is what interpolating `dm` makes of it: an INVALID block that is
/// not low-contrast and has at least `min_nbrs` of its four nearest valid blocks takes what the
/// averaging closure returns for their weights; every other block keeps its direction.
pub open spec fn interpolated_at<F: Fn(&[(i32, i32)], i32) -> i32>(
    f: F,
    dm: Seq<i32>,
    lc: Seq<i32>,
    after: Seq<i32>,
    w: int,
    h: int,
    min_nbrs: i32,
    x: int,
    y: int,
) -> bool {
    let k = y * w + x;
    let n = nearest_four(dm, lc, w, h, x, y);
    if lc[k] == 0 && dm[k] == INVALID_DIR && n.len() >= min_nbrs {
        exists|v: &[(i32, i32)], r: i32|
            v@ == weighted(n) && #[trigger] call_ensures(f, (v, weight_total(n) as i32), r) && after[k] == r
    } else {
        after[k] == dm[k]
    }
}

/// Fill INVALID blocks that are not low-contrast from their nearest valid neighbours to the
/// north, east, south and west, where at least `min_interpolate_nbrs` of them exist.
///
/// `weighted_average(weights, total)` is the direction that the `(direction, weight)` pairs
/// average to, their weights summing to `total`. Every block is computed from the map as it was
/// given; the results are written back together.
pub fn interpolate_direction_map<F: Fn(&[(i32, i32)], i32) -> i32>(
    direction_map: &mut [i32],
    low_contrast_map: &[i32],
    mw: i32,
    mh: i32,
    min_interpolate_nbrs: i32,
    weighted_average: &F,
)
    requires
        grid_ok(old(direction_map)@.len() as int, mw as int, mh as int),
        grid_ok(low_contrast_map@.len() as int, mw as int, mh as int),
        small_map(mw as int, mh as int),
        forall|v: &[(i32, i32)], t: i32| call_requires(*weighted_average, (v, t)),
    ensures
        final(direction_map)@.len() == old(direction_map)@.len(),
        forall|k: int|
            mw * mh <= k < old(direction_map)@.len() ==> #[trigger] final(direction_map)@[k] == old(
                direction_map,
            )@[k],
        forall|x: int, y: int|
            in_grid(x, y, mw as int, mh as int) ==> #[trigger] interpolated_at(
                *weighted_average,
                old(direction_map)@,
                low_contrast_map@,
                final(direction_map)@,
                mw as int,
                mh as int,
                min_interpolate_nbrs,
                x,
                y,
            ),
{
    let ghost w = mw as int;
    let ghost h = mh as int;
    let ghost m0 = direction_map@;
    let mut omap = vstd::slice::slice_to_vec(direction_map);
    let mut y: i32 = 0;
    while y < mh
        invariant
            grid_ok(m0.len() as int, w, h),
            grid_ok(low_contrast_map@.len() as int, w, h),
            small_map(w, h),
            w == mw as int && h == mh as int,
            m0 == old(direction_map)@,
            direction_map@ == m0,
            omap@.len() == m0.len(),
            0 <= y <= mh,
            forall|v: &[(i32, i32)], t: i32| call_requires(*weighted_average, (v, t)),
            forall|k: int| y * w <= k < m0.len() ==> #[trigger] omap@[k] == m0[k],
            forall|cx: int, cy: int|
                in_grid(cx, cy, w, h) && cy < y ==> #[trigger] interpolated_at(
                    *weighted_average,
                    m0,
                    low_contrast_map@,
                    omap@,
                    w,
                    h,
                    min_interpolate_nbrs,
                    cx,
                    cy,
                ),
        decreases mh - y,
    {
        let mut x: i32 = 0;
        while x < mw
            invariant
                grid_ok(m0.len() as int, w, h),
                grid_ok(low_contrast_map@.len() as int, w, h),
                small_map(w, h),
                w == mw as int && h == mh as int,
                m0 == old(direction_map)@,
                direction_map@ == m0,
                omap@.len() == m0.len(),
                0 <= y < mh,
                0 <= x <= mw,
                forall|v: &[(i32, i32)], t: i32| call_requires(*weighted_average, (v, t)),
                forall|k: int| y * w + x <= k < m0.len() ==> #[trigger] omap@[k] == m0[k],
                forall|cx: int, cy: int|
                    in_grid(cx, cy, w, h) && (cy < y || (cy == y && cx < x)) ==> #[trigger] interpolated_at(
                        *weighted_average,
                        m0,
                        low_contrast_map@,
                        omap@,
                        w,
                        h,
                        min_interpolate_nbrs,
                        cx,
                        cy,
                    ),
            decreases mw - x,
        {
            proof {
                lemma_offset(x as int, y as int, w, h);
            }
            let idx = (y * mw + x) as usize;
            let ghost prev = omap@;
            if low_contrast_map[idx] == 0 && direction_map[idx] == INVALID_DIR {
                let (weights, total_delta) = interpolation_weights(direction_map, low_contrast_map, x, y, mw, mh);
                let ghost n = nearest_four(m0, low_contrast_map@, w, h, x as int, y as int);
                assert(weights@.len() == n.len() && n.len() <= 4);
                let total_found = weights.len() as i32;
                if total_found >= min_interpolate_nbrs {
                    let ws = weights.as_slice();
                    let v = weighted_average(ws, total_delta);
                    omap.set(idx, v);
                    proof {
                        assert(call_ensures(*weighted_average, (ws, weight_total(n) as i32), v));
                    }
                }
            }
            proof {
                let k0 = idx as int;
                assert forall|k: int| 0 <= k < prev.len() && k0 != k implies #[trigger] omap@[k] == prev[k] by {}
                assert(interpolated_at(*weighted_average, m0, low_contrast_map@, omap@, w, h, min_interpolate_nbrs, x as int, y as int));
                assert forall|cx: int, cy: int|
                    in_grid(cx, cy, w, h) && (cy < y || (cy == y && cx < x + 1)) implies #[trigger] interpolated_at(
                    *weighted_average,
                    m0,
                    low_contrast_map@,
                    omap@,
                    w,
                    h,
                    min_interpolate_nbrs,
                    cx,
                    cy,
                ) by {
                    lemma_offset(cx, cy, w, h);
                    let k = cy * w + cx;
                    if cx == x && cy == y {
                    } else {
                        assert(k < k0) by (nonlinear_arith)
                            requires
                                k == cy * w + cx,
                                k0 == y * w + x,
                                0 <= cx < w,
                                0 <= x < w,
                                cy < y || (cy == y && cx < x),
                        ;
                        assert(interpolated_at(*weighted_average, m0, low_contrast_map@, prev, w, h, min_interpolate_nbrs, cx, cy));
                        assert(omap@[k] == prev[k]);
                    }
                }
            }
            x = x + 1;
        }
        assert((y + 1) * w == y * w + w) by (nonlinear_arith);
        y = y + 1;
    }
    let mut k: usize = 0;
    while k < omap.len()
        invariant
            omap@.len() == m0.len(),
            direction_map@.len() == m0.len(),
            0 <= k <= m0.len(),
            forall|j: int| 0 <= j < k ==> #[trigger] direction_map@[j] == omap@[j],
            forall|j: int| k <= j < m0.len() ==> #[trigger] direction_map@[j] == m0[j],
        decreases m0.len() - k,
    {
        direction_map[k] = omap[k];
        k = k + 1;
    }
    proof {
        assert(direction_map@ =~= omap@);
        assert forall|kk: int| mw * mh <= kk < m0.len() implies #[trigger] direction_map@[kk] == m0[kk] by {
            assert(y * w <= kk);
        }
    }
}

} // verus!
