//! From the initial block maps to the finished ones.
//!
//! The initial maps come from the image's frequency analysis. The Low Flow map is then closed;
//! the Direction map is pruned, smoothed, interpolated, pruned and smoothed again, and its
//! margin set INVALID; the High Curvature map is computed from the result. The floating-point
//! block tests (the pruning test, the neighbour average, the weighted interpolation average) are
//! the caller's, handed in as closures.

use vstd::prelude::*;

use crate::contour::INVALID_DIR;
use crate::grid::{at, grid_ok, in_grid};
use crate::maps::{
    closed_map, gen_high_curve_map, high_curve_at, morph_tf_map, on_margin,
    set_margin_blocks, CurveParams,
};
use crate::prune::{justified, prunes_only, remove_incon_dirs, repeated_passes, settled_at, total};
use crate::smooth::{
    interpolate_direction_map, interpolated_at, smooth_direction_map, smoothed, smoothed_at,
    small_map, NbrAverage,
};

verus! {

/// The thresholds of the refinement stages.
pub struct MapParams {
    /// Valid neighbours needed to overwrite a valid direction when smoothing.
    pub rmv_valid_nbr_min: i32,
    /// Valid neighbours needed to fill an INVALID direction when smoothing.
    pub smth_valid_nbr_min: i32,
    /// Nearest valid neighbours needed to interpolate an INVALID block.
    pub min_interpolate_nbrs: i32,
    /// The high-curvature test's thresholds.
    pub curve: CurveParams,
}

/// `after` prunes `before` with the block test `f`: the map the ordered pruning passes give when
/// repeated until one removes nothing; so only invalidations, each justified, and a fixed point
/// of the test.
pub open spec fn pruned<F: Fn(&[i32], i32, i32) -> bool>(
    f: F,
    before: Seq<i32>,
    after: &[i32],
    w: int,
    h: int,
) -> bool {
    &&& repeated_passes(f, before, after@, w, h)
    &&& prunes_only(before, after@)
    &&& justified(f, before, after@, w, h)
    &&& forall|x: int, y: int| in_grid(x, y, w, h) ==> #[trigger] settled_at(f, after, w, x, y)
}

/// `after` smooths `before` in raster order with the neighbour average `f`.
pub open spec fn smoothed_map<F: Fn(&[i32], i32, i32) -> NbrAverage>(
    f: F,
    before: Seq<i32>,
    after: Seq<i32>,
    lc: Seq<i32>,
    w: int,
    h: int,
    p: MapParams,
) -> bool {
    &&& after.len() == before.len()
    &&& forall|k: int| w * h <= k < before.len() ==> #[trigger] after[k] == before[k]
    &&& forall|x: int, y: int|
        in_grid(x, y, w, h) ==> #[trigger] smoothed_at(
            f,
            before,
            after,
            lc,
            w,
            x,
            y,
            p.rmv_valid_nbr_min,
            p.smth_valid_nbr_min,
        )
}

/// `after` interpolates `before` with the weighted average `f`.
pub open spec fn interpolated_map<F: Fn(&[(i32, i32)], i32) -> i32>(
    f: F,
    before: Seq<i32>,
    lc: Seq<i32>,
    after: Seq<i32>,
    w: int,
    h: int,
    p: MapParams,
) -> bool {
    &&& after.len() == before.len()
    &&& forall|k: int| w * h <= k < before.len() ==> #[trigger] after[k] == before[k]
    &&& forall|x: int, y: int|
        in_grid(x, y, w, h) ==> #[trigger] interpolated_at(f, before, lc, after, w, h, p.min_interpolate_nbrs, x, y)
}

/// `after` is `before` with its margin set INVALID.
pub open spec fn margined(before: Seq<i32>, after: Seq<i32>, w: int, h: int) -> bool {
    &&& after.len() == before.len()
    &&& forall|k: int| w * h <= k < before.len() ==> #[trigger] after[k] == before[k]
    &&& forall|x: int, y: int|
        in_grid(x, y, w, h) ==> #[trigger] at(after, w, x, y) == if on_margin(x, y, w, h) {
            INVALID_DIR
        } else {
            at(before, w, x, y)
        }
}

/// `dm` is the refined Direction map of `dm0`: pruned, smoothed, interpolated, pruned, smoothed,
/// and margined, in that order.
pub open spec fn refined<
    R: Fn(&[i32], i32, i32) -> bool,
    A: Fn(&[i32], i32, i32) -> NbrAverage,
    W: Fn(&[(i32, i32)], i32) -> i32,
>(rejects: R, average: A, weighted_average: W, dm0: Seq<i32>, lc: Seq<i32>, dm: Seq<i32>, w: int, h: int, p: MapParams) -> bool {
    exists|d1: &[i32], d2: Seq<i32>, d3: Seq<i32>, d4: &[i32], d5: Seq<i32>|
        #![trigger pruned(rejects, dm0, d1, w, h), pruned(rejects, d3, d4, w, h), smoothed_map(average, d4@, d5, lc, w, h, p), smoothed_map(average, d1@, d2, lc, w, h, p)]
        {
            &&& pruned(rejects, dm0, d1, w, h)
            &&& smoothed_map(average, d1@, d2, lc, w, h, p)
            &&& interpolated_map(weighted_average, d2, lc, d3, w, h, p)
            &&& pruned(rejects, d3, d4, w, h)
            &&& smoothed_map(average, d4@, d5, lc, w, h, p)
            &&& margined(d5, dm, w, h)
        }
}

/// The neighbour average can be asked about any block of any map.
pub open spec fn average_ok<A: Fn(&[i32], i32, i32) -> NbrAverage>(f: A) -> bool {
    forall|m: &[i32], x: i32, y: i32| call_requires(f, (m, x, y))
}

/// The weighted average can be asked about any neighbours and weight.
pub open spec fn weighted_ok<W: Fn(&[(i32, i32)], i32) -> i32>(f: W) -> bool {
    forall|v: &[(i32, i32)], t: i32| call_requires(f, (v, t))
}

/// Refine the initial maps in place: close the Low Flow map, refine the Direction map (see
/// [`refined`]), and return the High Curvature map of the result.
pub fn refine_image_maps<
    R: Fn(&[i32], i32, i32) -> bool,
    A: Fn(&[i32], i32, i32) -> NbrAverage,
    W: Fn(&[(i32, i32)], i32) -> i32,
>(
    direction_map: &mut [i32],
    low_contrast_map: &[i32],
    low_flow_map: &mut [i32],
    mw: i32,
    mh: i32,
    p: &MapParams,
    rejects: &R,
    average: &A,
    weighted_average: &W,
) -> (high_curve_map: Vec<i32>)
    requires
        grid_ok(old(direction_map)@.len() as int, mw as int, mh as int),
        grid_ok(low_contrast_map@.len() as int, mw as int, mh as int),
        grid_ok(old(low_flow_map)@.len() as int, mw as int, mh as int),
        old(low_flow_map)@.len() == mw * mh,
        small_map(mw as int, mh as int),
        0 <= p.curve.num_directions,
        total(*rejects),
        average_ok(*average),
        weighted_ok(*weighted_average),
    ensures
        final(low_flow_map)@ == closed_map(old(low_flow_map)@, mw as int, mh as int),
        refined(
            *rejects,
            *average,
            *weighted_average,
            old(direction_map)@,
            low_contrast_map@,
            final(direction_map)@,
            mw as int,
            mh as int,
            *p,
        ),
        high_curve_map@.len() == mw * mh,
        forall|x: int, y: int|
            in_grid(x, y, mw as int, mh as int) ==> #[trigger] at(high_curve_map@, mw as int, x, y)
                == high_curve_at(final(direction_map)@, mw as int, mh as int, x, y, p.curve),
{
    let ghost (w, h) = (mw as int, mh as int);
    let ghost dm0 = direction_map@;
    let ghost lc = low_contrast_map@;
    morph_tf_map(low_flow_map, mw, mh);

    remove_incon_dirs(direction_map, mw, mh, rejects);
    let ghost d1: &[i32] = &*direction_map;
    assert(pruned(*rejects, dm0, d1, w, h));

    smooth_direction_map(
        direction_map,
        low_contrast_map,
        mw,
        mh,
        p.rmv_valid_nbr_min,
        p.smth_valid_nbr_min,
        average,
    );
    let ghost d2 = direction_map@;
    assert(smoothed_map(*average, d1@, d2, lc, w, h, *p));

    interpolate_direction_map(direction_map, low_contrast_map, mw, mh, p.min_interpolate_nbrs, weighted_average);
    let ghost d3 = direction_map@;
    assert(interpolated_map(*weighted_average, d2, lc, d3, w, h, *p));

    remove_incon_dirs(direction_map, mw, mh, rejects);
    let ghost d4: &[i32] = &*direction_map;
    assert(pruned(*rejects, d3, d4, w, h));

    smooth_direction_map(
        direction_map,
        low_contrast_map,
        mw,
        mh,
        p.rmv_valid_nbr_min,
        p.smth_valid_nbr_min,
        average,
    );
    let ghost d5 = direction_map@;
    assert(smoothed_map(*average, d4@, d5, lc, w, h, *p));

    set_margin_blocks(direction_map, mw, mh, INVALID_DIR);
    assert(margined(d5, direction_map@, w, h));
    assert(refined(*rejects, *average, *weighted_average, dm0, lc, direction_map@, w, h, *p));

    gen_high_curve_map(direction_map, mw, mh, &p.curve)
}

} // verus!
