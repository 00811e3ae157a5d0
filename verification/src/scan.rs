//! Turning a feature found by the horizontal or vertical scan into a candidate minutia.
//!
//! A feature is met between a second and a third matching pixel pair. The candidate sits half
//! way between them, on the row (horizontal scan) or column (vertical scan) of the pair's
//! feature pixel, with its edge pixel beside it. A block without a direction drops it; in a
//! high-curvature block the caller's adjustment (floating-point work on the feature's contour)
//! relocates and re-directs it, drops it, or finds that the contour closes into a loop and
//! processes the loop, which gives the list and the image as they stand afterwards; elsewhere its
//! direction follows from the block's. A kept candidate is then offered to the list.

use vstd::prelude::*;

use crate::contour::INVALID_DIR;
use crate::grid::{at, grid_ok, in_grid, lemma_offset};
use crate::minutia::{
    all_placed, create_minutia, dir_fits, get_low_curvature_direction, low_curvature_direction,
    offered, params_ok, update_minutiae_v2, DetMinutia, Reliability, SCAN_HORIZONTAL, SCAN_VERTICAL,
};

verus! {

/// What adjusting a feature in a high-curvature block came to.
#[derive(Debug)]
pub enum AdjustResult {
    /// The feature is not kept.
    Ignore,
    /// The feature, moved to the point of highest curvature, with its new direction.
    Adjusted {
        /// The new full-circle direction.
        idir: i32,
        /// X of the feature pixel.
        x_loc: i32,
        /// Y of the feature pixel.
        y_loc: i32,
        /// X of the edge pixel.
        x_edge: i32,
        /// Y of the edge pixel.
        y_edge: i32,
    },
    /// The feature's contour closed into a loop, which was processed (filled in the image, or
    /// offered to the list); the feature itself is not kept.
    Loop {
        /// The list after the loop's processing.
        minutiae: Vec<DetMinutia>,
        /// The image after the loop's processing.
        bdata: Vec<u8>,
    },
}

/// Where a scan places a feature met at `(cx, cy)` whose third pair starts at `c2` (a column for
/// the horizontal scan, a row for the vertical one): `(x_loc, y_loc, x_edge, y_edge)`.
pub open spec fn scan_site(scan_dir: int, cx: int, cy: int, c2: int, appearing: bool) -> (int, int, int, int) {
    if scan_dir == SCAN_HORIZONTAL {
        let x = (cx + c2) / 2;
        if appearing {
            (x, cy + 1, x, cy)
        } else {
            (x, cy, x, cy + 1)
        }
    } else {
        let y = (cy + c2) / 2;
        if appearing {
            (cx + 1, y, cx, y)
        } else {
            (cx, y, cx + 1, y)
        }
    }
}

/// The reliability of a minutia found where the low-flow map reads `fmapval`.
pub open spec fn reliability_of(fmapval: int) -> Reliability {
    if fmapval != 0 {
        Reliability::Medium
    } else {
        Reliability::High
    }
}

/// `m` is the fresh candidate with these attributes.
pub open spec fn is_candidate(
    m: DetMinutia,
    x: int,
    y: int,
    ex: int,
    ey: int,
    idir: int,
    reliability: Reliability,
    kind: i32,
    appearing: bool,
    feature_id: i32,
) -> bool {
    &&& m.x == x && m.y == y && m.ex == ex && m.ey == ey
    &&& m.direction == idir && m.reliability == reliability && m.kind == kind
    &&& m.appearing == appearing && m.feature_id == feature_id
    &&& m.nbrs@.len() == 0 && m.ridge_counts@.len() == 0
}

/// The adjustment can be asked about any site of any list and image, relocates a feature only
/// to pixels of a `w`×`h` image with a direction in range, and a processed loop leaves an image
/// of the same size and a list whose minutiae lie on the image.
pub open spec fn adjust_ok<F: Fn(i32, i32, i32, i32, &Vec<DetMinutia>, &Vec<u8>) -> AdjustResult>(
    f: F,
    w: int,
    h: int,
    ndirs: int,
) -> bool {
    &&& forall|a: i32, b: i32, c: i32, d: i32, ms: &Vec<DetMinutia>, img: &Vec<u8>|
        call_requires(f, (a, b, c, d, ms, img))
    &&& forall|a: i32, b: i32, c: i32, d: i32, ms: &Vec<DetMinutia>, img: &Vec<u8>, r: AdjustResult|
        #[trigger] call_ensures(f, (a, b, c, d, ms, img), r) ==> match r {
            AdjustResult::Adjusted { idir, x_loc, y_loc, x_edge, y_edge } => in_grid(
                x_loc as int,
                y_loc as int,
                w,
                h,
            ) && in_grid(x_edge as int, y_edge as int, w, h) && 0 <= idir < 2 * ndirs,
            AdjustResult::Loop { minutiae, bdata } => bdata@.len() == img@.len() && all_placed(
                minutiae@,
                w,
                h,
            ) && minutiae@.len() <= i32::MAX,
            AdjustResult::Ignore => true,
        }
}

/// Where the scan's site holds a direction, the candidate it makes there has a direction within
/// `i32` reach of every direction already in `before`: the one the block's direction gives (which
/// must itself fit an `i32`) in a low-curvature block, any an adjustment can give (`0` up to the
/// full circle) in a high-curvature one.
pub open spec fn directions_fit(
    before: Seq<DetMinutia>,
    scan_dir: int,
    cx: int,
    cy: int,
    c2: int,
    appearing: bool,
    w: int,
    dmap: Seq<i32>,
    cmap: Seq<i32>,
    ndirs: int,
) -> bool {
    let (xl, yl, xe, ye) = scan_site(scan_dir, cx, cy, c2, appearing);
    let d = at(dmap, w, xl, yl);
    d != INVALID_DIR ==> if at(cmap, w, xl, yl) != 0 {
        forall|i: int| 0 <= i < 2 * ndirs ==> #[trigger] dir_fits(before, i)
    } else {
        low_curvature_direction(scan_dir, appearing, d as int, ndirs) <= i32::MAX && dir_fits(
            before,
            low_curvature_direction(scan_dir, appearing, d as int, ndirs),
        )
    }
}

/// What a scan makes of the list when it meets a feature: see the module's documentation.
pub open spec fn scanned<F: Fn(i32, i32, i32, i32, &Vec<DetMinutia>, &Vec<u8>) -> AdjustResult>(
    before_list: Vec<DetMinutia>,
    after: Seq<DetMinutia>,
    image: Vec<u8>,
    image_after: Seq<u8>,
    scan_dir: int,
    cx: int,
    cy: int,
    c2: int,
    feature_id: i32,
    kind: i32,
    appearing: bool,
    w: int,
    h: int,
    dmap: Seq<i32>,
    fmap: Seq<i32>,
    cmap: Seq<i32>,
    delta: int,
    ndirs: int,
    adjust: F,
) -> bool {
    let before = before_list@;
    let bdata = image@;
    let (xl, yl, xe, ye) = scan_site(scan_dir, cx, cy, c2, appearing);
    let dmapval = at(dmap, w, xl, yl);
    let rel = reliability_of(at(fmap, w, xl, yl) as int);
    if dmapval == INVALID_DIR {
        after == before && image_after == bdata
    } else if at(cmap, w, xl, yl) != 0 {
        exists|r: AdjustResult|
            #[trigger] call_ensures(
                adjust,
                (xl as i32, yl as i32, xe as i32, ye as i32, &before_list, &image),
                r,
            ) && match r {
                AdjustResult::Ignore => after == before && image_after == bdata,
                AdjustResult::Adjusted { idir, x_loc, y_loc, x_edge, y_edge } => image_after == bdata
                    && exists|m: DetMinutia|
                    is_candidate(m, x_loc as int, y_loc as int, x_edge as int, y_edge as int, idir as int, rel, kind, appearing, feature_id)
                        && after == offered(before, m, scan_dir, dmapval as int, bdata, w, h, delta, ndirs),
                AdjustResult::Loop { minutiae, bdata: image_out } => after == minutiae@ && image_after
                    == image_out@,
            }
    } else {
        image_after == bdata && exists|m: DetMinutia|
            is_candidate(
                m,
                xl,
                yl,
                xe,
                ye,
                low_curvature_direction(scan_dir, appearing, dmapval as int, ndirs),
                rel,
                kind,
                appearing,
                feature_id,
            ) && after == offered(before, m, scan_dir, dmapval as int, bdata, w, h, delta, ndirs)
    }
}

/// Offer the feature found by a scan at `(cx, cy)`, third pair at `c2`, as a minutia.
fn process_scan_minutia_v2<F: Fn(i32, i32, i32, i32, &Vec<DetMinutia>, &Vec<u8>) -> AdjustResult>(
    minutiae: &mut Vec<DetMinutia>,
    scan_dir: i32,
    cx: i32,
    cy: i32,
    c2: i32,
    feature_id: i32,
    kind: i32,
    appearing: bool,
    bdata: &mut Vec<u8>,
    iw: i32,
    ih: i32,
    pdirection_map: &[i32],
    plow_flow_map: &[i32],
    phigh_curve_map: &[i32],
    max_minutia_delta: i32,
    num_directions: i32,
    adjust: &F,
)
    requires
        scan_dir == SCAN_HORIZONTAL || scan_dir == SCAN_VERTICAL,
        0 <= cx && 0 <= cy && 0 <= c2,
        scan_dir == SCAN_HORIZONTAL ==> cx + c2 <= i32::MAX,
        scan_dir == SCAN_VERTICAL ==> cy + c2 <= i32::MAX,
        ({
            let (xl, yl, xe, ye) = scan_site(scan_dir as int, cx as int, cy as int, c2 as int, appearing);
            in_grid(xl, yl, iw as int, ih as int) && in_grid(xe, ye, iw as int, ih as int)
        }),
        grid_ok(old(bdata)@.len() as int, iw as int, ih as int),
        grid_ok(pdirection_map@.len() as int, iw as int, ih as int),
        grid_ok(plow_flow_map@.len() as int, iw as int, ih as int),
        grid_ok(phigh_curve_map@.len() as int, iw as int, ih as int),
        directions_fit(old(minutiae)@, scan_dir as int, cx as int, cy as int, c2 as int, appearing, iw as int, pdirection_map@, phigh_curve_map@, num_directions as int),
        all_placed(old(minutiae)@, iw as int, ih as int),
        params_ok(max_minutia_delta as int, num_directions as int),
        old(minutiae)@.len() <= i32::MAX,
        adjust_ok(*adjust, iw as int, ih as int, num_directions as int),
    ensures
        scanned(
            *old(minutiae),
            final(minutiae)@,
            *old(bdata),
            final(bdata)@,
            scan_dir as int,
            cx as int,
            cy as int,
            c2 as int,
            feature_id,
            kind,
            appearing,
            iw as int,
            ih as int,
            pdirection_map@,
            plow_flow_map@,
            phigh_curve_map@,
            max_minutia_delta as int,
            num_directions as int,
            *adjust,
        ),
{
    let ghost site = scan_site(scan_dir as int, cx as int, cy as int, c2 as int, appearing);
    let ghost (w, h) = (iw as int, ih as int);
    let (mut x_loc, mut y_loc, mut x_edge, mut y_edge);
    if scan_dir == SCAN_HORIZONTAL {
        let sum = cx + c2;
        assert(sum >> 1 == sum / 2) by (bit_vector)
            requires
                0 <= sum,
        ;
        x_loc = sum >> 1;
        x_edge = x_loc;
        if appearing {
            y_loc = cy + 1;
            y_edge = cy;
        } else {
            y_loc = cy;
            y_edge = cy + 1;
        }
    } else {
        let sum = cy + c2;
        assert(sum >> 1 == sum / 2) by (bit_vector)
            requires
                0 <= sum,
        ;
        y_loc = sum >> 1;
        y_edge = y_loc;
        if appearing {
            x_loc = cx + 1;
            x_edge = cx;
        } else {
            x_loc = cx;
            x_edge = cx + 1;
        }
    }
    assert(site == (x_loc as int, y_loc as int, x_edge as int, y_edge as int));
    proof {
        lemma_offset(x_loc as int, y_loc as int, w, h);
    }
    let idx = (y_loc * iw + x_loc) as usize;
    let dmapval = pdirection_map[idx];
    let fmapval = plow_flow_map[idx];
    let cmapval = phigh_curve_map[idx];
    if dmapval == INVALID_DIR {
        return;
    }
    let idir;
    if cmapval != 0 {
        let r = adjust(x_loc, y_loc, x_edge, y_edge, &*minutiae, &*bdata);
        match r {
            AdjustResult::Ignore => {
                return;
            },
            AdjustResult::Loop { minutiae: ms, bdata: img } => {
                *minutiae = ms;
                *bdata = img;
                return;
            },
            AdjustResult::Adjusted { idir: d, x_loc: xl, y_loc: yl, x_edge: xe, y_edge: ye } => {
                assert(dir_fits(old(minutiae)@, d as int));
                idir = d;
                x_loc = xl;
                y_loc = yl;
                x_edge = xe;
                y_edge = ye;
            },
        }
    } else {
        idir = get_low_curvature_direction(scan_dir, appearing, dmapval, num_directions);
    }
    let reliability = if fmapval != 0 {
        Reliability::Medium
    } else {
        Reliability::High
    };
    let minutia = create_minutia(x_loc, y_loc, x_edge, y_edge, idir, reliability, kind, appearing, feature_id);
    let ghost m = minutia;
    update_minutiae_v2(
        minutiae,
        minutia,
        scan_dir,
        dmapval,
        bdata.as_slice(),
        iw,
        ih,
        max_minutia_delta,
        num_directions,
    );
    assert(is_candidate(m, x_loc as int, y_loc as int, x_edge as int, y_edge as int, idir as int, reliability, kind, appearing, feature_id));
}

/// Offer the feature found by the horizontal scan between rows `cy` and `cy + 1`, its second
/// pair at column `cx` and third at `x2`.
pub fn process_horizontal_scan_minutia_v2<F: Fn(i32, i32, i32, i32, &Vec<DetMinutia>, &Vec<u8>) -> AdjustResult>(
    minutiae: &mut Vec<DetMinutia>,
    cx: i32,
    cy: i32,
    x2: i32,
    feature_id: i32,
    kind: i32,
    appearing: bool,
    bdata: &mut Vec<u8>,
    iw: i32,
    ih: i32,
    pdirection_map: &[i32],
    plow_flow_map: &[i32],
    phigh_curve_map: &[i32],
    max_minutia_delta: i32,
    num_directions: i32,
    adjust: &F,
)
    requires
        0 <= cx <= x2 < iw,
        0 <= cy && cy + 1 < ih,
        grid_ok(old(bdata)@.len() as int, iw as int, ih as int),
        grid_ok(pdirection_map@.len() as int, iw as int, ih as int),
        grid_ok(plow_flow_map@.len() as int, iw as int, ih as int),
        grid_ok(phigh_curve_map@.len() as int, iw as int, ih as int),
        directions_fit(old(minutiae)@, SCAN_HORIZONTAL as int, cx as int, cy as int, x2 as int, appearing, iw as int, pdirection_map@, phigh_curve_map@, num_directions as int),
        all_placed(old(minutiae)@, iw as int, ih as int),
        params_ok(max_minutia_delta as int, num_directions as int),
        old(minutiae)@.len() <= i32::MAX,
        adjust_ok(*adjust, iw as int, ih as int, num_directions as int),
    ensures
        scanned(
            *old(minutiae),
            final(minutiae)@,
            *old(bdata),
            final(bdata)@,
            SCAN_HORIZONTAL as int,
            cx as int,
            cy as int,
            x2 as int,
            feature_id,
            kind,
            appearing,
            iw as int,
            ih as int,
            pdirection_map@,
            plow_flow_map@,
            phigh_curve_map@,
            max_minutia_delta as int,
            num_directions as int,
            *adjust,
        ),
{
    assert(2 * iw <= iw * ih) by (nonlinear_arith)
        requires
            ih >= 2,
            iw >= 0,
    ;
    process_scan_minutia_v2(
        minutiae,
        SCAN_HORIZONTAL,
        cx,
        cy,
        x2,
        feature_id,
        kind,
        appearing,
        bdata,
        iw,
        ih,
        pdirection_map,
        plow_flow_map,
        phigh_curve_map,
        max_minutia_delta,
        num_directions,
        adjust,
    )
}

/// Offer the feature found by the vertical scan between columns `cx` and `cx + 1`, its second
/// pair at row `cy` and third at `y2`.
pub fn process_vertical_scan_minutia_v2<F: Fn(i32, i32, i32, i32, &Vec<DetMinutia>, &Vec<u8>) -> AdjustResult>(
    minutiae: &mut Vec<DetMinutia>,
    cx: i32,
    cy: i32,
    y2: i32,
    feature_id: i32,
    kind: i32,
    appearing: bool,
    bdata: &mut Vec<u8>,
    iw: i32,
    ih: i32,
    pdirection_map: &[i32],
    plow_flow_map: &[i32],
    phigh_curve_map: &[i32],
    max_minutia_delta: i32,
    num_directions: i32,
    adjust: &F,
)
    requires
        0 <= cx && cx + 1 < iw,
        0 <= cy <= y2 < ih,
        grid_ok(old(bdata)@.len() as int, iw as int, ih as int),
        grid_ok(pdirection_map@.len() as int, iw as int, ih as int),
        grid_ok(plow_flow_map@.len() as int, iw as int, ih as int),
        grid_ok(phigh_curve_map@.len() as int, iw as int, ih as int),
        directions_fit(old(minutiae)@, SCAN_VERTICAL as int, cx as int, cy as int, y2 as int, appearing, iw as int, pdirection_map@, phigh_curve_map@, num_directions as int),
        all_placed(old(minutiae)@, iw as int, ih as int),
        params_ok(max_minutia_delta as int, num_directions as int),
        old(minutiae)@.len() <= i32::MAX,
        adjust_ok(*adjust, iw as int, ih as int, num_directions as int),
    ensures
        scanned(
            *old(minutiae),
            final(minutiae)@,
            *old(bdata),
            final(bdata)@,
            SCAN_VERTICAL as int,
            cx as int,
            cy as int,
            y2 as int,
            feature_id,
            kind,
            appearing,
            iw as int,
            ih as int,
            pdirection_map@,
            plow_flow_map@,
            phigh_curve_map@,
            max_minutia_delta as int,
            num_directions as int,
            *adjust,
        ),
{
    assert(2 * ih <= iw * ih) by (nonlinear_arith)
        requires
            iw >= 2,
            ih >= 0,
    ;
    process_scan_minutia_v2(
        minutiae,
        SCAN_VERTICAL,
        cx,
        cy,
        y2,
        feature_id,
        kind,
        appearing,
        bdata,
        iw,
        ih,
        pdirection_map,
        plow_flow_map,
        phigh_curve_map,
        max_minutia_delta,
        num_directions,
        adjust,
    )
}

} // verus!
