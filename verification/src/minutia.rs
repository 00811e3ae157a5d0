//! Candidate minutiae found by the feature scans, and the list they are collected in.
//!
//! A candidate is a feature pixel `(x, y)` paired with an adjacent edge pixel `(ex, ey)`, a
//! full-circle direction, a type (ridge ending or bifurcation) and a scan polarity. Before a
//! candidate joins the list it is compared with the minutiae already there: a near duplicate of
//! the same type, pointing the same way (within 45°) and lying on the same contour, is not added
//! twice.

use vstd::prelude::*;

use crate::contour::{search_contour, search_walk, ScanDir};
use crate::grid::{grid_ok, in_grid, lemma_in_grid_cell_ok, lemma_in_grid_pixel_ok};

verus! {

/// A ridge bifurcation (two ridges meeting).
pub const BIFURCATION: i32 = 0;

/// A ridge ending.
pub const RIDGE_ENDING: i32 = 1;

/// The feature scan runs across rows.
pub const SCAN_HORIZONTAL: i32 = 0;

/// The feature scan runs down columns.
pub const SCAN_VERTICAL: i32 = 1;

/// The feature appears as the scan advances.
pub const APPEARING: i32 = 1;

/// The feature disappears as the scan advances.
pub const DISAPPEARING: i32 = 0;

/// The `feature_id` given to minutiae extracted from a loop.
pub const LOOP_ID: i32 = 10;

/// Error code for a feature/edge pair that is not cardinally adjacent.
pub const ERR_BAD_PIXEL_PAIR: i32 = -240;

/// How far a detection can be trusted: a minutia found in a low ridge-flow block is of medium
/// reliability, any other of high reliability.
#[derive(Clone, Copy, Debug, PartialEq, Eq)]
pub enum Reliability {
    /// Found in a block of low ridge flow.
    Medium,
    /// Found in a block with reliable ridge flow.
    High,
}

/// One candidate minutia during detection.
#[derive(Debug)]
pub struct DetMinutia {
    /// X of the feature pixel.
    pub x: i32,
    /// Y of the feature pixel.
    pub y: i32,
    /// X of the paired edge pixel.
    pub ex: i32,
    /// Y of the paired edge pixel.
    pub ey: i32,
    /// Full-circle direction, `0..2*num_directions`.
    pub direction: i32,
    /// How far the detection can be trusted.
    pub reliability: Reliability,
    /// [`RIDGE_ENDING`] or [`BIFURCATION`].
    pub kind: i32,
    /// Scan polarity: `true` when appearing.
    pub appearing: bool,
    /// Index of the matched feature pattern.
    pub feature_id: i32,
    /// Indices of neighbouring minutiae, filled by ridge counting.
    pub nbrs: Vec<i32>,
    /// Ridge counts to each neighbour, in `nbrs` order.
    pub ridge_counts: Vec<i32>,
}

/// Build a candidate from its detected attributes; its neighbour lists start empty.
pub fn create_minutia(
    x_loc: i32,
    y_loc: i32,
    x_edge: i32,
    y_edge: i32,
    idir: i32,
    reliability: Reliability,
    kind: i32,
    appearing: bool,
    feature_id: i32,
) -> (m: DetMinutia)
    ensures
        m.x == x_loc && m.y == y_loc && m.ex == x_edge && m.ey == y_edge,
        m.direction == idir && m.reliability == reliability && m.kind == kind,
        m.appearing == appearing && m.feature_id == feature_id,
        m.nbrs@.len() == 0 && m.ridge_counts@.len() == 0,
{
    DetMinutia {
        x: x_loc,
        y: y_loc,
        ex: x_edge,
        ey: y_edge,
        direction: idir,
        reliability,
        kind,
        appearing,
        feature_id,
        nbrs: Vec::new(),
        ridge_counts: Vec::new(),
    }
}

/// Remove the minutia at `index`; the later entries slide down one place.
pub fn remove_minutia(index: usize, minutiae: &mut Vec<DetMinutia>)
    requires
        index < old(minutiae)@.len(),
    ensures
        final(minutiae)@ == old(minutiae)@.remove(index as int),
{
    minutiae.remove(index);
}

/// A white (`0`) feature pixel is a bifurcation, any other a ridge ending.
pub fn minutia_type(feature_pix: u8) -> (t: i32)
    ensures
        t == if feature_pix == 0 {
            BIFURCATION
        } else {
            RIDGE_ENDING
        },
{
    if feature_pix == 0 {
        BIFURCATION
    } else {
        RIDGE_ENDING
    }
}

/// The polarity that an edge pixel at `(xe, ye)` gives the feature pixel at `(x, y)`.
pub open spec fn appearing_of(x: int, y: int, xe: int, ye: int) -> Result<i32, i32> {
    if xe < x {
        Ok(APPEARING)
    } else if xe > x {
        Ok(DISAPPEARING)
    } else if ye < y {
        Ok(APPEARING)
    } else if ye > y {
        Ok(DISAPPEARING)
    } else {
        Err(ERR_BAD_PIXEL_PAIR)
    }
}

/// Whether a minutia is appearing or disappearing, from where its edge pixel lies: left of or
/// above the feature pixel is appearing, right of or below is disappearing. The two pixels must
/// differ; the same pixel twice is [`ERR_BAD_PIXEL_PAIR`].
pub fn is_minutia_appearing(x_loc: i32, y_loc: i32, x_edge: i32, y_edge: i32) -> (r: Result<
    i32,
    i32,
>)
    ensures
        r == appearing_of(x_loc as int, y_loc as int, x_edge as int, y_edge as int),
        r is Err <==> (x_loc == x_edge && y_loc == y_edge),
{
    if x_edge < x_loc {
        return Ok(APPEARING);
    }
    if x_edge > x_loc {
        return Ok(DISAPPEARING);
    }
    if y_edge < y_loc {
        return Ok(APPEARING);
    }
    if y_edge > y_loc {
        return Ok(DISAPPEARING);
    }
    Err(ERR_BAD_PIXEL_PAIR)
}

/// The scan that runs across a block of direction `imapval`: relatively vertical ridge flow is
/// scanned horizontally, relatively horizontal flow vertically.
pub open spec fn scan_direction_of(imapval: int, ndirs: int) -> i32 {
    if imapval <= ndirs / 4 || imapval > (ndirs / 4) * 3 {
        SCAN_HORIZONTAL
    } else {
        SCAN_VERTICAL
    }
}

/// Choose the scan orientation for a block from its ridge-flow direction: always orthogonal to
/// the flow.
pub fn choose_scan_direction(imapval: i32, ndirs: i32) -> (s: i32)
    requires
        0 <= ndirs,
    ensures
        s == scan_direction_of(imapval as int, ndirs as int),
{
    let qtr_ndirs = ndirs / 4;
    if imapval <= qtr_ndirs || imapval > (qtr_ndirs * 3) {
        SCAN_HORIZONTAL
    } else {
        SCAN_VERTICAL
    }
}

/// The full-circle direction of a minutia from its block's semicircle direction: the block
/// direction itself, or that direction turned half a circle (`+ ndirs`) when the scan and the
/// polarity show the feature points against the flow.
pub open spec fn low_curvature_direction(
    scan_dir: int,
    appearing: bool,
    imapval: int,
    ndirs: int,
) -> int {
    let against = if imapval <= ndirs / 2 {
        if scan_dir == SCAN_HORIZONTAL {
            appearing
        } else {
            !appearing
        }
    } else {
        !appearing
    };
    if against {
        imapval + ndirs
    } else {
        imapval
    }
}

/// Turn a block's semicircle direction into the minutia's full-circle direction, using the scan
/// orientation and polarity of the feature.
pub fn get_low_curvature_direction(scan_dir: i32, appearing: bool, imapval: i32, ndirs: i32) -> (d:
    i32)
    requires
        0 <= ndirs,
        low_curvature_direction(scan_dir as int, appearing, imapval as int, ndirs as int) <= i32::MAX,
    ensures
        d == low_curvature_direction(scan_dir as int, appearing, imapval as int, ndirs as int),
{
    let mut idir = imapval;
    if imapval <= ndirs / 2 {
        if scan_dir == SCAN_HORIZONTAL {
            if appearing {
                idir += ndirs;
            }
        } else {
            if !appearing {
                idir += ndirs;
            }
        }
    } else if scan_dir == SCAN_HORIZONTAL {
        if !appearing {
            idir += ndirs;
        }
    } else {
        if !appearing {
            idir += ndirs;
        }
    }
    idir
}

/// `|a - b|` on integers.
pub open spec fn abs_diff(a: int, b: int) -> int {
    if a >= b {
        a - b
    } else {
        b - a
    }
}

/// The smaller of the direct and wrap-around distance between two directions on a circle of
/// `full` directions.
pub open spec fn inner_dist(d1: int, d2: int, full: int) -> int {
    let d = abs_diff(d1, d2);
    if d <= full - d {
        d
    } else {
        full - d
    }
}

/// `e` is close to `m`: within `delta` pixels on both axes, of the same type, and pointing the
/// same way within a quarter of the semicircle (45°).
pub open spec fn near_same(e: DetMinutia, m: DetMinutia, delta: int, ndirs: int) -> bool {
    &&& abs_diff(e.x as int, m.x as int) < delta
    &&& abs_diff(e.y as int, m.y as int) < delta
    &&& e.kind == m.kind
    &&& inner_dist(e.direction as int, m.direction as int, 2 * ndirs) <= ndirs / 4
}

/// Walking `e`'s contour either way for up to `delta` points meets `m`.
pub open spec fn shares_contour(
    b: Seq<u8>,
    w: int,
    h: int,
    e: DetMinutia,
    m: DetMinutia,
    delta: int,
) -> bool {
    search_walk(
        b,
        w,
        h,
        delta,
        m.x as int,
        m.y as int,
        e.x as int,
        e.y as int,
        e.ex as int,
        e.ey as int,
        ScanDir::Clockwise,
    ) || search_walk(
        b,
        w,
        h,
        delta,
        m.x as int,
        m.y as int,
        e.x as int,
        e.y as int,
        e.ex as int,
        e.ey as int,
        ScanDir::CounterClockwise,
    )
}

/// `e` already stands for `m`: close to it and either on the same pixel or the same contour.
pub open spec fn duplicates(
    b: Seq<u8>,
    w: int,
    h: int,
    e: DetMinutia,
    m: DetMinutia,
    delta: int,
    ndirs: int,
) -> bool {
    near_same(e, m, delta, ndirs) && ((e.x == m.x && e.y == m.y) || shares_contour(
        b,
        w,
        h,
        e,
        m,
        delta,
    ))
}

/// The feature and edge pixels of `m` lie in the image.
pub open spec fn placed(m: DetMinutia, w: int, h: int) -> bool {
    &&& in_grid(m.x as int, m.y as int, w, h)
    &&& in_grid(m.ex as int, m.ey as int, w, h)
}

/// The direction `d` differs from every direction of `s` by no more than an `i32` holds.
pub open spec fn dir_fits(s: Seq<DetMinutia>, d: int) -> bool {
    forall|k: int| 0 <= k < s.len() ==> abs_diff((#[trigger] s[k]).direction as int, d) <= i32::MAX
}

/// Every minutia of the list is [`placed`].
pub open spec fn all_placed(s: Seq<DetMinutia>, w: int, h: int) -> bool {
    forall|k: int| 0 <= k < s.len() ==> placed(#[trigger] s[k], w, h)
}

/// Parameters that keep the arithmetic of the duplicate test in range: the full circle,
/// `2 * ndirs`, fits an `i32`.
pub open spec fn params_ok(delta: int, ndirs: int) -> bool {
    0 <= ndirs <= 0x3fff_ffff && delta <= 0x7fff_ffff
}

/// Whether `e` and `m` are close in the sense of [`near_same`].
fn is_near_same(e: &DetMinutia, m: &DetMinutia, delta: i32, ndirs: i32) -> (r: bool)
    requires
        0 <= e.x && 0 <= e.y && 0 <= m.x && 0 <= m.y,
        abs_diff(e.direction as int, m.direction as int) <= i32::MAX,
        params_ok(delta as int, ndirs as int),
    ensures
        r == near_same(*e, *m, delta as int, ndirs as int),
{
    let qtr_ndirs = ndirs / 4;
    let full_ndirs = ndirs * 2;
    let dx = if e.x >= m.x {
        e.x - m.x
    } else {
        m.x - e.x
    };
    if dx >= delta {
        return false;
    }
    let dy = if e.y >= m.y {
        e.y - m.y
    } else {
        m.y - e.y
    };
    if dy >= delta {
        return false;
    }
    if e.kind != m.kind {
        return false;
    }
    let mut delta_dir = if e.direction >= m.direction {
        e.direction - m.direction
    } else {
        m.direction - e.direction
    };
    if full_ndirs - delta_dir < delta_dir {
        delta_dir = full_ndirs - delta_dir;
    }
    delta_dir <= qtr_ndirs
}

/// Whether walking `e`'s contour either way for up to `delta` points meets `m`.
fn on_same_contour(
    e: &DetMinutia,
    m: &DetMinutia,
    delta: i32,
    bdata: &[u8],
    iw: i32,
    ih: i32,
) -> (r: bool)
    requires
        grid_ok(bdata@.len() as int, iw as int, ih as int),
        placed(*e, iw as int, ih as int),
    ensures
        r == shares_contour(bdata@, iw as int, ih as int, *e, *m, delta as int),
{
    proof {
        lemma_in_grid_pixel_ok(e.x as int, e.y as int, iw as int, ih as int, bdata@.len() as int);
        lemma_in_grid_cell_ok(e.ex as int, e.ey as int, iw as int, ih as int, bdata@.len() as int);
    }
    search_contour(m.x, m.y, delta, e.x, e.y, e.ex, e.ey, ScanDir::Clockwise, bdata, iw, ih)
        || search_contour(
        m.x,
        m.y,
        delta,
        e.x,
        e.y,
        e.ex,
        e.ey,
        ScanDir::CounterClockwise,
        bdata,
        iw,
        ih,
    )
}

/// Add a detected minutia to the list unless one already there stands for it.
///
/// The list is scanned front to back; `minutia` is dropped as soon as an entry of the same type,
/// within `max_minutia_delta` pixels on both axes and pointing the same way within 45°, either
/// sits on the same pixel or shares its contour (searched both ways for up to
/// `max_minutia_delta` points). Otherwise it is appended.
pub fn update_minutiae(
    minutiae: &mut Vec<DetMinutia>,
    minutia: DetMinutia,
    bdata: &[u8],
    iw: i32,
    ih: i32,
    max_minutia_delta: i32,
    num_directions: i32,
)
    requires
        grid_ok(bdata@.len() as int, iw as int, ih as int),
        all_placed(old(minutiae)@, iw as int, ih as int),
        placed(minutia, iw as int, ih as int),
        dir_fits(old(minutiae)@, minutia.direction as int),
        params_ok(max_minutia_delta as int, num_directions as int),
    ensures
        (exists|k: int|
            0 <= k < old(minutiae)@.len() && duplicates(
                bdata@,
                iw as int,
                ih as int,
                #[trigger] old(minutiae)@[k],
                minutia,
                max_minutia_delta as int,
                num_directions as int,
            )) ==> final(minutiae)@ == old(minutiae)@,
        !(exists|k: int|
            0 <= k < old(minutiae)@.len() && duplicates(
                bdata@,
                iw as int,
                ih as int,
                #[trigger] old(minutiae)@[k],
                minutia,
                max_minutia_delta as int,
                num_directions as int,
            )) ==> final(minutiae)@ == old(minutiae)@.push(minutia),
{
    let ghost (b, w, h) = (bdata@, iw as int, ih as int);
    let n = minutiae.len();
    let mut i: usize = 0;
    while i < n
        invariant
            n == minutiae@.len(),
            minutiae@ == old(minutiae)@,
            b == bdata@,
            w == iw && h == ih,
            grid_ok(bdata@.len() as int, iw as int, ih as int),
            all_placed(minutiae@, w, h),
            placed(minutia, w, h),
            dir_fits(minutiae@, minutia.direction as int),
            params_ok(max_minutia_delta as int, num_directions as int),
            i <= n,
            forall|k: int|
                0 <= k < i ==> !duplicates(
                    b,
                    w,
                    h,
                    #[trigger] minutiae@[k],
                    minutia,
                    max_minutia_delta as int,
                    num_directions as int,
                ),
        decreases n - i,
    {
        let existing = &minutiae[i];
        proof {
            assert(placed(minutiae@[i as int], w, h));
            assert(abs_diff(minutiae@[i as int].direction as int, minutia.direction as int) <= i32::MAX);
        }
        if is_near_same(existing, &minutia, max_minutia_delta, num_directions) {
            if existing.x == minutia.x && existing.y == minutia.y {
                assert(duplicates(b, w, h, minutiae@[i as int], minutia, max_minutia_delta as int, num_directions as int));
                return;
            }
            if on_same_contour(existing, &minutia, max_minutia_delta, bdata, iw, ih) {
                assert(duplicates(b, w, h, minutiae@[i as int], minutia, max_minutia_delta as int, num_directions as int));
                return;
            }
        }
        i += 1;
    }
    minutiae.push(minutia);
}

/// What offering `m` to the list does, walking it back to front from index `i`: the list that
/// results, and whether `m` is then appended.
///
/// An entry close to `m` (see [`near_same`]) on the same pixel keeps the list and drops `m`. One
/// on the same contour is removed in favour of `m` when the block direction is valid and its
/// scan orientation is `m`'s; otherwise the list is kept and `m` dropped.
pub open spec fn offer_walk(
    s: Seq<DetMinutia>,
    i: int,
    m: DetMinutia,
    scan_dir: int,
    dmapval: int,
    b: Seq<u8>,
    w: int,
    h: int,
    delta: int,
    ndirs: int,
) -> (Seq<DetMinutia>, bool)
    decreases i + 1,
{
    if i < 0 || i >= s.len() {
        (s, true)
    } else {
        let e = s[i];
        if !near_same(e, m, delta, ndirs) {
            offer_walk(s, i - 1, m, scan_dir, dmapval, b, w, h, delta, ndirs)
        } else if e.x == m.x && e.y == m.y {
            (s, false)
        } else if !shares_contour(b, w, h, e, m, delta) {
            offer_walk(s, i - 1, m, scan_dir, dmapval, b, w, h, delta, ndirs)
        } else if dmapval >= 0 && scan_direction_of(dmapval, ndirs) == scan_dir {
            offer_walk(s.remove(i), i - 1, m, scan_dir, dmapval, b, w, h, delta, ndirs)
        } else {
            (s, false)
        }
    }
}

/// The list after offering `m`: [`offer_walk`] over the whole list, then `m` appended if kept.
pub open spec fn offered(
    s: Seq<DetMinutia>,
    m: DetMinutia,
    scan_dir: int,
    dmapval: int,
    b: Seq<u8>,
    w: int,
    h: int,
    delta: int,
    ndirs: int,
) -> Seq<DetMinutia> {
    let r = offer_walk(s, s.len() - 1, m, scan_dir, dmapval, b, w, h, delta, ndirs);
    if r.1 {
        r.0.push(m)
    } else {
        r.0
    }
}

/// Offering `m` to a list holding one minutia `e`: a new minutia not close to `e` is appended; one
/// on `e`'s pixel is dropped; one on `e`'s contour replaces `e` exactly when the block direction is
/// valid and the scan across it is the scan that found `m`, and is dropped otherwise; any other
/// close one is appended.
pub proof fn lemma_offer_against_one(
    e: DetMinutia,
    m: DetMinutia,
    scan_dir: int,
    dmapval: int,
    b: Seq<u8>,
    w: int,
    h: int,
    delta: int,
    ndirs: int,
)
    ensures
        !near_same(e, m, delta, ndirs) ==> offered(seq![e], m, scan_dir, dmapval, b, w, h, delta, ndirs)
            == seq![e, m],
        near_same(e, m, delta, ndirs) && e.x == m.x && e.y == m.y ==> offered(
            seq![e],
            m,
            scan_dir,
            dmapval,
            b,
            w,
            h,
            delta,
            ndirs,
        ) == seq![e],
        near_same(e, m, delta, ndirs) && !(e.x == m.x && e.y == m.y) && !shares_contour(b, w, h, e, m, delta)
            ==> offered(seq![e], m, scan_dir, dmapval, b, w, h, delta, ndirs) == seq![e, m],
        near_same(e, m, delta, ndirs) && !(e.x == m.x && e.y == m.y) && shares_contour(b, w, h, e, m, delta)
            ==> offered(seq![e], m, scan_dir, dmapval, b, w, h, delta, ndirs) == if dmapval >= 0
            && scan_direction_of(dmapval, ndirs) == scan_dir {
            seq![m]
        } else {
            seq![e]
        },
{
    let s = seq![e];
    assert(s.len() - 1 == 0);
    assert(s[0] == e);
    assert(s.remove(0) =~= Seq::<DetMinutia>::empty());
    assert(offer_walk(s, -1, m, scan_dir, dmapval, b, w, h, delta, ndirs) == (s, true));
    assert(offer_walk(s.remove(0), -1, m, scan_dir, dmapval, b, w, h, delta, ndirs) == (s.remove(0), true));
    assert(s.push(m) =~= seq![e, m]);
    assert(s.remove(0).push(m) =~= seq![m]);
}

/// Removing an entry keeps every other entry placed.
proof fn lemma_remove_keeps_placed(s: Seq<DetMinutia>, i: int, w: int, h: int, d: int)
    requires
        all_placed(s, w, h),
        dir_fits(s, d),
        0 <= i < s.len(),
    ensures
        all_placed(s.remove(i), w, h),
        dir_fits(s.remove(i), d),
{
    assert forall|k: int| 0 <= k < s.remove(i).len() implies abs_diff((#[trigger] s.remove(i)[k]).direction as int, d) <= i32::MAX by {
        if k < i {
            assert(s.remove(i)[k] == s[k]);
        } else {
            assert(s.remove(i)[k] == s[k + 1]);
        }
    }
    assert forall|k: int| 0 <= k < s.remove(i).len() implies placed(#[trigger] s.remove(i)[k], w, h) by {
        if k < i {
            assert(s.remove(i)[k] == s[k]);
        } else {
            assert(s.remove(i)[k] == s[k + 1]);
        }
    }
}

/// Offer a minutia found by a scan to the list, keeping the better of near-duplicate pairs.
///
/// The list is walked back to front. An entry of the same type, within `max_minutia_delta`
/// pixels on both axes and pointing the same way within 45°, on the same pixel as `minutia`,
/// drops `minutia`. If it lies on the same contour instead, the block's direction `dmapval`
/// decides: when it is valid and calls for the scan that found `minutia`, the entry is removed
/// and the walk goes on; otherwise `minutia` is dropped. A `minutia` that survives the walk is
/// appended. Removals made before a drop stand.
#[verifier::loop_isolation(false)]
pub fn update_minutiae_v2(
    minutiae: &mut Vec<DetMinutia>,
    minutia: DetMinutia,
    scan_dir: i32,
    dmapval: i32,
    bdata: &[u8],
    iw: i32,
    ih: i32,
    max_minutia_delta: i32,
    num_directions: i32,
)
    requires
        grid_ok(bdata@.len() as int, iw as int, ih as int),
        all_placed(old(minutiae)@, iw as int, ih as int),
        placed(minutia, iw as int, ih as int),
        dir_fits(old(minutiae)@, minutia.direction as int),
        params_ok(max_minutia_delta as int, num_directions as int),
        old(minutiae)@.len() <= i32::MAX,
    ensures
        final(minutiae)@ == offered(
            old(minutiae)@,
            minutia,
            scan_dir as int,
            dmapval as int,
            bdata@,
            iw as int,
            ih as int,
            max_minutia_delta as int,
            num_directions as int,
        ),
        old(minutiae)@.len() == 1 && near_same(
            old(minutiae)@[0],
            minutia,
            max_minutia_delta as int,
            num_directions as int,
        ) && !(old(minutiae)@[0].x == minutia.x && old(minutiae)@[0].y == minutia.y) && shares_contour(
            bdata@,
            iw as int,
            ih as int,
            old(minutiae)@[0],
            minutia,
            max_minutia_delta as int,
        ) ==> final(minutiae)@ == if dmapval >= 0 && scan_direction_of(dmapval as int, num_directions as int)
            == scan_dir {
            seq![minutia]
        } else {
            old(minutiae)@
        },
{
    let ghost (b, w, h) = (bdata@, iw as int, ih as int);
    let ghost (delta, nd) = (max_minutia_delta as int, num_directions as int);
    proof {
        if old(minutiae)@.len() == 1 {
            lemma_offer_against_one(
                old(minutiae)@[0],
                minutia,
                scan_dir as int,
                dmapval as int,
                b,
                w,
                h,
                delta,
                nd,
            );
            assert(old(minutiae)@ =~= seq![old(minutiae)@[0]]);
        }
    }
    let ghost whole = offer_walk(
        old(minutiae)@,
        old(minutiae)@.len() - 1,
        minutia,
        scan_dir as int,
        dmapval as int,
        b,
        w,
        h,
        delta,
        nd,
    );
    let mut i: i32 = minutiae.len() as i32 - 1;
    while i >= 0
        invariant
            -1 <= i < minutiae@.len(),
            b == bdata@,
            w == iw && h == ih,
            delta == max_minutia_delta && nd == num_directions,
            grid_ok(bdata@.len() as int, iw as int, ih as int),
            all_placed(minutiae@, w, h),
            placed(minutia, w, h),
            dir_fits(minutiae@, minutia.direction as int),
            params_ok(delta, nd),
            offer_walk(minutiae@, i as int, minutia, scan_dir as int, dmapval as int, b, w, h, delta, nd)
                == whole,
            whole == offer_walk(
                old(minutiae)@,
                old(minutiae)@.len() - 1,
                minutia,
                scan_dir as int,
                dmapval as int,
                b,
                w,
                h,
                delta,
                nd,
            ),
        decreases i + 1,
    {
        let idx = i as usize;
        proof {
            assert(placed(minutiae@[i as int], w, h));
            assert(abs_diff(minutiae@[i as int].direction as int, minutia.direction as int) <= i32::MAX);
        }
        if is_near_same(&minutiae[idx], &minutia, max_minutia_delta, num_directions) {
            if minutiae[idx].x == minutia.x && minutiae[idx].y == minutia.y {
                return;
            }
            if on_same_contour(&minutiae[idx], &minutia, max_minutia_delta, bdata, iw, ih) {
                if dmapval >= 0 {
                    let map_scan_dir = choose_scan_direction(dmapval, num_directions);
                    if map_scan_dir == scan_dir {
                        proof {
                            lemma_remove_keeps_placed(minutiae@, i as int, w, h, minutia.direction as int);
                        }
                        remove_minutia(idx, minutiae);
                    } else {
                        return;
                    }
                } else {
                    return;
                }
            }
        }
        i -= 1;
    }
    minutiae.push(minutia);
}

/// A detected minutia in the detector's own terms: pixel position with origin top-left, full-circle
/// direction on `0..2*num_directions`, type ([`BIFURCATION`] or [`RIDGE_ENDING`]) and polarity
/// (`1` appearing, `0` disappearing).
#[derive(Clone, Copy, PartialEq, Eq, Debug)]
pub struct RawMinutia {
    /// Pixel x, origin top-left.
    pub x: i32,
    /// Pixel y, origin top-left.
    pub y: i32,
    /// Full-circle direction.
    pub direction: i32,
    /// [`BIFURCATION`] or [`RIDGE_ENDING`].
    pub kind: i32,
    /// `1` appearing, `0` disappearing.
    pub appearing: i32,
}

/// The raw row of a detected minutia.
pub open spec fn raw_of(m: DetMinutia) -> RawMinutia {
    RawMinutia {
        x: m.x,
        y: m.y,
        direction: m.direction,
        kind: m.kind,
        appearing: if m.appearing {
            1
        } else {
            0
        },
    }
}

/// The raw rows of a detected list, in list order.
pub fn to_raw(minutiae: &[DetMinutia]) -> (r: Vec<RawMinutia>)
    ensures
        r@.len() == minutiae@.len(),
        forall|k: int| 0 <= k < minutiae@.len() ==> #[trigger] r@[k] == raw_of(minutiae@[k]),
{
    let mut out: Vec<RawMinutia> = Vec::with_capacity(minutiae.len());
    let mut k: usize = 0;
    while k < minutiae.len()
        invariant
            k <= minutiae@.len(),
            out@.len() == k,
            forall|j: int| 0 <= j < k ==> #[trigger] out@[j] == raw_of(minutiae@[j]),
        decreases minutiae@.len() - k,
    {
        let m = &minutiae[k];
        out.push(RawMinutia { x: m.x, y: m.y, direction: m.direction, kind: m.kind, appearing: if m.appearing {
            1
        } else {
            0
        } });
        k += 1;
    }
    out
}

} // verus!
