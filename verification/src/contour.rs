//! Ridge/valley contour tracing around a candidate minutia point.
//!
//! A feature is a run of pixels of one colour in the binary image (`1` = ridge, `0` = valley).
//! Each interior *contour* pixel is paired with an *edge* pixel of the opposite colour just
//! outside the feature. [`trace_contour`] walks that interior edge one 8-connected step at a time;
//! [`next_contour_pixel`] scans the eight neighbours of the current feature pixel, clockwise or
//! counter-clockwise, for the next feature/edge pair, skipping exposed corner pixels.
//!
//! The neighbour indices run clockwise from due north:
//!
//! ```text
//!   7 0 1        NW N NE
//!   6 . 2   ==    W . E
//!   5 4 3        SW S SE
//! ```

use vstd::prelude::*;

use crate::grid::{
    at, byte_at, c_rem, cell_ok, grid_ok, in_grid, lemma_in_grid_cell_ok, lemma_in_grid_pixel_ok, pixel,
    pixel_ok,
};

verus! {

/// Neighbour index of the pixel due north.
pub const NORTH: i32 = 0;

/// Neighbour index of the pixel due east.
pub const EAST: i32 = 2;

/// Neighbour index of the pixel due south.
pub const SOUTH: i32 = 4;

/// Neighbour index of the pixel due west.
pub const WEST: i32 = 6;

/// A direction that could not be determined.
pub const INVALID_DIR: i32 = -1;

/// X offset of neighbour `i` (indices outside `0..8` read as the last column, west).
pub open spec fn nbr_dx(i: int) -> int {
    if i == 0 || i == 4 {
        0
    } else if 1 <= i <= 3 {
        1
    } else {
        -1
    }
}

/// Y offset of neighbour `i` (image rows grow downward).
pub open spec fn nbr_dy(i: int) -> int {
    if i == 2 || i == 6 {
        0
    } else if i == 0 || i == 1 || i == 7 {
        -1
    } else {
        1
    }
}

/// X offset of neighbour `i`.
pub fn nbr8_dx(i: i32) -> (d: i32)
    requires
        0 <= i < 8,
    ensures
        d == nbr_dx(i as int),
{
    if i == 0 || i == 4 {
        0
    } else if 1 <= i && i <= 3 {
        1
    } else {
        -1
    }
}

/// Y offset of neighbour `i`.
pub fn nbr8_dy(i: i32) -> (d: i32)
    requires
        0 <= i < 8,
    ensures
        d == nbr_dy(i as int),
{
    if i == 2 || i == 6 {
        0
    } else if i == 0 || i == 1 || i == 7 {
        -1
    } else {
        1
    }
}

/// Direction in which the eight neighbours of a feature pixel are scanned.
#[derive(Clone, Copy, Debug, PartialEq, Eq)]
pub enum ScanDir {
    /// Advance the neighbour index one position clockwise.
    Clockwise,
    /// Advance the neighbour index one position counter-clockwise.
    CounterClockwise,
}

/// The neighbour index of `(xn, yn)` seen from `(xp, yp)` for a north/south/east/west pair,
/// [`INVALID_DIR`] otherwise.
pub open spec fn start_nbr(xp: int, yp: int, xn: int, yn: int) -> int {
    if xp == xn && yn > yp {
        SOUTH as int
    } else if xp == xn && yn < yp {
        NORTH as int
    } else if xn > xp && yp == yn {
        EAST as int
    } else if xn < xp && yp == yn {
        WEST as int
    } else {
        INVALID_DIR as int
    }
}

/// One step of the neighbour index in the scan direction (C remainder, as the reference).
pub open spec fn next_nbr(i: int, scan: ScanDir) -> int {
    match scan {
        ScanDir::Clockwise => c_rem(i + 1, 8),
        ScanDir::CounterClockwise => c_rem(i + 7, 8),
    }
}

/// Position of the second pixel relative to the first for a cardinally aligned pair.
pub fn start_scan_nbr(x_prev: i32, y_prev: i32, x_next: i32, y_next: i32) -> (r: i32)
    ensures
        r == start_nbr(x_prev as int, y_prev as int, x_next as int, y_next as int),
{
    if x_prev == x_next && y_next > y_prev {
        SOUTH
    } else if x_prev == x_next && y_next < y_prev {
        NORTH
    } else if x_next > x_prev && y_prev == y_next {
        EAST
    } else if x_next < x_prev && y_prev == y_next {
        WEST
    } else {
        INVALID_DIR
    }
}

/// Advance an 8-connected neighbour index one position in the given scan direction.
pub fn next_scan_nbr(nbr_i: i32, scan: ScanDir) -> (r: i32)
    requires
        nbr_i <= i32::MAX - 7,
    ensures
        r == next_nbr(nbr_i as int, scan),
{
    match scan {
        ScanDir::Clockwise => (nbr_i + 1) % 8,
        ScanDir::CounterClockwise => (nbr_i + 7) % 8,
    }
}

/// Stepping one neighbour clockwise and then one counter-clockwise returns to the start.
pub proof fn lemma_scan_steps_invert(i: int)
    requires
        0 <= i < 8,
    ensures
        next_nbr(next_nbr(i, ScanDir::Clockwise), ScanDir::CounterClockwise) == i,
        next_nbr(next_nbr(i, ScanDir::CounterClockwise), ScanDir::Clockwise) == i,
        0 <= next_nbr(i, ScanDir::Clockwise) < 8,
        0 <= next_nbr(i, ScanDir::CounterClockwise) < 8,
{
}

/// For a cardinal neighbour, the index [`start_scan_nbr`] names points back at that neighbour.
pub proof fn lemma_start_nbr_names_the_neighbour(xp: int, yp: int, xn: int, yn: int)
    requires
        (xn - xp == 0 && (yn - yp == 1 || yn - yp == -1)) || (yn - yp == 0 && (xn - xp == 1 || xn
            - xp == -1)),
    ensures
        0 <= start_nbr(xp, yp, xn, yn) < 8,
        xp + nbr_dx(start_nbr(xp, yp, xn, yn)) == xn,
        yp + nbr_dy(start_nbr(xp, yp, xn, yn)) == yn,
{
}

/// The rest of the neighbour scan around `(lx, ly)` from step `i` on, having just looked at
/// `(cx, cy)` (value `cpix`) at neighbour index `nbr`: the next contour pixel and its edge pixel,
/// if any. `fpix` and `epix` are the feature and edge colours.
pub open spec fn scan_nbrs(
    b: Seq<u8>,
    w: int,
    h: int,
    lx: int,
    ly: int,
    fpix: u8,
    epix: u8,
    scan: ScanDir,
    i: int,
    nbr: int,
    cx: int,
    cy: int,
    cpix: u8,
) -> Option<(int, int, int, int)>
    decreases 9 - i,
{
    if i >= 8 {
        None
    } else {
        let ni = next_nbr(nbr, scan);
        let nx = lx + nbr_dx(ni);
        let ny = ly + nbr_dy(ni);
        if !in_grid(nx, ny, w, h) {
            None
        } else {
            let npix = at(b, w, nx, ny);
            if npix == fpix && cpix == epix {
                if ni % 2 != 0 {
                    let ai = next_nbr(ni, scan);
                    let ax = lx + nbr_dx(ai);
                    let ay = ly + nbr_dy(ai);
                    if !in_grid(ax, ay, w, h) {
                        None
                    } else if at(b, w, ax, ay) == fpix {
                        Some((nx, ny, cx, cy))
                    } else {
                        scan_nbrs(b, w, h, lx, ly, fpix, epix, scan, i + 2, ai, ax, ay, at(b, w, ax, ay))
                    }
                } else {
                    Some((nx, ny, cx, cy))
                }
            } else {
                scan_nbrs(b, w, h, lx, ly, fpix, epix, scan, i + 1, ni, nx, ny, npix)
            }
        }
    }
}

/// The next contour pixel after feature pixel `(cx, cy)` with edge pixel `(ex, ey)`, as
/// `(x, y, edge_x, edge_y)`, or `None` when the scan leaves the image or finds no pair.
pub open spec fn next_pixel(
    b: Seq<u8>,
    w: int,
    h: int,
    cx: int,
    cy: int,
    ex: int,
    ey: int,
    scan: ScanDir,
) -> Option<(int, int, int, int)> {
    scan_nbrs(
        b,
        w,
        h,
        cx,
        cy,
        at(b, w, cx, cy),
        at(b, w, ex, ey),
        scan,
        0,
        start_nbr(cx, cy, ex, ey),
        ex,
        ey,
        at(b, w, ex, ey),
    )
}

/// What the neighbour scan finds is an in-image 8-neighbour of the feature pixel with the
/// feature's colour, paired with an in-image pixel of the edge's colour.
pub proof fn lemma_scan_nbrs_sound(
    b: Seq<u8>,
    w: int,
    h: int,
    lx: int,
    ly: int,
    fpix: u8,
    epix: u8,
    scan: ScanDir,
    i: int,
    nbr: int,
    cx: int,
    cy: int,
    cpix: u8,
)
    requires
        cpix == at(b, w, cx, cy),
    ensures
        scan_nbrs(b, w, h, lx, ly, fpix, epix, scan, i, nbr, cx, cy, cpix) matches Some(
            p,
        ) ==> {
            &&& in_grid(p.0, p.1, w, h)
            &&& -1 <= p.0 - lx <= 1
            &&& -1 <= p.1 - ly <= 1
            &&& (p.0 != lx || p.1 != ly)
            &&& at(b, w, p.0, p.1) == fpix
            &&& (in_grid(p.2, p.3, w, h) || (p.2 == cx && p.3 == cy))
            &&& at(b, w, p.2, p.3) == epix
        },
    decreases 9 - i,
{
    if i < 8 {
        let ni = next_nbr(nbr, scan);
        let nx = lx + nbr_dx(ni);
        let ny = ly + nbr_dy(ni);
        if in_grid(nx, ny, w, h) {
            let npix = at(b, w, nx, ny);
            if npix == fpix && cpix == epix {
                if ni % 2 != 0 {
                    let ai = next_nbr(ni, scan);
                    let ax = lx + nbr_dx(ai);
                    let ay = ly + nbr_dy(ai);
                    if in_grid(ax, ay, w, h) && at(b, w, ax, ay) != fpix {
                        lemma_scan_nbrs_sound(
                            b,
                            w,
                            h,
                            lx,
                            ly,
                            fpix,
                            epix,
                            scan,
                            i + 2,
                            ai,
                            ax,
                            ay,
                            at(b, w, ax, ay),
                        );
                    }
                }
            } else {
                lemma_scan_nbrs_sound(b, w, h, lx, ly, fpix, epix, scan, i + 1, ni, nx, ny, npix);
            }
        }
    }
}

/// The next contour pixel, like [`next_pixel`], is an 8-neighbour of the feature pixel with the
/// feature's colour, and its edge pixel has the edge's colour.
pub proof fn lemma_next_pixel_sound(
    b: Seq<u8>,
    w: int,
    h: int,
    cx: int,
    cy: int,
    ex: int,
    ey: int,
    scan: ScanDir,
)
    ensures
        next_pixel(b, w, h, cx, cy, ex, ey, scan) matches Some(p) ==> {
            &&& in_grid(p.0, p.1, w, h)
            &&& -1 <= p.0 - cx <= 1
            &&& -1 <= p.1 - cy <= 1
            &&& (p.0 != cx || p.1 != cy)
            &&& at(b, w, p.0, p.1) == at(b, w, cx, cy)
            &&& (in_grid(p.2, p.3, w, h) || (p.2 == ex && p.3 == ey))
            &&& at(b, w, p.2, p.3) == at(b, w, ex, ey)
        },
{
    lemma_scan_nbrs_sound(
        b,
        w,
        h,
        cx,
        cy,
        at(b, w, cx, cy),
        at(b, w, ex, ey),
        scan,
        0,
        start_nbr(cx, cy, ex, ey),
        ex,
        ey,
        at(b, w, ex, ey),
    );
}

/// Locate the next pixel on a feature's interior contour.
///
/// Scans the eight neighbours of feature pixel `(cur_x_loc, cur_y_loc)` in the `scan` direction,
/// starting from its edge pixel, for the first pair whose leading pixel has the feature's colour
/// and whose trailing pixel has the edge's colour; an exposed corner is skipped. Returns
/// `(next_x_loc, next_y_loc, next_x_edge, next_y_edge)`, or `None` when a neighbour falls outside
/// the image or no pair exists. The feature and edge pixels themselves need only lie in the
/// buffer; every neighbour is checked against the image before it is read.
pub fn next_contour_pixel(
    cur_x_loc: i32,
    cur_y_loc: i32,
    cur_x_edge: i32,
    cur_y_edge: i32,
    scan: ScanDir,
    bdata: &[u8],
    iw: i32,
    ih: i32,
) -> (r: Option<(i32, i32, i32, i32)>)
    requires
        grid_ok(bdata@.len() as int, iw as int, ih as int),
        pixel_ok(cur_x_loc as int, cur_y_loc as int, iw as int, bdata@.len() as int),
        cell_ok(cur_x_edge as int, cur_y_edge as int, iw as int, bdata@.len() as int),
    ensures
        r matches Some(p) ==> next_pixel(
            bdata@,
            iw as int,
            ih as int,
            cur_x_loc as int,
            cur_y_loc as int,
            cur_x_edge as int,
            cur_y_edge as int,
            scan,
        ) == Some((p.0 as int, p.1 as int, p.2 as int, p.3 as int)),
        r is None ==> next_pixel(
            bdata@,
            iw as int,
            ih as int,
            cur_x_loc as int,
            cur_y_loc as int,
            cur_x_edge as int,
            cur_y_edge as int,
            scan,
        ) is None,
{
    let ghost b = bdata@;
    let ghost (w, h) = (iw as int, ih as int);
    let ghost (lx, ly) = (cur_x_loc as int, cur_y_loc as int);
    let feature_pix = byte_at(bdata, iw, cur_x_loc, cur_y_loc);
    let edge_pix = byte_at(bdata, iw, cur_x_edge, cur_y_edge);
    let ghost target = next_pixel(
        b,
        w,
        h,
        lx,
        ly,
        cur_x_edge as int,
        cur_y_edge as int,
        scan,
    );

    let mut nbr_i = start_scan_nbr(cur_x_loc, cur_y_loc, cur_x_edge, cur_y_edge);
    let mut cur_nbr_x = cur_x_edge;
    let mut cur_nbr_y = cur_y_edge;
    let mut cur_nbr_pix = edge_pix;

    let mut i: i32 = 0;
    while i < 8
        invariant
            0 <= i <= 9,
            -1 <= nbr_i < 8,
            b == bdata@,
            w == iw as int,
            h == ih as int,
            lx == cur_x_loc as int,
            ly == cur_y_loc as int,
            grid_ok(bdata@.len() as int, iw as int, ih as int),
            pixel_ok(cur_x_loc as int, cur_y_loc as int, iw as int, bdata@.len() as int),
            feature_pix == at(b, w, lx, ly),
            edge_pix == at(b, w, cur_x_edge as int, cur_y_edge as int),
            target == next_pixel(b, w, h, lx, ly, cur_x_edge as int, cur_y_edge as int, scan),
            target == scan_nbrs(
                b,
                w,
                h,
                lx,
                ly,
                feature_pix,
                edge_pix,
                scan,
                i as int,
                nbr_i as int,
                cur_nbr_x as int,
                cur_nbr_y as int,
                cur_nbr_pix,
            ),
        decreases 9 - i,
    {
        let prev_nbr_x = cur_nbr_x;
        let prev_nbr_y = cur_nbr_y;
        let prev_nbr_pix = cur_nbr_pix;

        nbr_i = next_scan_nbr(nbr_i, scan);
        cur_nbr_x = cur_x_loc + nbr8_dx(nbr_i);
        cur_nbr_y = cur_y_loc + nbr8_dy(nbr_i);

        if cur_nbr_x < 0 || cur_nbr_x >= iw || cur_nbr_y < 0 || cur_nbr_y >= ih {
            return None;
        }
        cur_nbr_pix = pixel(bdata, iw, ih, cur_nbr_x, cur_nbr_y);

        if cur_nbr_pix == feature_pix && prev_nbr_pix == edge_pix {
            if nbr_i % 2 != 0 {
                let ni = next_scan_nbr(nbr_i, scan);
                let nx = cur_x_loc + nbr8_dx(ni);
                let ny = cur_y_loc + nbr8_dy(ni);
                if nx < 0 || nx >= iw || ny < 0 || ny >= ih {
                    return None;
                }
                let npix = pixel(bdata, iw, ih, nx, ny);
                if npix == feature_pix {
                    return Some((cur_nbr_x, cur_nbr_y, prev_nbr_x, prev_nbr_y));
                }
                cur_nbr_x = nx;
                cur_nbr_y = ny;
                cur_nbr_pix = npix;
                nbr_i = ni;
                i += 1;
            } else {
                return Some((cur_nbr_x, cur_nbr_y, prev_nbr_x, prev_nbr_y));
            }
        }
        i += 1;
    }
    None
}

/// A traced feature contour: four parallel lists of interior contour points and their exterior
/// edge points, kept in lock-step.
#[derive(Clone, Debug, Default, PartialEq, Eq)]
pub struct Contour {
    /// X coordinates of the interior contour points.
    pub x: Vec<i32>,
    /// Y coordinates of the interior contour points.
    pub y: Vec<i32>,
    /// X coordinates of the corresponding exterior edge points.
    pub ex: Vec<i32>,
    /// Y coordinates of the corresponding exterior edge points.
    pub ey: Vec<i32>,
}

impl Contour {
    /// The four lists share one length.
    pub open spec fn wf(&self) -> bool {
        &&& self.y@.len() == self.x@.len()
        &&& self.ex@.len() == self.x@.len()
        &&& self.ey@.len() == self.x@.len()
    }

    /// The contour as a sequence of `(x, y, edge_x, edge_y)` points.
    pub open spec fn points(&self) -> Seq<(int, int, int, int)> {
        Seq::new(
            self.x@.len(),
            |i: int| (self.x@[i] as int, self.y@[i] as int, self.ex@[i] as int, self.ey@[i] as int),
        )
    }

    /// An empty contour with room for `n` points reserved in each list.
    pub fn with_capacity(n: usize) -> (c: Contour)
        ensures
            c.wf(),
            c.points() == Seq::<(int, int, int, int)>::empty(),
    {
        let c = Contour {
            x: Vec::with_capacity(n),
            y: Vec::with_capacity(n),
            ex: Vec::with_capacity(n),
            ey: Vec::with_capacity(n),
        };
        assert(c.points() =~= Seq::<(int, int, int, int)>::empty());
        c
    }

    /// Number of contour points; all four coordinate lists share this length.
    pub fn len(&self) -> (n: usize)
        ensures
            n == self.x@.len(),
            self.wf() ==> n == self.points().len(),
    {
        self.x.len()
    }

    /// Append one contour/edge point pair to the parallel lists.
    pub fn push(&mut self, x: i32, y: i32, ex: i32, ey: i32)
        requires
            old(self).wf(),
        ensures
            final(self).wf(),
            final(self).points() == old(self).points().push(
                (x as int, y as int, ex as int, ey as int),
            ),
    {
        self.x.push(x);
        self.y.push(y);
        self.ex.push(ex);
        self.ey.push(ey);
        assert(self.points() =~= old(self).points().push((x as int, y as int, ex as int, ey as int)));
    }

    /// Append `src`'s points in reverse order (last point first).
    pub fn extend_rev(&mut self, src: &Contour)
        requires
            old(self).wf(),
            src.wf(),
        ensures
            final(self).wf(),
            final(self).points() == old(self).points() + src.points().reverse(),
    {
        let ghost start = self.points();
        let mut j = src.len();
        while j > 0
            invariant
                j <= src.points().len(),
                src.wf(),
                self.wf(),
                self.points() == start + src.points().subrange(j as int, src.points().len() as int).reverse(),
            decreases j,
        {
            j -= 1;
            self.push(src.x[j], src.y[j], src.ex[j], src.ey[j]);
            assert(src.points().subrange(j as int, src.points().len() as int).reverse() =~= src.points().subrange(
                j + 1,
                src.points().len() as int,
            ).reverse().push(src.points()[j as int]));
        }
        assert(src.points().subrange(0, src.points().len() as int) =~= src.points());
    }

    /// Append `src`'s points in forward order.
    pub fn extend_fwd(&mut self, src: &Contour)
        requires
            old(self).wf(),
            src.wf(),
        ensures
            final(self).wf(),
            final(self).points() == old(self).points() + src.points(),
    {
        let ghost start = self.points();
        let mut i: usize = 0;
        while i < src.len()
            invariant
                i <= src.points().len(),
                src.wf(),
                self.wf(),
                self.points() == start + src.points().subrange(0, i as int),
            decreases src.points().len() - i,
        {
            self.push(src.x[i], src.y[i], src.ex[i], src.ey[i]);
            assert(src.points().subrange(0, i + 1) =~= src.points().subrange(0, i as int).push(
                src.points()[i as int],
            ));
            i += 1;
        }
        assert(src.points().subrange(0, src.points().len() as int) =~= src.points());
    }
}

/// Walk the contour from feature pixel `(cx, cy)` with edge `(ex, ey)` for up to `n` points,
/// stopping at the loop-trigger `(xl, yl)`: whether the loop point was reached, and the points
/// collected before it.
pub open spec fn trace_walk(
    b: Seq<u8>,
    w: int,
    h: int,
    n: int,
    xl: int,
    yl: int,
    cx: int,
    cy: int,
    ex: int,
    ey: int,
    scan: ScanDir,
) -> (bool, Seq<(int, int, int, int)>)
    decreases n,
{
    if n <= 0 {
        (false, Seq::empty())
    } else {
        match next_pixel(b, w, h, cx, cy, ex, ey, scan) {
            None => (false, Seq::empty()),
            Some(p) => if p.0 == xl && p.1 == yl {
                (true, Seq::empty())
            } else {
                let rest = trace_walk(b, w, h, n - 1, xl, yl, p.0, p.1, p.2, p.3, scan);
                (rest.0, seq![p] + rest.1)
            },
        }
    }
}

/// A walk never collects more points than it was allowed.
pub proof fn lemma_trace_walk_len(
    b: Seq<u8>,
    w: int,
    h: int,
    n: int,
    xl: int,
    yl: int,
    cx: int,
    cy: int,
    ex: int,
    ey: int,
    scan: ScanDir,
)
    ensures
        trace_walk(b, w, h, n, xl, yl, cx, cy, ex, ey, scan).1.len() <= if n > 0 {
            n
        } else {
            0
        },
    decreases n,
{
    if n > 0 {
        if let Some(p) = next_pixel(b, w, h, cx, cy, ex, ey, scan) {
            lemma_trace_walk_len(b, w, h, n - 1, xl, yl, p.0, p.1, p.2, p.3, scan);
        }
    }
}

/// Outcome of [`trace_contour`].
#[derive(Clone, Debug, PartialEq, Eq)]
pub enum TraceResult {
    /// The trace completed: a contour of up to `max_len` points, possibly cut short where no
    /// further contour pixel was found.
    Traced(Contour),
    /// The trace reached the loop-trigger point; the contour holds the points collected before it.
    Loop(Contour),
    /// The feature and edge pixels were not opposite colours; no contour is produced.
    Ignore,
}

/// Whether `r` is what tracing from `(x_loc, y_loc)`/`(x_edge, y_edge)` yields.
pub open spec fn trace_outcome(
    r: TraceResult,
    b: Seq<u8>,
    w: int,
    h: int,
    max_len: int,
    x_loop: int,
    y_loop: int,
    x_loc: int,
    y_loc: int,
    x_edge: int,
    y_edge: int,
    scan: ScanDir,
) -> bool {
    let walk = trace_walk(b, w, h, max_len, x_loop, y_loop, x_loc, y_loc, x_edge, y_edge, scan);
    if at(b, w, x_loc, y_loc) == at(b, w, x_edge, y_edge) {
        r is Ignore
    } else {
        match r {
            TraceResult::Traced(c) => c.wf() && !walk.0 && c.points() == walk.1,
            TraceResult::Loop(c) => c.wf() && walk.0 && c.points() == walk.1,
            TraceResult::Ignore => false,
        }
    }
}

/// Trace a feature's interior contour for up to `max_len` points in one direction.
///
/// Starts at feature point `(x_loc, y_loc)` with edge pixel `(x_edge, y_edge)` and walks in the
/// `scan` direction one [`next_contour_pixel`] step at a time. Reaching `(x_loop, y_loop)` stops the
/// walk as a [`TraceResult::Loop`]; running out of contour pixels or of length yields
/// [`TraceResult::Traced`].
pub fn trace_contour(
    max_len: i32,
    x_loop: i32,
    y_loop: i32,
    x_loc: i32,
    y_loc: i32,
    x_edge: i32,
    y_edge: i32,
    scan: ScanDir,
    bdata: &[u8],
    iw: i32,
    ih: i32,
) -> (r: TraceResult)
    requires
        trace_ok(bdata@, iw as int, ih as int, max_len as int, x_loc as int, y_loc as int, x_edge as int, y_edge as int),
    ensures
        trace_outcome(
            r,
            bdata@,
            iw as int,
            ih as int,
            max_len as int,
            x_loop as int,
            y_loop as int,
            x_loc as int,
            y_loc as int,
            x_edge as int,
            y_edge as int,
            scan,
        ),
{
    let ghost (b, w, h) = (bdata@, iw as int, ih as int);
    if byte_at(bdata, iw, x_loc, y_loc) == byte_at(bdata, iw, x_edge, y_edge) {
        return TraceResult::Ignore;
    }
    if max_len <= 0 {
        let empty = Contour::with_capacity(0);
        assert(empty.points() =~= Seq::<(int, int, int, int)>::empty());
        return TraceResult::Traced(empty);
    }
    let ghost whole = trace_walk(
        b,
        w,
        h,
        max_len as int,
        x_loop as int,
        y_loop as int,
        x_loc as int,
        y_loc as int,
        x_edge as int,
        y_edge as int,
        scan,
    );

    let mut contour = Contour::with_capacity(
        if max_len > 0 {
            max_len as usize
        } else {
            0
        },
    );
    let mut cur_x_loc = x_loc;
    let mut cur_y_loc = y_loc;
    let mut cur_x_edge = x_edge;
    let mut cur_y_edge = y_edge;

    let mut i: i32 = 0;
    while i < max_len
        invariant
            0 <= i,
            i <= max_len || i == 0,
            b == bdata@,
            w == iw as int,
            h == ih as int,
            walk_ok(b, w, h, cur_x_loc as int, cur_y_loc as int, cur_x_edge as int, cur_y_edge as int),
            contour.wf(),
            at(b, w, x_loc as int, y_loc as int) != at(b, w, x_edge as int, y_edge as int),
            whole == trace_walk(
                b,
                w,
                h,
                max_len as int,
                x_loop as int,
                y_loop as int,
                x_loc as int,
                y_loc as int,
                x_edge as int,
                y_edge as int,
                scan,
            ),
            whole.0 == trace_walk(
                b,
                w,
                h,
                max_len - i,
                x_loop as int,
                y_loop as int,
                cur_x_loc as int,
                cur_y_loc as int,
                cur_x_edge as int,
                cur_y_edge as int,
                scan,
            ).0,
            whole.1 == contour.points() + trace_walk(
                b,
                w,
                h,
                max_len - i,
                x_loop as int,
                y_loop as int,
                cur_x_loc as int,
                cur_y_loc as int,
                cur_x_edge as int,
                cur_y_edge as int,
                scan,
            ).1,
        decreases max_len - i,
    {
        let nxt = next_contour_pixel(
            cur_x_loc,
            cur_y_loc,
            cur_x_edge,
            cur_y_edge,
            scan,
            bdata,
            iw,
            ih,
        );
        proof {
            lemma_next_pixel_sound(
                b,
                w,
                h,
                cur_x_loc as int,
                cur_y_loc as int,
                cur_x_edge as int,
                cur_y_edge as int,
                scan,
            );
        }
        match nxt {
            Some((next_x_loc, next_y_loc, next_x_edge, next_y_edge)) => {
                if next_x_loc == x_loop && next_y_loc == y_loop {
                    assert(contour.points() + Seq::<(int, int, int, int)>::empty() =~= contour.points());
                    return TraceResult::Loop(contour);
                }
                let ghost before = contour.points();
                contour.push(next_x_loc, next_y_loc, next_x_edge, next_y_edge);
                let ghost rest = trace_walk(
                    b,
                    w,
                    h,
                    max_len - i - 1,
                    x_loop as int,
                    y_loop as int,
                    next_x_loc as int,
                    next_y_loc as int,
                    next_x_edge as int,
                    next_y_edge as int,
                    scan,
                );
                assert(before + (seq![(next_x_loc as int, next_y_loc as int, next_x_edge as int, next_y_edge as int)] + rest.1) =~= contour.points() + rest.1);
                cur_x_loc = next_x_loc;
                cur_y_loc = next_y_loc;
                cur_x_edge = next_x_edge;
                cur_y_edge = next_y_edge;
                proof {
                    lemma_in_grid_pixel_ok(next_x_loc as int, next_y_loc as int, w, h, b.len() as int);
                    if in_grid(next_x_edge as int, next_y_edge as int, w, h) {
                        lemma_in_grid_cell_ok(next_x_edge as int, next_y_edge as int, w, h, b.len() as int);
                    }
                }
            },
            None => {
                assert(contour.points() + Seq::<(int, int, int, int)>::empty() =~= contour.points());
                return TraceResult::Traced(contour);
            },
        }
        i += 1;
    }
    assert(contour.points() + Seq::<(int, int, int, int)>::empty() =~= contour.points());
    TraceResult::Traced(contour)
}

/// Whether walking the contour for up to `n` points meets `(xs, ys)`.
pub open spec fn search_walk(
    b: Seq<u8>,
    w: int,
    h: int,
    n: int,
    xs: int,
    ys: int,
    cx: int,
    cy: int,
    ex: int,
    ey: int,
    scan: ScanDir,
) -> bool
    decreases n,
{
    if n <= 0 {
        false
    } else {
        match next_pixel(b, w, h, cx, cy, ex, ey, scan) {
            None => false,
            Some(p) => (p.0 == xs && p.1 == ys) || search_walk(
                b,
                w,
                h,
                n - 1,
                xs,
                ys,
                p.0,
                p.1,
                p.2,
                p.3,
                scan,
            ),
        }
    }
}

/// Walk a feature's contour looking for a specific point.
///
/// Steps up to `search_len` points along the contour from `(x_loc, y_loc)`/`(x_edge, y_edge)` in
/// the `scan` direction; `true` the moment a contour point equals `(x_search, y_search)`, `false`
/// when the point is not met within `search_len` steps or the trace ends early.
pub fn search_contour(
    x_search: i32,
    y_search: i32,
    search_len: i32,
    x_loc: i32,
    y_loc: i32,
    x_edge: i32,
    y_edge: i32,
    scan: ScanDir,
    bdata: &[u8],
    iw: i32,
    ih: i32,
) -> (found: bool)
    requires
        search_len <= 0 || walk_ok(bdata@, iw as int, ih as int, x_loc as int, y_loc as int, x_edge as int, y_edge as int),
    ensures
        found == search_walk(
            bdata@,
            iw as int,
            ih as int,
            search_len as int,
            x_search as int,
            y_search as int,
            x_loc as int,
            y_loc as int,
            x_edge as int,
            y_edge as int,
            scan,
        ),
{
    let ghost (b, w, h) = (bdata@, iw as int, ih as int);
    let ghost whole = search_walk(
        b,
        w,
        h,
        search_len as int,
        x_search as int,
        y_search as int,
        x_loc as int,
        y_loc as int,
        x_edge as int,
        y_edge as int,
        scan,
    );
    let mut cur_x_loc = x_loc;
    let mut cur_y_loc = y_loc;
    let mut cur_x_edge = x_edge;
    let mut cur_y_edge = y_edge;

    let mut i: i32 = 0;
    while i < search_len
        invariant
            0 <= i,
            i <= search_len || i == 0,
            b == bdata@,
            w == iw as int,
            h == ih as int,
            i < search_len ==> walk_ok(b, w, h, cur_x_loc as int, cur_y_loc as int, cur_x_edge as int, cur_y_edge as int),
            whole == search_walk(
                b,
                w,
                h,
                search_len as int,
                x_search as int,
                y_search as int,
                x_loc as int,
                y_loc as int,
                x_edge as int,
                y_edge as int,
                scan,
            ),
            whole == search_walk(
                b,
                w,
                h,
                search_len - i,
                x_search as int,
                y_search as int,
                cur_x_loc as int,
                cur_y_loc as int,
                cur_x_edge as int,
                cur_y_edge as int,
                scan,
            ),
        decreases search_len - i,
    {
        let nxt = next_contour_pixel(
            cur_x_loc,
            cur_y_loc,
            cur_x_edge,
            cur_y_edge,
            scan,
            bdata,
            iw,
            ih,
        );
        proof {
            lemma_next_pixel_sound(
                b,
                w,
                h,
                cur_x_loc as int,
                cur_y_loc as int,
                cur_x_edge as int,
                cur_y_edge as int,
                scan,
            );
        }
        match nxt {
            Some((next_x_loc, next_y_loc, next_x_edge, next_y_edge)) => {
                if next_x_loc == x_search && next_y_loc == y_search {
                    return true;
                }
                cur_x_loc = next_x_loc;
                cur_y_loc = next_y_loc;
                cur_x_edge = next_x_edge;
                cur_y_edge = next_y_edge;
                proof {
                    lemma_in_grid_pixel_ok(next_x_loc as int, next_y_loc as int, w, h, b.len() as int);
                    if in_grid(next_x_edge as int, next_y_edge as int, w, h) {
                        lemma_in_grid_cell_ok(next_x_edge as int, next_y_edge as int, w, h, b.len() as int);
                    }
                }
            },
            None => {
                return false;
            },
        }
        i += 1;
    }
    false
}

/// Outcome of [`get_centered_contour`].
#[derive(Clone, Debug, PartialEq, Eq)]
pub enum CenteredContour {
    /// A complete, centred contour of `2 * half_contour + 1` points.
    Complete(Contour),
    /// A loop was detected while tracing either half; no contour is returned.
    Loop,
    /// A half-trace was impossible from the starting pair.
    Ignore,
    /// A half-contour could not reach the requested length.
    Incomplete,
}

/// The last point of a non-empty walk, its loop-trigger for the second half.
pub open spec fn last_point(s: Seq<(int, int, int, int)>) -> (int, int, int, int) {
    s[s.len() - 1]
}

/// The inputs on which a walk along a contour can start: the image lies in the buffer, the
/// feature pixel's offset does and its neighbours' coordinates fit `i32`, and the edge pixel's
/// offset lies in the buffer. Neither pixel need lie inside the image.
pub open spec fn walk_ok(b: Seq<u8>, w: int, h: int, xl: int, yl: int, xe: int, ye: int) -> bool {
    &&& grid_ok(b.len() as int, w, h)
    &&& pixel_ok(xl, yl, w, b.len() as int)
    &&& cell_ok(xe, ye, w, b.len() as int)
}

/// The inputs on which a contour extraction returns: the feature and edge pixels share a colour
/// at offsets inside the buffer (nothing is traced), or there is a length of at least one to
/// trace from a start [`walk_ok`] admits.
pub open spec fn extract_ok(b: Seq<u8>, w: int, h: int, half: int, xl: int, yl: int, xe: int, ye: int) -> bool {
    ||| cell_ok(xl, yl, w, b.len() as int) && cell_ok(xe, ye, w, b.len() as int) && at(b, w, xl, yl)
        == at(b, w, xe, ye)
    ||| half >= 1 && walk_ok(b, w, h, xl, yl, xe, ye)
}

/// The inputs on which a trace returns: the feature and edge pixels lie at offsets inside the
/// buffer and either share a colour or leave no length to trace, or the walk can start there
/// ([`walk_ok`]).
pub open spec fn trace_ok(b: Seq<u8>, w: int, h: int, max_len: int, xl: int, yl: int, xe: int, ye: int) -> bool {
    ||| cell_ok(xl, yl, w, b.len() as int) && cell_ok(xe, ye, w, b.len() as int) && (at(b, w, xl, yl)
        == at(b, w, xe, ye) || max_len <= 0)
    ||| walk_ok(b, w, h, xl, yl, xe, ye)
}

/// Whether `r` is the centred contour of `half` points either side of `(x_loc, y_loc)`.
pub open spec fn centered_outcome(
    r: CenteredContour,
    b: Seq<u8>,
    w: int,
    h: int,
    half: int,
    x_loc: int,
    y_loc: int,
    x_edge: int,
    y_edge: int,
) -> bool {
    let w1 = trace_walk(b, w, h, half, x_loc, y_loc, x_loc, y_loc, x_edge, y_edge, ScanDir::Clockwise);
    let l = last_point(w1.1);
    let w2 = trace_walk(
        b,
        w,
        h,
        half,
        l.0,
        l.1,
        x_loc,
        y_loc,
        x_edge,
        y_edge,
        ScanDir::CounterClockwise,
    );
    if at(b, w, x_loc, y_loc) == at(b, w, x_edge, y_edge) {
        r is Ignore
    } else if w1.0 {
        r is Loop
    } else if w1.1.len() < half {
        r is Incomplete
    } else if w2.0 {
        r is Loop
    } else if w2.1.len() < half {
        r is Incomplete
    } else {
        r matches CenteredContour::Complete(c) && c.wf() && c.points() == w1.1.reverse() + seq![
            (x_loc, y_loc, x_edge, y_edge),
        ] + w2.1
    }
}

/// Extract a fixed-length contour centred on a feature point.
///
/// Traces one half clockwise and the other counter-clockwise (each up to `half_contour` points),
/// the far end of the first half serving as the second half's loop-trigger. On success the first
/// half reversed, the feature point, and the second half are concatenated into a contour of
/// `2 * half_contour + 1` points.
pub fn get_centered_contour(
    half_contour: i32,
    x_loc: i32,
    y_loc: i32,
    x_edge: i32,
    y_edge: i32,
    bdata: &[u8],
    iw: i32,
    ih: i32,
) -> (r: CenteredContour)
    requires
        extract_ok(bdata@, iw as int, ih as int, half_contour as int, x_loc as int, y_loc as int, x_edge as int, y_edge as int),
    ensures
        centered_outcome(
            r,
            bdata@,
            iw as int,
            ih as int,
            half_contour as int,
            x_loc as int,
            y_loc as int,
            x_edge as int,
            y_edge as int,
        ),
        r matches CenteredContour::Complete(c) ==> c.points().len() == 2 * half_contour + 1,
{
    let ghost (b, w, h) = (bdata@, iw as int, ih as int);
    if byte_at(bdata, iw, x_loc, y_loc) == byte_at(bdata, iw, x_edge, y_edge) {
        return CenteredContour::Ignore;
    }
    let half1 = match trace_contour(
        half_contour,
        x_loc,
        y_loc,
        x_loc,
        y_loc,
        x_edge,
        y_edge,
        ScanDir::Clockwise,
        bdata,
        iw,
        ih,
    ) {
        TraceResult::Ignore => return CenteredContour::Ignore,
        TraceResult::Loop(_) => return CenteredContour::Loop,
        TraceResult::Traced(c) => c,
    };
    proof {
        lemma_trace_walk_len(
            b,
            w,
            h,
            half_contour as int,
            x_loc as int,
            y_loc as int,
            x_loc as int,
            y_loc as int,
            x_edge as int,
            y_edge as int,
            ScanDir::Clockwise,
        );
    }
    if (half1.len() as i32) < half_contour {
        return CenteredContour::Incomplete;
    }

    let last = half1.len() - 1;
    assert(last_point(half1.points()).0 == half1.x@[last as int] as int);
    assert(last_point(half1.points()).1 == half1.y@[last as int] as int);
    let half2 = match trace_contour(
        half_contour,
        half1.x[last],
        half1.y[last],
        x_loc,
        y_loc,
        x_edge,
        y_edge,
        ScanDir::CounterClockwise,
        bdata,
        iw,
        ih,
    ) {
        TraceResult::Ignore => return CenteredContour::Ignore,
        TraceResult::Loop(_) => return CenteredContour::Loop,
        TraceResult::Traced(c) => c,
    };
    proof {
        lemma_trace_walk_len(
            b,
            w,
            h,
            half_contour as int,
            half1.x@[last as int] as int,
            half1.y@[last as int] as int,
            x_loc as int,
            y_loc as int,
            x_edge as int,
            y_edge as int,
            ScanDir::CounterClockwise,
        );
    }
    if (half2.len() as i32) < half_contour {
        return CenteredContour::Incomplete;
    }

    let max_contour = (half_contour as usize) * 2 + 1;
    let mut contour = Contour::with_capacity(max_contour);
    contour.extend_rev(&half1);
    contour.push(x_loc, y_loc, x_edge, y_edge);
    contour.extend_fwd(&half2);
    proof {
        assert(Seq::<(int, int, int, int)>::empty() + half1.points().reverse() =~= half1.points().reverse());
        assert(contour.points() =~= half1.points().reverse() + seq![
            (x_loc as int, y_loc as int, x_edge as int, y_edge as int),
        ] + half2.points());
    }
    CenteredContour::Complete(contour)
}

/// Outcome of [`get_high_curvature_contour`].
#[derive(Clone, Debug, PartialEq, Eq)]
pub enum HighCurvatureContour {
    /// No full-length contour could be extracted.
    Empty,
    /// A complete contour of `2 * half_contour + 1` points.
    Complete(Contour),
    /// The contour forms a complete loop; the loop's contour is returned.
    Loop(Contour),
}

/// Whether `r` is the high-curvature contour around `(x_loc, y_loc)`.
pub open spec fn high_curvature_outcome(
    r: HighCurvatureContour,
    b: Seq<u8>,
    w: int,
    h: int,
    half: int,
    x_loc: int,
    y_loc: int,
    x_edge: int,
    y_edge: int,
) -> bool {
    let w1 = trace_walk(b, w, h, half, x_loc, y_loc, x_loc, y_loc, x_edge, y_edge, ScanDir::Clockwise);
    let l = last_point(w1.1);
    let w2 = trace_walk(
        b,
        w,
        h,
        half,
        l.0,
        l.1,
        x_loc,
        y_loc,
        x_edge,
        y_edge,
        ScanDir::CounterClockwise,
    );
    let feature = seq![(x_loc, y_loc, x_edge, y_edge)];
    if at(b, w, x_loc, y_loc) == at(b, w, x_edge, y_edge) {
        r is Empty
    } else if w1.0 {
        r matches HighCurvatureContour::Loop(c) && c.wf() && c.points() == feature + w1.1.reverse()
    } else if w1.1.len() < half {
        r is Empty
    } else if !w2.0 && w2.1.len() < half {
        r is Empty
    } else if w2.0 {
        r matches HighCurvatureContour::Loop(c) && c.wf() && c.points() == w1.1.reverse() + feature
            + w2.1
    } else {
        r matches HighCurvatureContour::Complete(c) && c.wf() && c.points() == w1.1.reverse() + feature
            + w2.1
    }
}

/// Off the loop path the two extractions agree: for the same feature, edge, image and length,
/// the high-curvature contour is complete exactly when the centred one is, and then both hold the
/// same points.
pub proof fn lemma_high_curvature_agrees_with_centered(
    r1: HighCurvatureContour,
    r2: CenteredContour,
    b: Seq<u8>,
    w: int,
    h: int,
    half: int,
    x_loc: int,
    y_loc: int,
    x_edge: int,
    y_edge: int,
)
    requires
        high_curvature_outcome(r1, b, w, h, half, x_loc, y_loc, x_edge, y_edge),
        centered_outcome(r2, b, w, h, half, x_loc, y_loc, x_edge, y_edge),
    ensures
        (r1 is Complete) == (r2 is Complete),
        match (r1, r2) {
            (HighCurvatureContour::Complete(c1), CenteredContour::Complete(c2)) => c1.points()
                == c2.points(),
            _ => true,
        },
{
}

/// Extract a fixed-length contour of a high-curvature feature edge.
///
/// Like [`get_centered_contour`] but tolerant of loops: a first half that loops is returned as the
/// feature point followed by that half reversed; a second half that loops is still concatenated.
/// Either way the result is a [`HighCurvatureContour::Loop`].
pub fn get_high_curvature_contour(
    half_contour: i32,
    x_loc: i32,
    y_loc: i32,
    x_edge: i32,
    y_edge: i32,
    bdata: &[u8],
    iw: i32,
    ih: i32,
) -> (r: HighCurvatureContour)
    requires
        extract_ok(bdata@, iw as int, ih as int, half_contour as int, x_loc as int, y_loc as int, x_edge as int, y_edge as int),
    ensures
        high_curvature_outcome(
            r,
            bdata@,
            iw as int,
            ih as int,
            half_contour as int,
            x_loc as int,
            y_loc as int,
            x_edge as int,
            y_edge as int,
        ),
        r matches HighCurvatureContour::Complete(c) ==> c.points().len() == 2 * half_contour + 1,
{
    let ghost (b, w, h) = (bdata@, iw as int, ih as int);
    if byte_at(bdata, iw, x_loc, y_loc) == byte_at(bdata, iw, x_edge, y_edge) {
        return HighCurvatureContour::Empty;
    }
    let max_contour = (half_contour as usize) * 2 + 1;
    proof {
        lemma_trace_walk_len(
            b,
            w,
            h,
            half_contour as int,
            x_loc as int,
            y_loc as int,
            x_loc as int,
            y_loc as int,
            x_edge as int,
            y_edge as int,
            ScanDir::Clockwise,
        );
    }
    let half1 = match trace_contour(
        half_contour,
        x_loc,
        y_loc,
        x_loc,
        y_loc,
        x_edge,
        y_edge,
        ScanDir::Clockwise,
        bdata,
        iw,
        ih,
    ) {
        TraceResult::Ignore => return HighCurvatureContour::Empty,
        TraceResult::Loop(loop_half) => {
            let mut contour = Contour::with_capacity(loop_half.len() + 1);
            contour.push(x_loc, y_loc, x_edge, y_edge);
            contour.extend_rev(&loop_half);
            return HighCurvatureContour::Loop(contour);
        },
        TraceResult::Traced(c) => c,
    };
    proof {
        lemma_trace_walk_len(
            b,
            w,
            h,
            half_contour as int,
            x_loc as int,
            y_loc as int,
            x_loc as int,
            y_loc as int,
            x_edge as int,
            y_edge as int,
            ScanDir::Clockwise,
        );
    }
    if (half1.len() as i32) < half_contour {
        return HighCurvatureContour::Empty;
    }

    let last = half1.len() - 1;
    assert(last_point(half1.points()).0 == half1.x@[last as int] as int);
    assert(last_point(half1.points()).1 == half1.y@[last as int] as int);
    let (half2, looped) = match trace_contour(
        half_contour,
        half1.x[last],
        half1.y[last],
        x_loc,
        y_loc,
        x_edge,
        y_edge,
        ScanDir::CounterClockwise,
        bdata,
        iw,
        ih,
    ) {
        TraceResult::Ignore => return HighCurvatureContour::Empty,
        TraceResult::Loop(c) => (c, true),
        TraceResult::Traced(c) => (c, false),
    };
    proof {
        lemma_trace_walk_len(
            b,
            w,
            h,
            half_contour as int,
            half1.x@[last as int] as int,
            half1.y@[last as int] as int,
            x_loc as int,
            y_loc as int,
            x_edge as int,
            y_edge as int,
            ScanDir::CounterClockwise,
        );
    }
    if !looped && (half2.len() as i32) < half_contour {
        return HighCurvatureContour::Empty;
    }

    let mut contour = Contour::with_capacity(max_contour);
    contour.extend_rev(&half1);
    contour.push(x_loc, y_loc, x_edge, y_edge);
    contour.extend_fwd(&half2);
    proof {
        assert(Seq::<(int, int, int, int)>::empty() + half1.points().reverse() =~= half1.points().reverse());
        assert(contour.points() =~= half1.points().reverse() + seq![
            (x_loc as int, y_loc as int, x_edge as int, y_edge as int),
        ] + half2.points());
    }
    if looped {
        HighCurvatureContour::Loop(contour)
    } else {
        HighCurvatureContour::Complete(contour)
    }
}

/// The smallest value of a non-empty sequence.
pub open spec fn seq_min(s: Seq<i32>) -> int
    decreases s.len(),
{
    if s.len() <= 1 {
        s[0] as int
    } else {
        let m = seq_min(s.drop_last());
        if (s.last() as int) < m {
            s.last() as int
        } else {
            m
        }
    }
}

/// The largest value of a non-empty sequence.
pub open spec fn seq_max(s: Seq<i32>) -> int
    decreases s.len(),
{
    if s.len() <= 1 {
        s[0] as int
    } else {
        let m = seq_max(s.drop_last());
        if (s.last() as int) > m {
            s.last() as int
        } else {
            m
        }
    }
}

/// The minimum of a non-empty sequence is one of its elements and bounds all of them.
pub proof fn lemma_seq_min_max(s: Seq<i32>)
    requires
        s.len() > 0,
    ensures
        exists|i: int| 0 <= i < s.len() && s[i] == seq_min(s),
        forall|i: int| 0 <= i < s.len() ==> seq_min(s) <= s[i],
        exists|i: int| 0 <= i < s.len() && s[i] == seq_max(s),
        forall|i: int| 0 <= i < s.len() ==> s[i] <= seq_max(s),
    decreases s.len(),
{
    if s.len() > 1 {
        lemma_seq_min_max(s.drop_last());
        let m = seq_min(s.drop_last());
        let k = choose|i: int| 0 <= i < s.drop_last().len() && s.drop_last()[i] == m;
        assert(s[k] == m);
        let mx = seq_max(s.drop_last());
        let kx = choose|i: int| 0 <= i < s.drop_last().len() && s.drop_last()[i] == mx;
        assert(s[kx] == mx);
        assert forall|i: int| 0 <= i < s.len() implies seq_min(s) <= s[i] && s[i] <= seq_max(s) by {
            if i < s.len() - 1 {
                assert(s.drop_last()[i] == s[i]);
            }
        }
        if (s.last() as int) < m {
            assert(s[s.len() - 1] == seq_min(s));
        }
        if (s.last() as int) > mx {
            assert(s[s.len() - 1] == seq_max(s));
        }
    } else {
        assert(s[0] == seq_min(s));
        assert(s[0] == seq_max(s));
    }
}

/// The smallest and largest elements of a non-empty list.
fn min_max(v: &[i32]) -> (r: (i32, i32))
    requires
        v@.len() > 0,
    ensures
        r.0 == seq_min(v@),
        r.1 == seq_max(v@),
{
    let mut lo = v[0];
    let mut hi = v[0];
    let mut i: usize = 1;
    while i < v.len()
        invariant
            1 <= i <= v@.len(),
            lo == seq_min(v@.subrange(0, i as int)),
            hi == seq_max(v@.subrange(0, i as int)),
        decreases v@.len() - i,
    {
        assert(v@.subrange(0, i + 1).drop_last() =~= v@.subrange(0, i as int));
        if v[i] < lo {
            lo = v[i];
        }
        if v[i] > hi {
            hi = v[i];
        }
        i += 1;
    }
    assert(v@.subrange(0, v@.len() as int) =~= v@);
    (lo, hi)
}

/// Bounding box of a contour's interior points: `(xmin, ymin, xmax, ymax)`.
pub fn contour_limits(contour_x: &[i32], contour_y: &[i32]) -> (r: (i32, i32, i32, i32))
    requires
        contour_x@.len() > 0,
        contour_y@.len() > 0,
    ensures
        r.0 == seq_min(contour_x@),
        r.1 == seq_min(contour_y@),
        r.2 == seq_max(contour_x@),
        r.3 == seq_max(contour_y@),
{
    let (xmin, xmax) = min_max(contour_x);
    let (ymin, ymax) = min_max(contour_y);
    (xmin, ymin, xmax, ymax)
}

/// The cardinal pair [`fix_edge_pixel_pair`] settles on for feature `(fx, fy)` and edge `(ex, ey)`
/// in a row-major image of width `w`.
pub open spec fn fixed_pair(b: Seq<u8>, w: int, fx: int, fy: int, ex: int, ey: int) -> (
    int,
    int,
    int,
    int,
) {
    let dx = ex - fx;
    let dy = ey - fy;
    let fpix = b[fy * w + fx];
    if (dx == 1 || dx == -1) && (dy == 1 || dy == -1) {
        if b[ey * w + (ex - dx)] != fpix {
            (fx, fy, ex - dx, ey)
        } else if b[(ey - dy) * w + ex] != fpix {
            (fx, fy, ex, ey - dy)
        } else {
            (fx, fy + dy, ex, ey)
        }
    } else {
        (fx, fy, ex, ey)
    }
}

/// Whether `y * w + x` is a valid `i32` index into a buffer of `len` cells.
pub open spec fn flat_ok(x: int, y: int, w: int, len: int) -> bool {
    0 <= y * w + x < len && y * w + x <= i32::MAX && i32::MIN <= y * w <= i32::MAX
}

/// Adjust a diagonal feature/edge pixel pair to a cardinal one.
///
/// If the pair are diagonal neighbours, the edge pixel moves onto whichever intervening pixel is
/// not the feature's colour; if both are, the feature pixel itself moves onto the diagonal.
/// Non-diagonal pairs are returned unchanged. Returns `(feat_x, feat_y, edge_x, edge_y)`.
pub fn fix_edge_pixel_pair(
    feat_x: i32,
    feat_y: i32,
    edge_x: i32,
    edge_y: i32,
    bdata: &[u8],
    iw: i32,
) -> (r: (i32, i32, i32, i32))
    requires
        i32::MIN <= edge_x - feat_x <= i32::MAX,
        i32::MIN <= edge_y - feat_y <= i32::MAX,
        flat_ok(feat_x as int, feat_y as int, iw as int, bdata@.len() as int),
        ((edge_x - feat_x == 1 || edge_x - feat_x == -1) && (edge_y - feat_y == 1 || edge_y
            - feat_y == -1)) ==> flat_ok(feat_x as int, edge_y as int, iw as int, bdata@.len() as int)
            && flat_ok(edge_x as int, feat_y as int, iw as int, bdata@.len() as int),
    ensures
        (r.0 as int, r.1 as int, r.2 as int, r.3 as int) == fixed_pair(
            bdata@,
            iw as int,
            feat_x as int,
            feat_y as int,
            edge_x as int,
            edge_y as int,
        ),
{
    let feature_pix = bdata[(feat_y * iw + feat_x) as usize];
    let cx = feat_x;
    let mut cy = feat_y;
    let mut px = edge_x;
    let mut py = edge_y;
    let dx = px - cx;
    let dy = py - cy;
    if (dx == 1 || dx == -1) && (dy == 1 || dy == -1) {
        if bdata[(py * iw + (px - dx)) as usize] != feature_pix {
            px -= dx;
        } else if bdata[((py - dy) * iw + px) as usize] != feature_pix {
            py -= dy;
        } else {
            cy += dy;
        }
    }
    (cx, cy, px, py)
}

} // verus!
