//! Ridge counting between two minutiae along the straight pixel trajectory that joins them, and
//! the list operations that fix the order and count of the final minutiae list.
//!
//! Along the trajectory, a ridge is entered at a `0 -> 1` transition and left at a `1 -> 0`
//! transition; each such pair counts as a ridge crossing once contour tracing from the ridge end
//! confirms that the pair does not just walk on and off the side of one ridge.

use vstd::prelude::*;

use crate::contour::{
    fix_edge_pixel_pair, fixed_pair, flat_ok, trace_contour, trace_walk, ScanDir, TraceResult,
};
use crate::grid::{at, grid_ok, in_grid, lemma_in_grid_cell_ok, lemma_in_grid_pixel_ok, lemma_offset};
use crate::minutia::DetMinutia;
use crate::num::{is_perm, sort_indices_int_inc, sorted, stable, final_ranks_at};

verus! {

/// Every point of the trajectory lies in the `w`×`h` image.
pub open spec fn path_in_grid(pts: Seq<(i32, i32)>, w: int, h: int) -> bool {
    forall|j: int| 0 <= j < pts.len() ==> in_grid(#[trigger] pts[j].0 as int, pts[j].1 as int, w, h)
}

/// The pixel under trajectory point `j`.
pub open spec fn pt_pix(pts: Seq<(i32, i32)>, b: Seq<u8>, w: int, j: int) -> u8 {
    at(b, w, pts[j].0 as int, pts[j].1 as int)
}

/// The index of the second pixel of the first `pix1 -> pix2` transition between consecutive
/// trajectory points at or after index `i` (the first pair tested is `(i, i + 1)`), among the
/// first `num` points.
pub open spec fn next_transition(
    pts: Seq<(i32, i32)>,
    b: Seq<u8>,
    w: int,
    num: int,
    i: int,
    pix1: u8,
    pix2: u8,
) -> Option<int>
    decreases num - i,
{
    if i < 0 || i + 1 >= num {
        None
    } else if pt_pix(pts, b, w, i) == pix1 && pt_pix(pts, b, w, i + 1) == pix2 {
        Some(i + 1)
    } else {
        next_transition(pts, b, w, num, i + 1, pix1, pix2)
    }
}

/// The pixel under trajectory point `j`.
fn path_pixel(pts: &[(i32, i32)], bdata: &[u8], iw: i32, ih: i32, j: usize) -> (p: u8)
    requires
        j < pts@.len(),
        path_in_grid(pts@, iw as int, ih as int),
        grid_ok(bdata@.len() as int, iw as int, ih as int),
    ensures
        p == pt_pix(pts@, bdata@, iw as int, j as int),
{
    let (x, y) = pts[j];
    proof {
        assert(in_grid(pts@[j as int].0 as int, pts@[j as int].1 as int, iw as int, ih as int));
        lemma_offset(x as int, y as int, iw as int, ih as int);
    }
    bdata[(y * iw + x) as usize]
}

/// Search forward along the trajectory for a `pix1 -> pix2` transition, testing the pairs
/// `(i, i + 1)` from `i = *iptr` on. On the first match `*iptr` moves to the second pixel and the
/// result is `true`; otherwise `*iptr` is set to `num` and the result is `false`.
pub fn find_transition(
    iptr: &mut usize,
    pix1: u8,
    pix2: u8,
    pts: &[(i32, i32)],
    num: usize,
    bdata: &[u8],
    iw: i32,
    ih: i32,
) -> (found: bool)
    requires
        1 <= num <= pts@.len(),
        path_in_grid(pts@, iw as int, ih as int),
        grid_ok(bdata@.len() as int, iw as int, ih as int),
    ensures
        found == next_transition(pts@, bdata@, iw as int, num as int, *old(iptr) as int, pix1, pix2) is Some,
        found ==> next_transition(pts@, bdata@, iw as int, num as int, *old(iptr) as int, pix1, pix2)
            == Some(*final(iptr) as int),
        !found ==> *final(iptr) == num,
{
    let ghost whole = next_transition(pts@, bdata@, iw as int, num as int, *iptr as int, pix1, pix2);
    let mut i = *iptr;
    while i < num - 1
        invariant
            1 <= num <= pts@.len(),
            path_in_grid(pts@, iw as int, ih as int),
            grid_ok(bdata@.len() as int, iw as int, ih as int),
            whole == next_transition(pts@, bdata@, iw as int, num as int, i as int, pix1, pix2),
            whole == next_transition(pts@, bdata@, iw as int, num as int, *old(iptr) as int, pix1, pix2),
        decreases num - i,
    {
        let pi = path_pixel(pts, bdata, iw, ih, i);
        let pj = path_pixel(pts, bdata, iw, ih, i + 1);
        if pi == pix1 && pj == pix2 {
            *iptr = i + 1;
            return true;
        }
        i += 1;
    }
    *iptr = num;
    false
}

/// The feature/edge pair traced from a ridge end: the ridge-end pixel and the one before it,
/// moved onto a cardinal pair.
pub open spec fn crossing_pair(pts: Seq<(i32, i32)>, b: Seq<u8>, w: int, ridge_end: int) -> (
    int,
    int,
    int,
    int,
) {
    fixed_pair(
        b,
        w,
        pts[ridge_end].0 as int,
        pts[ridge_end].1 as int,
        pts[ridge_end - 1].0 as int,
        pts[ridge_end - 1].1 as int,
    )
}

/// Whether the ridge entered at `ridge_start` and left at `ridge_end` is really crossed: the
/// contour traced from the ridge end, both clockwise and counter-clockwise for up to
/// `max_steps` points, never comes back to the point before the ridge start (and the traced
/// pair has opposite colours).
pub open spec fn valid_crossing(
    pts: Seq<(i32, i32)>,
    b: Seq<u8>,
    w: int,
    h: int,
    ridge_start: int,
    ridge_end: int,
    max_steps: int,
) -> bool {
    let f = crossing_pair(pts, b, w, ridge_end);
    let xl = pts[ridge_start - 1].0 as int;
    let yl = pts[ridge_start - 1].1 as int;
    &&& at(b, w, f.0, f.1) != at(b, w, f.2, f.3)
    &&& !trace_walk(b, w, h, max_steps, xl, yl, f.0, f.1, f.2, f.3, ScanDir::Clockwise).0
    &&& !trace_walk(b, w, h, max_steps, xl, yl, f.0, f.1, f.2, f.3, ScanDir::CounterClockwise).0
}

/// The pair [`fixed_pair`] settles on lies in the image when the two input pixels do.
proof fn lemma_fixed_pair_in_grid(b: Seq<u8>, w: int, h: int, fx: int, fy: int, ex: int, ey: int)
    requires
        in_grid(fx, fy, w, h),
        in_grid(ex, ey, w, h),
    ensures
        in_grid(fixed_pair(b, w, fx, fy, ex, ey).0, fixed_pair(b, w, fx, fy, ex, ey).1, w, h),
        in_grid(fixed_pair(b, w, fx, fy, ex, ey).2, fixed_pair(b, w, fx, fy, ex, ey).3, w, h),
{
}

/// Decide whether a ridge start/end pair along the trajectory is a genuine ridge crossing (see
/// [`valid_crossing`]).
pub fn validate_ridge_crossing(
    ridge_start: usize,
    ridge_end: usize,
    pts: &[(i32, i32)],
    bdata: &[u8],
    iw: i32,
    ih: i32,
    max_ridge_steps: i32,
) -> (ok: bool)
    requires
        1 <= ridge_start,
        1 <= ridge_end < pts@.len(),
        ridge_start <= pts@.len(),
        path_in_grid(pts@, iw as int, ih as int),
        grid_ok(bdata@.len() as int, iw as int, ih as int),
    ensures
        ok == valid_crossing(
            pts@,
            bdata@,
            iw as int,
            ih as int,
            ridge_start as int,
            ridge_end as int,
            max_ridge_steps as int,
        ),
{
    let ghost (b, w, h) = (bdata@, iw as int, ih as int);
    let (fx, fy) = pts[ridge_end];
    let (ex, ey) = pts[ridge_end - 1];
    proof {
        assert(in_grid(pts@[ridge_end as int].0 as int, pts@[ridge_end as int].1 as int, w, h));
        assert(in_grid(pts@[ridge_end - 1].0 as int, pts@[ridge_end - 1].1 as int, w, h));
        lemma_offset(fx as int, fy as int, w, h);
        lemma_offset(fx as int, ey as int, w, h);
        lemma_offset(ex as int, fy as int, w, h);
        assert(flat_ok(fx as int, fy as int, w, b.len() as int));
        assert(flat_ok(fx as int, ey as int, w, b.len() as int));
        assert(flat_ok(ex as int, fy as int, w, b.len() as int));
        lemma_fixed_pair_in_grid(b, w, h, fx as int, fy as int, ex as int, ey as int);
    }
    let (feat_x, feat_y, edge_x, edge_y) = fix_edge_pixel_pair(fx, fy, ex, ey, bdata, iw);
    proof {
        lemma_in_grid_pixel_ok(feat_x as int, feat_y as int, w, h, b.len() as int);
        lemma_in_grid_cell_ok(edge_x as int, edge_y as int, w, h, b.len() as int);
    }
    let (x_loop, y_loop) = pts[ridge_start - 1];
    let clockwise = trace_contour(
        max_ridge_steps,
        x_loop,
        y_loop,
        feat_x,
        feat_y,
        edge_x,
        edge_y,
        ScanDir::Clockwise,
        bdata,
        iw,
        ih,
    );
    if let TraceResult::Traced(_) = clockwise {
        let counter = trace_contour(
            max_ridge_steps,
            x_loop,
            y_loop,
            feat_x,
            feat_y,
            edge_x,
            edge_y,
            ScanDir::CounterClockwise,
            bdata,
            iw,
            ih,
        );
        if let TraceResult::Traced(_) = counter {
            return true;
        }
    }
    false
}

/// The first index `j >= i` whose pixel differs from the trajectory's first pixel.
pub open spec fn first_change(pts: Seq<(i32, i32)>, b: Seq<u8>, w: int, i: int) -> Option<int>
    decreases pts.len() - i,
{
    if i < 1 || i >= pts.len() {
        None
    } else if pt_pix(pts, b, w, i) != pt_pix(pts, b, w, 0) {
        Some(i)
    } else {
        first_change(pts, b, w, i + 1)
    }
}

/// The validated crossings met from index `i` on: repeatedly the next ridge start (`0 -> 1`) and
/// the ridge end after it (`1 -> 0`), counting the pairs that [`valid_crossing`] accepts.
pub open spec fn crossings_from(
    pts: Seq<(i32, i32)>,
    b: Seq<u8>,
    w: int,
    h: int,
    max_steps: int,
    i: int,
) -> int
    decreases pts.len() - i,
{
    if i < 0 || i >= pts.len() {
        0
    } else {
        match next_transition(pts, b, w, pts.len() as int, i, 0, 1) {
            None => 0,
            Some(s) => match next_transition(pts, b, w, pts.len() as int, s, 1, 0) {
                None => 0,
                Some(e) => if i < e <= pts.len() {
                    (if valid_crossing(pts, b, w, h, s, e, max_steps) {
                        1int
                    } else {
                        0int
                    }) + crossings_from(pts, b, w, h, max_steps, e)
                } else {
                    0
                },
            },
        }
    }
}

/// The number of ridges crossed from `first` to `second` along the trajectory `pts`: none when
/// the two points coincide or the trajectory never changes colour; otherwise the crossings met
/// from the first colour change on.
pub open spec fn ridges_between(
    first: (i32, i32),
    second: (i32, i32),
    pts: Seq<(i32, i32)>,
    b: Seq<u8>,
    w: int,
    h: int,
    max_steps: int,
) -> int {
    if first == second || pts.len() == 0 {
        0
    } else {
        match first_change(pts, b, w, 1) {
            None => 0,
            Some(i) => crossings_from(pts, b, w, h, max_steps, i),
        }
    }
}

/// A transition found from index `i` lies after `i`.
proof fn lemma_next_transition_after(
    pts: Seq<(i32, i32)>,
    b: Seq<u8>,
    w: int,
    num: int,
    i: int,
    pix1: u8,
    pix2: u8,
)
    ensures
        next_transition(pts, b, w, num, i, pix1, pix2) matches Some(j) ==> i < j < num,
    decreases num - i,
{
    if !(i < 0 || i + 1 >= num) && !(pt_pix(pts, b, w, i) == pix1 && pt_pix(pts, b, w, i + 1) == pix2) {
        lemma_next_transition_after(pts, b, w, num, i + 1, pix1, pix2);
    }
}

/// Count the ridges crossed along the straight trajectory `pts` from minutia point `first` to
/// minutia point `second` (see [`ridges_between`]).
pub fn ridge_count(
    first: (i32, i32),
    second: (i32, i32),
    pts: &[(i32, i32)],
    bdata: &[u8],
    iw: i32,
    ih: i32,
    max_ridge_steps: i32,
) -> (n: i32)
    requires
        pts@.len() <= i32::MAX,
        path_in_grid(pts@, iw as int, ih as int),
        grid_ok(bdata@.len() as int, iw as int, ih as int),
    ensures
        n == ridges_between(
            first,
            second,
            pts@,
            bdata@,
            iw as int,
            ih as int,
            max_ridge_steps as int,
        ),
{
    let ghost (p, b, w, h, ms) = (pts@, bdata@, iw as int, ih as int, max_ridge_steps as int);
    if first.0 == second.0 && first.1 == second.1 {
        return 0;
    }
    let num = pts.len();
    if num == 0 {
        return 0;
    }
    let prevpix = path_pixel(pts, bdata, iw, ih, 0);
    let mut i: usize = 1;
    let mut found = false;
    while i < num
        invariant_except_break
            !found,
        invariant
            p == pts@ && b == bdata@ && w == iw && h == ih,
            num == p.len(),
            1 <= i <= num,
            path_in_grid(p, w, h),
            grid_ok(b.len() as int, w, h),
            prevpix == pt_pix(p, b, w, 0),
            first_change(p, b, w, 1) == first_change(p, b, w, i as int),
        ensures
            found ==> i < num && first_change(p, b, w, 1) == Some(i as int),
            !found ==> first_change(p, b, w, 1) is None,
        decreases num - i,
    {
        let curpix = path_pixel(pts, bdata, iw, ih, i);
        if curpix != prevpix {
            found = true;
            break;
        }
        i += 1;
    }
    if !found {
        return 0;
    }
    let mut count: i32 = 0;
    while i < num
        invariant
            p == pts@ && b == bdata@ && w == iw && h == ih && ms == max_ridge_steps,
            num == p.len() <= i32::MAX,
            1 <= i <= num,
            path_in_grid(p, w, h),
            grid_ok(b.len() as int, w, h),
            0 <= count <= i,
            count + crossings_from(p, b, w, h, ms, i as int) == ridges_between(
                first,
                second,
                p,
                b,
                w,
                h,
                ms,
            ),
        decreases num - i,
    {
        let ghost i0 = i as int;
        proof {
            lemma_next_transition_after(p, b, w, num as int, i0, 0, 1);
        }
        if !find_transition(&mut i, 0, 1, pts, num, bdata, iw, ih) {
            return count;
        }
        let ridge_start = i;
        proof {
            lemma_next_transition_after(p, b, w, num as int, ridge_start as int, 1, 0);
        }
        if !find_transition(&mut i, 1, 0, pts, num, bdata, iw, ih) {
            return count;
        }
        let ridge_end = i;
        if validate_ridge_crossing(ridge_start, ridge_end, pts, bdata, iw, ih, max_ridge_steps) {
            count += 1;
        }
    }
    count
}

/// The column-major rank of a minutia in an image of width `w`: `x * w + y`.
pub open spec fn xy_rank(m: DetMinutia, w: int) -> int {
    m.x * w + m.y
}

/// Every rank of the list fits an `i32`.
pub open spec fn ranks_fit(s: Seq<DetMinutia>, w: int) -> bool {
    forall|k: int|
        0 <= k < s.len() ==> i32::MIN <= #[trigger] xy_rank(s[k], w) <= i32::MAX && i32::MIN <= s[k].x
            * w <= i32::MAX
}

/// Two minutiae with the same attributes and neighbour lists.
pub open spec fn same_minutia(a: DetMinutia, b: DetMinutia) -> bool {
    &&& a.x == b.x && a.y == b.y && a.ex == b.ex && a.ey == b.ey
    &&& a.direction == b.direction && a.reliability == b.reliability && a.kind == b.kind
    &&& a.appearing == b.appearing && a.feature_id == b.feature_id
    &&& a.nbrs@ == b.nbrs@ && a.ridge_counts@ == b.ridge_counts@
}

/// A copy of a minutia.
pub fn copy_minutia(m: &DetMinutia) -> (r: DetMinutia)
    ensures
        same_minutia(r, *m),
{
    DetMinutia {
        x: m.x,
        y: m.y,
        ex: m.ex,
        ey: m.ey,
        direction: m.direction,
        reliability: m.reliability,
        kind: m.kind,
        appearing: m.appearing,
        feature_id: m.feature_id,
        nbrs: m.nbrs.clone(),
        ridge_counts: m.ridge_counts.clone(),
    }
}

/// The ranks of a list of minutiae.
pub open spec fn ranks_of(s: Seq<DetMinutia>, w: int) -> Seq<i32> {
    Seq::new(s.len(), |k: int| xy_rank(s[k], w) as i32)
}

/// `out` is `inp` sorted left to right, then top to bottom (by [`xy_rank`]), keeping the input
/// order of minutiae with equal rank.
pub open spec fn sorted_x_y(out: Seq<DetMinutia>, inp: Seq<DetMinutia>, w: int) -> bool {
    exists|perm: Seq<int>|
        {
            &&& is_perm(perm, inp.len() as int)
            &&& out.len() == inp.len()
            &&& forall|k: int| 0 <= k < out.len() ==> same_minutia(#[trigger] out[k], inp[perm[k]])
            &&& sorted(ranks_of(out, w))
            &&& stable(ranks_of(out, w), perm)
        }
}

/// Sort the minutiae left to right, then top to bottom: by rank `x * iw + y`, with a stable sort
/// so minutiae of equal rank keep their order.
pub fn sort_minutiae_x_y(minutiae: &mut Vec<DetMinutia>, iw: i32)
    requires
        ranks_fit(old(minutiae)@, iw as int),
        old(minutiae)@.len() <= i32::MAX,
    ensures
        sorted_x_y(final(minutiae)@, old(minutiae)@, iw as int),
{
    let ghost m0 = minutiae@;
    let n = minutiae.len();
    let mut ranks: Vec<i32> = Vec::with_capacity(n);
    let mut k: usize = 0;
    while k < n
        invariant
            n == m0.len() && minutiae@ == m0,
            ranks_fit(m0, iw as int),
            k <= n,
            ranks@.len() == k,
            forall|j: int| 0 <= j < k ==> #[trigger] ranks@[j] == xy_rank(m0[j], iw as int),
        decreases n - k,
    {
        proof {
            assert(i32::MIN <= xy_rank(m0[k as int], iw as int) <= i32::MAX);
        }
        ranks.push(minutiae[k].x * iw + minutiae[k].y);
        k += 1;
    }
    let ghost r0 = ranks@;
    assert(r0 =~= ranks_of(m0, iw as int));
    let order = sort_indices_int_inc(&mut ranks);
    let ghost rs = ranks@;
    let mut newlist: Vec<DetMinutia> = Vec::with_capacity(n);
    let mut k: usize = 0;
    while k < n
        invariant
            n == m0.len() && minutiae@ == m0,
            order@.len() == n,
            forall|j: int| 0 <= j < n ==> 0 <= #[trigger] order@[j] < n,
            k <= n,
            newlist@.len() == k,
            forall|j: int| 0 <= j < k ==> same_minutia(#[trigger] newlist@[j], m0[order@[j] as int]),
        decreases n - k,
    {
        let o = order[k];
        proof {
            assert(0 <= order@[k as int] < n);
        }
        newlist.push(copy_minutia(&minutiae[o as usize]));
        k += 1;
    }
    proof {
        let perm = Seq::new(n as nat, |j: int| order@[j] as int);
        assert forall|j: int| 0 <= j < n implies #[trigger] ranks_of(newlist@, iw as int)[j] == rs[j] by {
            let o = order@[j] as int;
            assert(final_ranks_at(rs, r0, order@, j));
            assert(rs[j] == r0[o]);
            assert(0 <= o < n);
            assert(r0[o] == ranks_of(m0, iw as int)[o]);
            assert(i32::MIN <= xy_rank(m0[o], iw as int) <= i32::MAX);
            assert(same_minutia(newlist@[j], m0[o]));
            assert(xy_rank(newlist@[j], iw as int) == xy_rank(m0[o], iw as int));
        }
        assert(ranks_of(newlist@, iw as int) =~= rs);
        assert(is_perm(perm, n as int));
        assert forall|a: int, b: int| 0 <= a < b < n && ranks_of(newlist@, iw as int)[a] == ranks_of(newlist@, iw as int)[b] implies perm[a] < perm[b] by {
            assert(rs[a] == rs[b]);
        }
        assert(stable(ranks_of(newlist@, iw as int), perm));
        assert forall|j: int| 0 <= j < n implies same_minutia(#[trigger] newlist@[j], m0[perm[j]]) by {
        }
    }
    *minutiae = newlist;
}

/// The list after walking it back to front from index `i`, dropping the earlier of each pair of
/// neighbours that share a pixel.
pub open spec fn dedup_from(s: Seq<DetMinutia>, i: int) -> Seq<DetMinutia>
    decreases i,
{
    if i <= 0 || i >= s.len() {
        s
    } else if s[i].x == s[i - 1].x && s[i].y == s[i - 1].y {
        dedup_from(s.remove(i - 1), i - 1)
    } else {
        dedup_from(s, i - 1)
    }
}

/// Remove minutiae that share a pixel with the next entry of the list: walking back to front,
/// of two neighbours on the same pixel the earlier one is dropped.
pub fn rm_dup_minutiae(minutiae: &mut Vec<DetMinutia>)
    ensures
        final(minutiae)@ == dedup_from(old(minutiae)@, old(minutiae)@.len() - 1),
{
    if minutiae.len() == 0 {
        return;
    }
    let ghost whole = dedup_from(minutiae@, minutiae@.len() - 1);
    let mut i = minutiae.len() - 1;
    while i > 0
        invariant
            i < minutiae@.len(),
            dedup_from(minutiae@, i as int) == whole,
        decreases i,
    {
        if minutiae[i].x == minutiae[i - 1].x && minutiae[i].y == minutiae[i - 1].y {
            minutiae.remove(i - 1);
        }
        i -= 1;
    }
}

/// Two minutiae on the same pixel.
pub open spec fn same_pixel(a: DetMinutia, b: DetMinutia) -> bool {
    a.x == b.x && a.y == b.y
}

/// No two neighbours of `s` from index `i` on share a pixel.
pub open spec fn distinct_from(s: Seq<DetMinutia>, i: int) -> bool {
    forall|j: int| i <= j && j + 1 < s.len() ==> !same_pixel(#[trigger] s[j], s[j + 1])
}

/// Removing duplicates leaves no two neighbours on the same pixel.
pub proof fn lemma_dedup_leaves_no_neighbouring_twins(s: Seq<DetMinutia>, i: int)
    requires
        0 <= i < s.len(),
        distinct_from(s, i),
    ensures
        distinct_from(dedup_from(s, i), 0),
    decreases i,
{
    if i == 0 {
    } else if s[i].x == s[i - 1].x && s[i].y == s[i - 1].y {
        let t = s.remove(i - 1);
        assert forall|j: int| i - 1 <= j && j + 1 < t.len() implies !same_pixel(#[trigger] t[j], t[j + 1]) by {
            assert(t[j] == s[j + 1] && t[j + 1] == s[j + 2]);
        }
        lemma_dedup_leaves_no_neighbouring_twins(t, i - 1);
    } else {
        lemma_dedup_leaves_no_neighbouring_twins(s, i - 1);
    }
}

/// Removing duplicates keeps every pixel that the list holds.
pub proof fn lemma_dedup_keeps_every_pixel(s: Seq<DetMinutia>, i: int, k: int)
    requires
        0 <= k < s.len(),
    ensures
        exists|j: int| 0 <= j < dedup_from(s, i).len() && same_pixel(#[trigger] dedup_from(s, i)[j], s[k]),
    decreases i,
{
    if i <= 0 || i >= s.len() {
        assert(same_pixel(dedup_from(s, i)[k], s[k]));
    } else if s[i].x == s[i - 1].x && s[i].y == s[i - 1].y {
        let t = s.remove(i - 1);
        let k2 = if k < i - 1 {
            k
        } else if k == i - 1 {
            i - 1
        } else {
            k - 1
        };
        assert(same_pixel(t[k2], s[k]));
        lemma_dedup_keeps_every_pixel(t, i - 1, k2);
        let j = choose|j: int| 0 <= j < dedup_from(t, i - 1).len() && same_pixel(#[trigger] dedup_from(t, i - 1)[j], t[k2]);
        assert(dedup_from(s, i) == dedup_from(t, i - 1));
        assert(same_pixel(dedup_from(s, i)[j], s[k]));
    } else {
        lemma_dedup_keeps_every_pixel(s, i - 1, k);
        assert(dedup_from(s, i) == dedup_from(s, i - 1));
    }
}

} // verus!
