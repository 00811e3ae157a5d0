//! The per-row shape of a closed loop contour: for each scanline the loop spans, the distinct
//! x-coordinates of its contour points on that row, left to right. Filling a loop walks these
//! rows and fills between the points.

use vstd::prelude::*;

use crate::contour::{contour_limits, lemma_seq_min_max, seq_max, seq_min};
use crate::num::{bubble_sort_int_inc, is_perm, permuted, sorted};

verus! {

/// Error code of a row that cannot take another point.
pub const ERR_ROW_FULL: i32 = -260;

/// One scanline of a [`Shape`].
#[derive(Debug)]
pub struct Row {
    /// The y-coordinate shared by every point of the row.
    pub y: i32,
    /// The x-coordinates of the row's contour points.
    pub xs: Vec<i32>,
    /// How many points the row can hold.
    pub alloc: usize,
}

/// A loop contour reorganised by scanline.
#[derive(Debug)]
pub struct Shape {
    /// One row per scanline of the loop's bounding box, top to bottom.
    pub rows: Vec<Row>,
}

/// The number of rows (or points per row) spanned by `lo..=hi`, none when the span is empty.
pub open spec fn span(lo: int, hi: int) -> int {
    if hi - lo + 1 > 0 {
        hi - lo + 1
    } else {
        0
    }
}

/// A shape spanning scanlines `ymin..=ymax`, each row empty and able to hold
/// `xmax - xmin + 1` points.
pub open spec fn fresh_shape(rows: Seq<Row>, xmin: int, ymin: int, xmax: int, ymax: int) -> bool {
    &&& rows.len() == span(ymin, ymax)
    &&& forall|r: int|
        0 <= r < rows.len() ==> (#[trigger] rows[r]).y == ymin + r && rows[r].xs@.len() == 0
            && rows[r].alloc == span(xmin, xmax)
}

/// Allocate a shape spanning scanlines `ymin..=ymax`, each row empty, with room for
/// `xmax - xmin + 1` points (the most a row of the bounding box can hold).
pub fn alloc_shape(xmin: i32, ymin: i32, xmax: i32, ymax: i32) -> (s: Shape)
    requires
        i32::MIN < ymax - ymin + 1 < i32::MAX,
        i32::MIN < xmax - xmin + 1 < i32::MAX,
    ensures
        fresh_shape(s.rows@, xmin as int, ymin as int, xmax as int, ymax as int),
{
    let alloc_rows = ymax - ymin + 1;
    let alloc_pts: usize = if xmax - xmin + 1 > 0 {
        (xmax - xmin + 1) as usize
    } else {
        0
    };
    let n: usize = if alloc_rows > 0 {
        alloc_rows as usize
    } else {
        0
    };
    let mut rows: Vec<Row> = Vec::with_capacity(n);
    let mut i: i32 = 0;
    while i < alloc_rows
        invariant
            alloc_rows == ymax - ymin + 1,
            alloc_pts == span(xmin as int, xmax as int),
            0 <= i,
            alloc_rows > 0 ==> i <= alloc_rows,
            alloc_rows <= 0 ==> i == 0,
            rows@.len() == i,
            forall|r: int|
                0 <= r < i ==> (#[trigger] rows@[r]).y == ymin + r && rows@[r].xs@.len() == 0
                    && rows@[r].alloc == alloc_pts,
        decreases alloc_rows - i,
    {
        rows.push(Row { y: ymin + i, xs: Vec::with_capacity(alloc_pts), alloc: alloc_pts });
        i += 1;
    }
    Shape { rows }
}

/// The x-coordinates of the contour points `0..n` that lie on scanline `y`.
pub open spec fn xs_on_row(cx: Seq<i32>, cy: Seq<i32>, n: int, y: int) -> Set<i32> {
    Set::new(|v: i32| exists|j: int| 0 <= j < n && cy[j] == y && #[trigger] cx[j] == v)
}

/// `xs` holds each x-coordinate of the contour points on scanline `y` once, left to right.
pub open spec fn row_of(xs: Seq<i32>, cx: Seq<i32>, cy: Seq<i32>, y: int) -> bool {
    &&& sorted(xs)
    &&& xs.no_duplicates()
    &&& xs.to_set() == xs_on_row(cx, cy, cx.len() as int, y)
}

/// `rows` is the shape of the closed contour `(cx, cy)`: one row per scanline of its bounding
/// box, top to bottom, each holding the distinct x-coordinates of the contour points on it,
/// left to right.
pub open spec fn shape_of(rows: Seq<Row>, cx: Seq<i32>, cy: Seq<i32>) -> bool {
    &&& rows.len() == seq_max(cy) - seq_min(cy) + 1
    &&& forall|r: int|
        0 <= r < rows.len() ==> (#[trigger] rows[r]).y == seq_min(cy) + r && rows[r].alloc
            == seq_max(cx) - seq_min(cx) + 1 && row_of(rows[r].xs@, cx, cy, seq_min(cy) + r)
}

/// A sequence of distinct values in `lo..hi` has at most `hi - lo` entries.
proof fn lemma_distinct_in_range(s: Seq<i32>, lo: int, hi: int)
    requires
        s.no_duplicates(),
        forall|k: int| 0 <= k < s.len() ==> lo <= #[trigger] s[k] < hi,
    ensures
        s.len() <= if hi - lo > 0 {
            hi - lo
        } else {
            0
        },
    decreases if hi - lo > 0 {
        hi - lo
    } else {
        0
    },
{
    if s.len() == 0 {
    } else if hi - lo <= 0 {
        assert(lo <= s[0] < hi);
    } else {
        let m = hi - 1;
        if exists|k: int| 0 <= k < s.len() && s[k] == m {
            let k = choose|k: int| 0 <= k < s.len() && s[k] == m;
            let t = s.remove(k);
            assert forall|a: int, b: int| 0 <= a < t.len() && 0 <= b < t.len() && a != b implies t[a]
                != t[b] by {
                let sa = if a < k {
                    a
                } else {
                    a + 1
                };
                let sb = if b < k {
                    b
                } else {
                    b + 1
                };
                assert(t[a] == s[sa] && t[b] == s[sb]);
            }
            assert forall|j: int| 0 <= j < t.len() implies lo <= #[trigger] t[j] < hi - 1 by {
                let sj = if j < k {
                    j
                } else {
                    j + 1
                };
                assert(t[j] == s[sj]);
                assert(sj != k);
            }
            lemma_distinct_in_range(t, lo, hi - 1);
        } else {
            assert forall|j: int| 0 <= j < s.len() implies lo <= #[trigger] s[j] < hi - 1 by {
                assert(s[j] != m);
            }
            lemma_distinct_in_range(s, lo, hi - 1);
        }
    }
}

/// What binning the first `i` points keeps true of each row: distinct values within the
/// bounding box, exactly the x-coordinates seen so far on the row's scanline.
pub open spec fn binned(rows: Seq<Row>, cx: Seq<i32>, cy: Seq<i32>, i: int) -> bool {
    &&& rows.len() == seq_max(cy) - seq_min(cy) + 1
    &&& forall|r: int|
        0 <= r < rows.len() ==> {
            let row = #[trigger] rows[r];
            &&& row.y == seq_min(cy) + r
            &&& row.alloc == seq_max(cx) - seq_min(cx) + 1
            &&& row.xs@.no_duplicates()
            &&& forall|k: int| 0 <= k < row.xs@.len() ==> seq_min(cx) <= #[trigger] row.xs@[k] <= seq_max(cx)
            &&& row.xs@.to_set() == xs_on_row(cx, cy, i, seq_min(cy) + r)
        }
}

/// Whether `v` occurs in `xs`.
fn contains(xs: &Vec<i32>, v: i32) -> (r: bool)
    ensures
        r == xs@.contains(v),
{
    let mut k: usize = 0;
    while k < xs.len()
        invariant
            k <= xs@.len(),
            forall|j: int| 0 <= j < k ==> xs@[j] != v,
        decreases xs@.len() - k,
    {
        if xs[k] == v {
            return true;
        }
        k += 1;
    }
    false
}

/// Binning point `i` onto its row: the row's set gains `cx[i]`.
proof fn lemma_bin_step(
    old_xs: Seq<i32>,
    new_xs: Seq<i32>,
    v: i32,
    cx: Seq<i32>,
    cy: Seq<i32>,
    i: int,
    y: int,
)
    requires
        0 <= i < cx.len(),
        cx[i] == v,
        cy[i] == y,
        old_xs.to_set() == xs_on_row(cx, cy, i, y),
        new_xs == if old_xs.contains(v) {
            old_xs
        } else {
            old_xs.push(v)
        },
    ensures
        new_xs.to_set() == xs_on_row(cx, cy, i + 1, y),
{
    assert forall|u: i32| #[trigger] new_xs.to_set().contains(u) implies xs_on_row(cx, cy, i + 1, y).contains(u) by {
        if u == v {
            assert(cx[i] == u);
        } else {
            assert(new_xs.contains(u));
            let a = choose|a: int| 0 <= a < new_xs.len() && new_xs[a] == u;
            if !old_xs.contains(v) {
                assert(a < old_xs.len());
                assert(old_xs[a] == u);
            }
            assert(old_xs.contains(u));
            assert(old_xs.to_set().contains(u));
            assert(xs_on_row(cx, cy, i, y).contains(u));
            let j = choose|j: int| 0 <= j < i && cy[j] == y && #[trigger] cx[j] == u;
            assert(cx[j] == u);
        }
    }
    assert forall|u: i32| #[trigger] xs_on_row(cx, cy, i + 1, y).contains(u) implies new_xs.to_set().contains(u) by {
        let j = choose|j: int| 0 <= j < i + 1 && cy[j] == y && #[trigger] cx[j] == u;
        if j < i {
            assert(cx[j] == u);
            assert(xs_on_row(cx, cy, i, y).contains(u));
            assert(old_xs.to_set().contains(u));
            assert(old_xs.contains(u));
            let a = choose|a: int| 0 <= a < old_xs.len() && old_xs[a] == u;
            assert(new_xs[a] == u);
            assert(new_xs.contains(u));
        } else {
            if old_xs.contains(v) {
                assert(new_xs.contains(u));
            } else {
                assert(new_xs[old_xs.len() as int] == u);
                assert(new_xs.contains(u));
            }
        }
    }
    assert(new_xs.to_set() =~= xs_on_row(cx, cy, i + 1, y));
}

/// Binning point `i` leaves the other rows' sets as they were.
proof fn lemma_bin_other(cx: Seq<i32>, cy: Seq<i32>, i: int, y: int)
    requires
        0 <= i < cx.len(),
        cy[i] != y,
    ensures
        xs_on_row(cx, cy, i + 1, y) == xs_on_row(cx, cy, i, y),
{
    assert forall|u: i32| #[trigger] xs_on_row(cx, cy, i + 1, y).contains(u) implies xs_on_row(cx, cy, i, y).contains(u) by {
        let j = choose|j: int| 0 <= j < i + 1 && cy[j] == y && #[trigger] cx[j] == u;
        assert(j != i);
        assert(cx[j] == u);
    }
    assert forall|u: i32| #[trigger] xs_on_row(cx, cy, i, y).contains(u) implies xs_on_row(cx, cy, i + 1, y).contains(u) by {
        let j = choose|j: int| 0 <= j < i && cy[j] == y && #[trigger] cx[j] == u;
        assert(cx[j] == u);
    }
    assert(xs_on_row(cx, cy, i + 1, y) =~= xs_on_row(cx, cy, i, y));
}

/// Reorganise a closed contour into its per-row [`Shape`] (see [`shape_of`]).
///
/// Each contour point is binned onto the row of its scanline unless its x-coordinate is already
/// there (a pinching contour revisits points); then each row is sorted left to right. A row
/// that is full when a new point arrives is the error [`ERR_ROW_FULL`], which cannot occur: a row
/// holds at most the bounding box's width of distinct points.
pub fn shape_from_contour(contour_x: &[i32], contour_y: &[i32]) -> (r: Result<Shape, i32>)
    requires
        contour_x@.len() > 0,
        contour_x@.len() == contour_y@.len(),
        seq_max(contour_y@) - seq_min(contour_y@) + 1 < i32::MAX,
        seq_max(contour_x@) - seq_min(contour_x@) + 1 < i32::MAX,
    ensures
        r matches Ok(s) && shape_of(s.rows@, contour_x@, contour_y@),
{
    let ghost (cx, cy) = (contour_x@, contour_y@);
    proof {
        lemma_seq_min_max(cx);
        lemma_seq_min_max(cy);
    }
    let (xmin, ymin, xmax, ymax) = contour_limits(contour_x, contour_y);
    let mut shape = alloc_shape(xmin, ymin, xmax, ymax);
    proof {
        assert forall|r: int| 0 <= r < shape.rows@.len() implies #[trigger] shape.rows@[r].xs@.to_set()
            == xs_on_row(cx, cy, 0, seq_min(cy) + r) by {
            assert(shape.rows@[r].xs@.to_set() =~= xs_on_row(cx, cy, 0, seq_min(cy) + r));
        }
    }
    let n = contour_x.len();
    let mut i: usize = 0;
    while i < n
        invariant
            cx == contour_x@ && cy == contour_y@,
            n == cx.len() && n == cy.len(),
            forall|j: int| 0 <= j < n ==> seq_min(cx) <= #[trigger] cx[j] <= seq_max(cx),
            forall|j: int| 0 <= j < n ==> seq_min(cy) <= #[trigger] cy[j] <= seq_max(cy),
            xmin == seq_min(cx) && ymin == seq_min(cy) && xmax == seq_max(cx),
            seq_max(cy) - seq_min(cy) + 1 < i32::MAX,
            i <= n,
            binned(shape.rows@, cx, cy, i as int),
        decreases n - i,
    {
        let ghost rows0 = shape.rows@;
        proof {
            assert(seq_min(cy) <= cy[i as int] <= seq_max(cy));
            assert(seq_min(cx) <= cx[i as int] <= seq_max(cx));
        }
        let ri = (contour_y[i] - ymin) as usize;
        let v = contour_x[i];
        let mut row = shape.rows.remove(ri);
        proof {
            assert(row == rows0[ri as int]);
        }
        let ghost old_xs = row.xs@;
        if !contains(&row.xs, v) {
            if row.xs.len() >= row.alloc {
                proof {
                    assert(old_xs.push(v).no_duplicates()) by {
                        assert forall|a: int, b: int| 0 <= a < old_xs.len() + 1 && 0 <= b < old_xs.len() + 1 && a != b implies old_xs.push(v)[a] != old_xs.push(v)[b] by {
                            if a == old_xs.len() as int {
                                assert(old_xs[b] != v);
                            } else if b == old_xs.len() as int {
                                assert(old_xs[a] != v);
                            }
                        }
                    }
                    lemma_distinct_in_range(old_xs.push(v), seq_min(cx), seq_max(cx) + 1);
                }
                return Err(ERR_ROW_FULL);
            }
            row.xs.push(v);
            proof {
                assert forall|a: int, b: int| 0 <= a < old_xs.len() + 1 && 0 <= b < old_xs.len() + 1 && a != b implies old_xs.push(v)[a] != old_xs.push(v)[b] by {
                    if a == old_xs.len() as int {
                        assert(old_xs[b] != v);
                    } else if b == old_xs.len() as int {
                        assert(old_xs[a] != v);
                    }
                }
                assert(row.xs@.no_duplicates());
            }
        }
        proof {
            let y = seq_min(cy) + ri;
            lemma_bin_step(old_xs, row.xs@, v, cx, cy, i as int, y);
        }
        let ghost new_row = row;
        shape.rows.insert(ri, row);
        proof {
            assert(shape.rows@ =~= rows0.update(ri as int, new_row));
            assert forall|r: int| 0 <= r < shape.rows@.len() && r != ri implies #[trigger] shape.rows@[r].xs@.to_set()
                == xs_on_row(cx, cy, i + 1, seq_min(cy) + r) by {
                assert(shape.rows@[r] == rows0[r]);
                lemma_bin_other(cx, cy, i as int, seq_min(cy) + r);
            }
        }
        i += 1;
    }
    let nrows = shape.rows.len();
    let mut r: usize = 0;
    while r < nrows
        invariant
            cx == contour_x@ && cy == contour_y@,
            nrows == shape.rows@.len(),
            r <= nrows,
            shape.rows@.len() == seq_max(cy) - seq_min(cy) + 1,
            forall|q: int|
                0 <= q < nrows ==> {
                    let row = #[trigger] shape.rows@[q];
                    &&& row.y == seq_min(cy) + q
                    &&& row.alloc == seq_max(cx) - seq_min(cx) + 1
                    &&& row.xs@.no_duplicates()
                    &&& row.xs@.to_set() == xs_on_row(cx, cy, cx.len() as int, seq_min(cy) + q)
                    &&& q < r ==> sorted(row.xs@)
                },
        decreases nrows - r,
    {
        let ghost rows0 = shape.rows@;
        let mut row = shape.rows.remove(r);
        proof {
            assert(row == rows0[r as int]);
        }
        sort_row_on_x(&mut row);
        let ghost new_row = row;
        shape.rows.insert(r, row);
        proof {
            assert(shape.rows@ == rows0.update(r as int, new_row));
        }
        r += 1;
    }
    Ok(shape)
}

/// Sort a row's x-coordinates left to right (a stable increasing bubble sort).
pub fn sort_row_on_x(row: &mut Row)
    requires
        old(row).xs@.no_duplicates(),
    ensures
        final(row).y == old(row).y,
        final(row).alloc == old(row).alloc,
        sorted(final(row).xs@),
        final(row).xs@.no_duplicates(),
        final(row).xs@.to_set() == old(row).xs@.to_set(),
        final(row).xs@.len() == old(row).xs@.len(),
{
    let ghost x0 = row.xs@;
    bubble_sort_int_inc(row.xs.as_mut_slice());
    proof {
        let x1 = row.xs@;
        let perm = choose|perm: Seq<int>| is_perm(perm, x0.len() as int) && permuted(x1, x0, perm);
        assert(x1.no_duplicates()) by {
            assert forall|a: int, b: int| 0 <= a < x1.len() && 0 <= b < x1.len() && a != b implies x1[a] != x1[b] by {
                assert(x1[a] == x0[perm[a]] && x1[b] == x0[perm[b]]);
                assert(perm[a] != perm[b]);
            }
        }
        assert(x1.to_set().subset_of(x0.to_set())) by {
            assert forall|v: i32| x1.to_set().contains(v) implies x0.to_set().contains(v) by {
                assert(x1.contains(v));
                let a = choose|a: int| 0 <= a < x1.len() && x1[a] == v;
                assert(x0[perm[a]] == v);
                assert(x0.contains(v));
            }
        }
        vstd::seq_lib::seq_to_set_is_finite(x0);
        vstd::seq_lib::seq_to_set_is_finite(x1);
        x0.unique_seq_to_set();
        x1.unique_seq_to_set();
        vstd::set_lib::lemma_subset_equality(x1.to_set(), x0.to_set());
    }
}

} // verus!
