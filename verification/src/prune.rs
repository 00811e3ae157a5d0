//! Pruning of inconsistent block directions.
//!
//! Each pass tests the map's centre block and then the edges of ever larger concentric squares
//! around it (top left→right, right top→bottom, bottom right→left, left bottom→top), setting to
//! INVALID every valid direction that the block test rejects; a removal is visible to the tests
//! that follow it, so the order decides what survives. Passes repeat until one removes nothing:
//! the result is the map that chain of ordered passes gives ([`repeated_passes`]), and so a fixed
//! point of the test: every direction left standing is one the test keeps on the final map.
//!
//! The block test itself weighs an average of the neighbours' directions, which is floating-point
//! work done by the caller; it is handed in as a closure.

use vstd::prelude::*;

use crate::contour::INVALID_DIR;
use crate::grid::{at, grid_ok, in_grid, lemma_offset};

verus! {

/// How many entries of `s` hold a direction.
pub open spec fn n_valid(s: Seq<i32>) -> nat
    decreases s.len(),
{
    if s.len() == 0 {
        0
    } else {
        n_valid(s.drop_last()) + if s.last() != INVALID_DIR {
            1nat
        } else {
            0nat
        }
    }
}

/// `after` is `before` with some directions set to INVALID and nothing else changed.
pub open spec fn prunes_only(before: Seq<i32>, after: Seq<i32>) -> bool {
    &&& after.len() == before.len()
    &&& forall|k: int| 0 <= k < before.len() ==> #[trigger] after[k] == before[k] || after[k] == INVALID_DIR
}

/// The block test, on map `m`, keeps the direction at `(x, y)`.
pub open spec fn kept_by<F: Fn(&[i32], i32, i32) -> bool>(f: F, m: &[i32], x: int, y: int) -> bool {
    call_ensures(f, (m, x as i32, y as i32), false)
}

/// The block at `(x, y)` of `m` holds no direction, or one the test keeps.
pub open spec fn settled_at<F: Fn(&[i32], i32, i32) -> bool>(
    f: F,
    m: &[i32],
    w: int,
    x: int,
    y: int,
) -> bool {
    at(m@, w, x, y) == INVALID_DIR || kept_by(f, m, x, y)
}

/// The block test may be asked about any block of any map.
pub open spec fn total<F: Fn(&[i32], i32, i32) -> bool>(f: F) -> bool {
    forall|m: &[i32], x: i32, y: i32| call_requires(f, (m, x, y))
}

/// The block test, on map `m`, rejects the direction at `(x, y)`.
pub open spec fn rejected_on<F: Fn(&[i32], i32, i32) -> bool>(f: F, m: &[i32], x: int, y: int) -> bool {
    call_ensures(f, (m, x as i32, y as i32), true)
}

/// Every block of a `w`×`h` grid that held a direction in `before` and holds none in `after`
/// lost it to the test: on some map between the two, where that block still held its direction,
/// the test rejected it.
pub open spec fn justified<F: Fn(&[i32], i32, i32) -> bool>(
    f: F,
    before: Seq<i32>,
    after: Seq<i32>,
    w: int,
    h: int,
) -> bool {
    forall|x: int, y: int|
        in_grid(x, y, w, h) && at(before, w, x, y) != INVALID_DIR && #[trigger] at(after, w, x, y)
            == INVALID_DIR ==> exists|m: &[i32]|
            prunes_only(before, m@) && at(m@, w, x, y) == at(before, w, x, y) && #[trigger] rejected_on(
                f,
                m,
                x,
                y,
            )
}

/// Justified removals compose.
proof fn lemma_justified_compose<F: Fn(&[i32], i32, i32) -> bool>(
    f: F,
    s0: Seq<i32>,
    s1: Seq<i32>,
    s2: Seq<i32>,
    w: int,
    h: int,
)
    requires
        grid_ok(s0.len() as int, w, h),
        prunes_only(s0, s1),
        prunes_only(s1, s2),
        justified(f, s0, s1, w, h),
        justified(f, s1, s2, w, h),
    ensures
        justified(f, s0, s2, w, h),
{
    assert forall|x: int, y: int|
        in_grid(x, y, w, h) && at(s0, w, x, y) != INVALID_DIR && #[trigger] at(s2, w, x, y)
            == INVALID_DIR implies exists|m: &[i32]|
        prunes_only(s0, m@) && at(m@, w, x, y) == at(s0, w, x, y) && #[trigger] rejected_on(f, m, x, y) by {
        lemma_offset(x, y, w, h);
        let k = y * w + x;
        assert(s1[k] == s0[k] || s1[k] == INVALID_DIR);
        if at(s1, w, x, y) == INVALID_DIR {
            let m = choose|m: &[i32]|
                prunes_only(s0, m@) && at(m@, w, x, y) == at(s0, w, x, y) && #[trigger] rejected_on(f, m, x, y);
            assert(prunes_only(s0, m@));
        } else {
            let m = choose|m: &[i32]|
                prunes_only(s1, m@) && at(m@, w, x, y) == at(s1, w, x, y) && #[trigger] rejected_on(f, m, x, y);
            assert forall|j: int| 0 <= j < s0.len() implies #[trigger] m@[j] == s0[j] || m@[j] == INVALID_DIR by {
                assert(s1[j] == s0[j] || s1[j] == INVALID_DIR);
                assert(m@[j] == s1[j] || m@[j] == INVALID_DIR);
            }
            assert(prunes_only(s0, m@));
        }
    }
}

/// A map with nothing removed is trivially justified.
proof fn lemma_justified_refl<F: Fn(&[i32], i32, i32) -> bool>(f: F, s: Seq<i32>, w: int, h: int)
    ensures
        justified(f, s, s, w, h),
{
}

/// Invalidating one block that the test rejected on the map as it stood is justified.
proof fn lemma_justified_one<F: Fn(&[i32], i32, i32) -> bool>(
    f: F,
    r: &[i32],
    bx: int,
    by: int,
    w: int,
    h: int,
)
    requires
        grid_ok(r@.len() as int, w, h),
        in_grid(bx, by, w, h),
        rejected_on(f, r, bx, by),
        at(r@, w, bx, by) != INVALID_DIR,
    ensures
        justified(f, r@, r@.update(by * w + bx, INVALID_DIR), w, h),
{
    let s = r@;
    let u = s.update(by * w + bx, INVALID_DIR);
    lemma_offset(bx, by, w, h);
    assert forall|x: int, y: int|
        in_grid(x, y, w, h) && at(s, w, x, y) != INVALID_DIR && #[trigger] at(u, w, x, y)
            == INVALID_DIR implies exists|m: &[i32]|
        prunes_only(s, m@) && at(m@, w, x, y) == at(s, w, x, y) && #[trigger] rejected_on(f, m, x, y) by {
        lemma_offset(x, y, w, h);
        if y * w + x != by * w + bx {
            assert(u[y * w + x] == s[y * w + x]);
        } else {
            crate::grid::lemma_offset_injective(x, y, bx, by, w, h);
            assert(prunes_only(s, r@));
            assert(rejected_on(f, r, x, y));
        }
    }
}

/// The block test, on map `m`, answered `r` for the block at `(x, y)`.
pub open spec fn answers<F: Fn(&[i32], i32, i32) -> bool>(f: F, m: &[i32], x: int, y: int, r: bool) -> bool {
    call_ensures(f, (m, x as i32, y as i32), r)
}

/// Testing block `b` of map `s` gives `t`: a block without a direction is left alone; otherwise
/// the test is asked on `s`, and its direction goes exactly when the test rejects it.
pub open spec fn test_step<F: Fn(&[i32], i32, i32) -> bool>(
    f: F,
    s: Seq<i32>,
    w: int,
    b: (int, int),
    t: Seq<i32>,
) -> bool {
    if at(s, w, b.0, b.1) == INVALID_DIR {
        t == s
    } else {
        exists|m: &[i32], r: bool|
            m@ == s && #[trigger] answers(f, m, b.0, b.1, r) && t == if r {
                s.update(b.1 * w + b.0, INVALID_DIR)
            } else {
                s
            }
    }
}

/// `ms` are the maps a run of tests over the blocks `bs` passes through: each block tested on the
/// map before it gives the map after it.
pub open spec fn steps_through<F: Fn(&[i32], i32, i32) -> bool>(
    f: F,
    ms: Seq<Seq<i32>>,
    bs: Seq<(int, int)>,
    w: int,
) -> bool {
    &&& ms.len() == bs.len() + 1
    &&& forall|i: int| 0 <= i < bs.len() ==> #[trigger] test_step(f, ms[i], w, bs[i], ms[i + 1])
}

/// Testing the blocks `bs` of map `s` one after another, each on the map as the earlier tests
/// left it, gives `t`.
pub open spec fn walks<F: Fn(&[i32], i32, i32) -> bool>(
    f: F,
    s: Seq<i32>,
    bs: Seq<(int, int)>,
    w: int,
    t: Seq<i32>,
) -> bool {
    exists|ms: Seq<Seq<i32>>| #[trigger] steps_through(f, ms, bs, w) && ms[0] == s && ms.last() == t
}

/// Testing no blocks leaves the map as it is.
proof fn lemma_walks_none<F: Fn(&[i32], i32, i32) -> bool>(f: F, s: Seq<i32>, w: int)
    ensures
        walks(f, s, Seq::empty(), w, s),
{
    assert(steps_through(f, seq![s], Seq::empty(), w));
}

/// Testing `a` and then `b` is testing `a + b`.
proof fn lemma_walks_append<F: Fn(&[i32], i32, i32) -> bool>(
    f: F,
    s0: Seq<i32>,
    a: Seq<(int, int)>,
    s1: Seq<i32>,
    b: Seq<(int, int)>,
    s2: Seq<i32>,
    w: int,
)
    requires
        walks(f, s0, a, w, s1),
        walks(f, s1, b, w, s2),
    ensures
        walks(f, s0, a + b, w, s2),
{
    let ma = choose|ms: Seq<Seq<i32>>| #[trigger] steps_through(f, ms, a, w) && ms[0] == s0 && ms.last() == s1;
    let mb = choose|ms: Seq<Seq<i32>>| #[trigger] steps_through(f, ms, b, w) && ms[0] == s1 && ms.last() == s2;
    let ms = ma + mb.skip(1);
    let n = a.len() as int;
    assert forall|i: int| 0 <= i <= (a + b).len() implies ms[i] == if i <= n { ma[i] } else { mb[i - n] } by {
    }
    assert forall|i: int| n <= i <= (a + b).len() implies ms[i] == mb[i - n] by {
        if i == n {
            assert(ma[n] == ma.last());
        }
    }
    assert forall|i: int| 0 <= i < (a + b).len() implies #[trigger] test_step(f, ms[i], w, (a + b)[i], ms[i + 1]) by {
        if i < n {
            assert(test_step(f, ma[i], w, a[i], ma[i + 1]));
        } else {
            assert(test_step(f, mb[i - n], w, b[i - n], mb[i - n + 1]));
        }
    }
    assert(ms.last() == ms[(a + b).len() as int]);
    assert(steps_through(f, ms, a + b, w));
}

/// One test makes a walk of one block.
proof fn lemma_walks_one<F: Fn(&[i32], i32, i32) -> bool>(
    f: F,
    s: Seq<i32>,
    b: (int, int),
    t: Seq<i32>,
    w: int,
)
    requires
        test_step(f, s, w, b, t),
    ensures
        walks(f, s, seq![b], w, t),
{
    let ms = seq![s, t];
    assert(test_step(f, ms[0], w, seq![b][0], ms[1]));
    assert(steps_through(f, ms, seq![b], w));
}

/// The `n` blocks `(x0, y0)`, `(x0 + dx, y0 + dy)`, … of a line.
pub open spec fn line_blocks(x0: int, y0: int, dx: int, dy: int, n: int) -> Seq<(int, int)> {
    Seq::new(if n > 0 { n as nat } else { 0 }, |i: int| (step(x0, dx, i), step(y0, dy, i)))
}

/// The number of blocks from `a` to `b` inclusive, none when `b` is before `a`.
pub open spec fn span(a: int, b: int) -> int {
    if b >= a {
        b - a + 1
    } else {
        0
    }
}

/// The top edge of the square with corners `(l, t)` and `(r, b)`, left to right, inside a map
/// `w` blocks wide.
pub open spec fn top_blocks(l: int, t: int, r: int, w: int) -> Seq<(int, int)> {
    let sx = if l >= 0 { l } else { 0 };
    let ex = if r - 1 <= w - 1 { r - 1 } else { w - 1 };
    line_blocks(sx, t, 1, 0, span(sx, ex))
}

/// The right edge, top to bottom, inside a map `h` blocks high.
pub open spec fn right_blocks(t: int, r: int, b: int, h: int) -> Seq<(int, int)> {
    let sy = if t >= 0 { t } else { 0 };
    let ey = if b - 1 <= h - 1 { b - 1 } else { h - 1 };
    line_blocks(r, sy, 0, 1, span(sy, ey))
}

/// The bottom edge, right to left and one block past the left corner, inside a map `w` wide.
pub open spec fn bottom_blocks(l: int, r: int, b: int, w: int) -> Seq<(int, int)> {
    let sx = if r <= w - 1 { r } else { w - 1 };
    let ex = if l - 1 >= 0 { l - 1 } else { 0 };
    line_blocks(sx, b, -1, 0, span(ex, sx))
}

/// The left edge, bottom to top and one block past the top corner, inside a map `h` high.
pub open spec fn left_blocks(l: int, t: int, b: int, h: int) -> Seq<(int, int)> {
    let sy = if b <= h - 1 { b } else { h - 1 };
    let ey = if t - 1 >= 0 { t - 1 } else { 0 };
    line_blocks(l, sy, 0, -1, span(ey, sy))
}

/// The blocks a pass tests on the square of half-width `k` around `(cx, cy)`: each edge that
/// lies inside the `w`×`h` map, in the order top, right, bottom, left.
pub open spec fn ring_blocks(cx: int, cy: int, k: int, w: int, h: int) -> Seq<(int, int)> {
    let (l, t, r, b) = (cx - k, cy - k, cx + k, cy + k);
    (if t >= 0 { top_blocks(l, t, r, w) } else { Seq::empty() }) + (if r < w {
        right_blocks(t, r, b, h)
    } else {
        Seq::empty()
    }) + (if b < h { bottom_blocks(l, r, b, w) } else { Seq::empty() }) + (if l >= 0 {
        left_blocks(l, t, b, h)
    } else {
        Seq::empty()
    })
}

/// The rings of half-width `1` to `k`, innermost first.
pub open spec fn rings_upto(cx: int, cy: int, k: int, w: int, h: int) -> Seq<(int, int)>
    decreases k,
{
    if k <= 0 {
        Seq::empty()
    } else {
        rings_upto(cx, cy, k - 1, w, h) + ring_blocks(cx, cy, k, w, h)
    }
}

/// The blocks one pass tests, in order: the centre `(w / 2, h / 2)`, then every ring around it
/// that still meets the map.
pub open spec fn pass_blocks(w: int, h: int) -> Seq<(int, int)> {
    seq![(w / 2, h / 2)] + rings_upto(w / 2, h / 2, reach(w / 2, h / 2, w, h), w, h)
}

/// Each map of `ms` is the pass over the one before it, and differs from it.
pub open spec fn pass_chain<F: Fn(&[i32], i32, i32) -> bool>(f: F, ms: Seq<Seq<i32>>, w: int, h: int) -> bool {
    forall|j: int|
        0 <= j < ms.len() - 1 ==> #[trigger] walks(f, ms[j], pass_blocks(w, h), w, ms[j + 1]) && ms[j
            + 1] != ms[j]
}

/// `after` is what passes over `before` give when repeated until one removes nothing: a chain
/// of passes, each changing the map, ending in a map the next pass leaves as it is.
pub open spec fn repeated_passes<F: Fn(&[i32], i32, i32) -> bool>(
    f: F,
    before: Seq<i32>,
    after: Seq<i32>,
    w: int,
    h: int,
) -> bool {
    &&& exists|ms: Seq<Seq<i32>>|
        ms.len() >= 1 && ms[0] == before && ms.last() == after && #[trigger] pass_chain(f, ms, w, h)
    &&& walks(f, after, pass_blocks(w, h), w, after)
}

/// Invalidating one valid entry lowers the count by one; no entry counts more than once.
proof fn lemma_n_valid_update(s: Seq<i32>, i: int)
    requires
        0 <= i < s.len(),
        s[i] != INVALID_DIR,
    ensures
        n_valid(s.update(i, INVALID_DIR)) + 1 == n_valid(s),
    decreases s.len(),
{
    let u = s.update(i, INVALID_DIR);
    if i == s.len() - 1 {
        assert(u.drop_last() =~= s.drop_last());
    } else {
        assert(u.drop_last() =~= s.drop_last().update(i, INVALID_DIR));
        lemma_n_valid_update(s.drop_last(), i);
    }
}

/// The count never exceeds the length.
proof fn lemma_n_valid_bound(s: Seq<i32>)
    ensures
        n_valid(s) <= s.len(),
    decreases s.len(),
{
    if s.len() > 0 {
        lemma_n_valid_bound(s.drop_last());
    }
}

/// Test one block: a valid direction the test rejects becomes INVALID.
fn test_and_remove<F: Fn(&[i32], i32, i32) -> bool>(
    imap: &mut [i32],
    bx: i32,
    by: i32,
    mw: i32,
    mh: i32,
    rejects: &F,
) -> (removed: bool)
    requires
        grid_ok(old(imap)@.len() as int, mw as int, mh as int),
        in_grid(bx as int, by as int, mw as int, mh as int),
        total(*rejects),
    ensures
        removed ==> final(imap)@ == old(imap)@.update(by * mw + bx, INVALID_DIR) && at(
            old(imap)@,
            mw as int,
            bx as int,
            by as int,
        ) != INVALID_DIR,
        !removed ==> final(imap)@ == old(imap)@ && settled_at(
            *rejects,
            &*old(imap),
            mw as int,
            bx as int,
            by as int,
        ),
        justified(*rejects, old(imap)@, final(imap)@, mw as int, mh as int),
        test_step(*rejects, old(imap)@, mw as int, (bx as int, by as int), final(imap)@),
{
    proof {
        lemma_offset(bx as int, by as int, mw as int, mh as int);
        lemma_justified_refl(*rejects, imap@, mw as int, mh as int);
    }
    let idx = (by * mw + bx) as usize;
    if imap[idx] == INVALID_DIR {
        return false;
    }
    let r = rejects(imap, bx, by);
    proof {
        assert(answers(*rejects, &*old(imap), bx as int, by as int, r));
    }
    if r {
        proof {
            lemma_justified_one(*rejects, &*old(imap), bx as int, by as int, mw as int, mh as int);
        }
        imap[idx] = INVALID_DIR;
        true
    } else {
        false
    }
}

/// The `i`-th coordinate of a walk from `a` in direction `d` (`-1`, `0` or `1`).
pub open spec fn step(a: int, d: int, i: int) -> int {
    if d > 0 {
        a + i
    } else if d < 0 {
        a - i
    } else {
        a
    }
}

/// What a walk over `n` blocks leaves behind: only invalidations, `removed` of them; and when
/// there were none, the map as it was, with every block walked settled on it.
pub open spec fn walked<F: Fn(&[i32], i32, i32) -> bool>(
    f: F,
    before: &[i32],
    after: &[i32],
    removed: nat,
    w: int,
    x0: int,
    y0: int,
    dx: int,
    dy: int,
    n: int,
) -> bool {
    &&& prunes_only(before@, after@)
    &&& n_valid(after@) + removed == n_valid(before@)
    &&& removed == 0 ==> after@ == before@ && forall|i: int|
        0 <= i < n ==> #[trigger] settled_at(f, before, w, step(x0, dx, i), step(y0, dy, i))
}

/// Test `n` blocks in a line, from `(x0, y0)` in steps of `(dx, dy)`.
fn walk_line<F: Fn(&[i32], i32, i32) -> bool>(
    imap: &mut [i32],
    x0: i32,
    y0: i32,
    dx: i32,
    dy: i32,
    n: i32,
    mw: i32,
    mh: i32,
    rejects: &F,
) -> (removed: usize)
    requires
        grid_ok(old(imap)@.len() as int, mw as int, mh as int),
        -1 <= dx <= 1,
        -1 <= dy <= 1,
        0 <= n,
        forall|i: int|
            0 <= i < n ==> in_grid(step(x0 as int, dx as int, i), step(y0 as int, dy as int, i), mw as int, mh as int),
        total(*rejects),
    ensures
        walked(*rejects, &*old(imap), &*final(imap), removed as nat, mw as int, x0 as int, y0 as int, dx as int, dy as int, n as int),
        justified(*rejects, old(imap)@, final(imap)@, mw as int, mh as int),
        walks(*rejects, old(imap)@, line_blocks(x0 as int, y0 as int, dx as int, dy as int, n as int), mw as int, final(imap)@),
{
    let ghost start = imap@;
    let cells = imap.len();
    proof {
        lemma_justified_refl(*rejects, start, mw as int, mh as int);
        lemma_walks_none(*rejects, start, mw as int);
        assert(line_blocks(x0 as int, y0 as int, dx as int, dy as int, 0) =~= Seq::<(int, int)>::empty());
    }
    let mut removed: usize = 0;
    let mut i: i32 = 0;
    let mut x: i32 = x0;
    let mut y: i32 = y0;
    while i < n
        invariant
            grid_ok(start.len() as int, mw as int, mh as int),
            imap@.len() == start.len(),
            -1 <= dx <= 1,
            -1 <= dy <= 1,
            0 <= i <= n,
            i < n ==> x == step(x0 as int, dx as int, i as int),
            i < n ==> y == step(y0 as int, dy as int, i as int),
            start.len() == cells,
            forall|j: int|
                0 <= j < n ==> in_grid(step(x0 as int, dx as int, j), step(y0 as int, dy as int, j), mw as int, mh as int),
            total(*rejects),
            start == old(imap)@,
            prunes_only(start, imap@),
            justified(*rejects, start, imap@, mw as int, mh as int),
            n_valid(imap@) + removed == n_valid(start),
            removed == 0 ==> imap@ == start && forall|j: int|
                0 <= j < i ==> #[trigger] settled_at(*rejects, &*old(imap), mw as int, step(x0 as int, dx as int, j), step(y0 as int, dy as int, j)),
            walks(*rejects, start, line_blocks(x0 as int, y0 as int, dx as int, dy as int, i as int), mw as int, imap@),
        decreases n - i,
    {
        assert(in_grid(step(x0 as int, dx as int, i as int), step(y0 as int, dy as int, i as int), mw as int, mh as int));
        let ghost before = imap@;
        let ghost before_ref: &[i32] = &*imap;
        let r = test_and_remove(imap, x, y, mw, mh, rejects);
        proof {
            lemma_offset(x as int, y as int, mw as int, mh as int);
            lemma_n_valid_bound(start);
            assert(prunes_only(before, imap@));
            lemma_justified_compose(*rejects, start, before, imap@, mw as int, mh as int);
            if r {
                lemma_n_valid_update(before, y * mw + x);
            } else if removed == 0 {
                assert(before_ref =~= &*old(imap));
            }
            lemma_walks_one(*rejects, before, (x as int, y as int), imap@, mw as int);
            lemma_walks_append(
                *rejects,
                start,
                line_blocks(x0 as int, y0 as int, dx as int, dy as int, i as int),
                before,
                seq![(x as int, y as int)],
                imap@,
                mw as int,
            );
            assert(line_blocks(x0 as int, y0 as int, dx as int, dy as int, i + 1) =~= line_blocks(
                x0 as int,
                y0 as int,
                dx as int,
                dy as int,
                i as int,
            ) + seq![(x as int, y as int)]);
        }
        if r {
            removed = removed + 1;
        }
        i = i + 1;
        if i < n {
            x = x + dx;
            y = y + dy;
        }
    }
    proof {
        if removed == 0 {
            assert(&*final(imap) =~= &*old(imap));
        }
    }
    removed
}

/// What a sweep over the blocks `[xlo, xhi] × [ylo, yhi]` leaves behind: only invalidations,
/// `removed` of them; and when there were none, the map as it was, with every block swept
/// settled on it.
pub open spec fn swept<F: Fn(&[i32], i32, i32) -> bool>(
    f: F,
    before: &[i32],
    after: &[i32],
    removed: nat,
    w: int,
    xlo: int,
    xhi: int,
    ylo: int,
    yhi: int,
) -> bool {
    &&& prunes_only(before@, after@)
    &&& n_valid(after@) + removed == n_valid(before@)
    &&& removed == 0 ==> after@ == before@ && forall|x: int, y: int|
        xlo <= x <= xhi && ylo <= y <= yhi ==> #[trigger] settled_at(f, before, w, x, y)
}

/// One concentric square walked by a pruning pass, by its four edge coordinates.
struct ConcentricBox {
    l: i32,
    t: i32,
    r: i32,
    b: i32,
}

/// Walk the box's top edge left to right.
fn test_top_edge<F: Fn(&[i32], i32, i32) -> bool>(
    bx: &ConcentricBox,
    imap: &mut [i32],
    mw: i32,
    mh: i32,
    rejects: &F,
) -> (removed: usize)
    requires
        grid_ok(old(imap)@.len() as int, mw as int, mh as int),
        0 <= bx.t < mh,
        bx.l < mw,
        bx.r >= 0,
        total(*rejects),
    ensures
        swept(*rejects, &*old(imap), &*final(imap), removed as nat, mw as int,
            if bx.l >= 0 { bx.l as int } else { 0 },
            if bx.r - 1 <= mw - 1 { bx.r - 1 } else { mw - 1 },
            bx.t as int, bx.t as int),
        justified(*rejects, old(imap)@, final(imap)@, mw as int, mh as int),
        walks(*rejects, old(imap)@, top_blocks(bx.l as int, bx.t as int, bx.r as int, mw as int), mw as int, final(imap)@),
{
    let sx = if bx.l >= 0 { bx.l } else { 0 };
    let ex = if bx.r - 1 <= mw - 1 { bx.r - 1 } else { mw - 1 };
    let n = if ex >= sx { ex - sx + 1 } else { 0 };
    let removed = walk_line(imap, sx, bx.t, 1, 0, n, mw, mh, rejects);
    proof {
        if removed == 0 {
            assert forall|x: int, y: int| sx <= x <= ex && bx.t <= y <= bx.t implies #[trigger] settled_at(*rejects, &*old(imap), mw as int, x, y) by {
                assert(settled_at(*rejects, &*old(imap), mw as int, step(sx as int, 1, x - sx), step(bx.t as int, 0, x - sx)));
            }
        }
    }
    removed
}

/// Walk the box's right edge top to bottom.
fn test_right_edge<F: Fn(&[i32], i32, i32) -> bool>(
    bx: &ConcentricBox,
    imap: &mut [i32],
    mw: i32,
    mh: i32,
    rejects: &F,
) -> (removed: usize)
    requires
        grid_ok(old(imap)@.len() as int, mw as int, mh as int),
        0 <= bx.r < mw,
        bx.t < mh,
        bx.b >= 0,
        total(*rejects),
    ensures
        swept(*rejects, &*old(imap), &*final(imap), removed as nat, mw as int,
            bx.r as int, bx.r as int,
            if bx.t >= 0 { bx.t as int } else { 0 },
            if bx.b - 1 <= mh - 1 { bx.b - 1 } else { mh - 1 }),
        justified(*rejects, old(imap)@, final(imap)@, mw as int, mh as int),
        walks(*rejects, old(imap)@, right_blocks(bx.t as int, bx.r as int, bx.b as int, mh as int), mw as int, final(imap)@),
{
    let sy = if bx.t >= 0 { bx.t } else { 0 };
    let ey = if bx.b - 1 <= mh - 1 { bx.b - 1 } else { mh - 1 };
    let n = if ey >= sy { ey - sy + 1 } else { 0 };
    let removed = walk_line(imap, bx.r, sy, 0, 1, n, mw, mh, rejects);
    proof {
        if removed == 0 {
            assert forall|x: int, y: int| bx.r <= x <= bx.r && sy <= y <= ey implies #[trigger] settled_at(*rejects, &*old(imap), mw as int, x, y) by {
                assert(settled_at(*rejects, &*old(imap), mw as int, step(bx.r as int, 0, y - sy), step(sy as int, 1, y - sy)));
            }
        }
    }
    removed
}

/// Walk the box's bottom edge right to left, one block past its left corner.
fn test_bottom_edge<F: Fn(&[i32], i32, i32) -> bool>(
    bx: &ConcentricBox,
    imap: &mut [i32],
    mw: i32,
    mh: i32,
    rejects: &F,
) -> (removed: usize)
    requires
        grid_ok(old(imap)@.len() as int, mw as int, mh as int),
        0 <= bx.b < mh,
        bx.r >= 0,
        i32::MIN < bx.l <= mw,
        total(*rejects),
    ensures
        swept(*rejects, &*old(imap), &*final(imap), removed as nat, mw as int,
            if bx.l - 1 >= 0 { bx.l - 1 } else { 0 },
            if bx.r <= mw - 1 { bx.r as int } else { mw - 1 },
            bx.b as int, bx.b as int),
        justified(*rejects, old(imap)@, final(imap)@, mw as int, mh as int),
        walks(*rejects, old(imap)@, bottom_blocks(bx.l as int, bx.r as int, bx.b as int, mw as int), mw as int, final(imap)@),
{
    let sx = if bx.r <= mw - 1 { bx.r } else { mw - 1 };
    let ex = if bx.l - 1 >= 0 { bx.l - 1 } else { 0 };
    let n = if sx >= ex { sx - ex + 1 } else { 0 };
    let removed = walk_line(imap, sx, bx.b, -1, 0, n, mw, mh, rejects);
    proof {
        if removed == 0 {
            assert forall|x: int, y: int| ex <= x <= sx && bx.b <= y <= bx.b implies #[trigger] settled_at(*rejects, &*old(imap), mw as int, x, y) by {
                assert(settled_at(*rejects, &*old(imap), mw as int, step(sx as int, -1, sx - x), step(bx.b as int, 0, sx - x)));
            }
        }
    }
    removed
}

/// Walk the box's left edge bottom to top, one block past its top corner.
fn test_left_edge<F: Fn(&[i32], i32, i32) -> bool>(
    bx: &ConcentricBox,
    imap: &mut [i32],
    mw: i32,
    mh: i32,
    rejects: &F,
) -> (removed: usize)
    requires
        grid_ok(old(imap)@.len() as int, mw as int, mh as int),
        0 <= bx.l < mw,
        bx.b >= 0,
        i32::MIN < bx.t <= mh,
        total(*rejects),
    ensures
        swept(*rejects, &*old(imap), &*final(imap), removed as nat, mw as int,
            bx.l as int, bx.l as int,
            if bx.t - 1 >= 0 { bx.t - 1 } else { 0 },
            if bx.b <= mh - 1 { bx.b as int } else { mh - 1 }),
        justified(*rejects, old(imap)@, final(imap)@, mw as int, mh as int),
        walks(*rejects, old(imap)@, left_blocks(bx.l as int, bx.t as int, bx.b as int, mh as int), mw as int, final(imap)@),
{
    let sy = if bx.b <= mh - 1 { bx.b } else { mh - 1 };
    let ey = if bx.t - 1 >= 0 { bx.t - 1 } else { 0 };
    let n = if sy >= ey { sy - ey + 1 } else { 0 };
    let removed = walk_line(imap, bx.l, sy, 0, -1, n, mw, mh, rejects);
    proof {
        if removed == 0 {
            assert forall|x: int, y: int| bx.l <= x <= bx.l && ey <= y <= sy implies #[trigger] settled_at(*rejects, &*old(imap), mw as int, x, y) by {
                assert(settled_at(*rejects, &*old(imap), mw as int, step(bx.l as int, 0, sy - y), step(sy as int, -1, sy - y)));
            }
        }
    }
    removed
}

/// `(x, y)` lies on the border of the square of half-width `k` centred on `(cx, cy)`.
pub open spec fn on_ring(x: int, y: int, cx: int, cy: int, k: int) -> bool {
    ||| (x == cx - k || x == cx + k) && cy - k <= y <= cy + k
    ||| (y == cy - k || y == cy + k) && cx - k <= x <= cx + k
}

/// Sweeping composes: a second sweep after a first accounts for both.
proof fn lemma_sweeps_compose(s0: Seq<i32>, s1: Seq<i32>, s2: Seq<i32>, n1: nat, n2: nat)
    requires
        prunes_only(s0, s1),
        prunes_only(s1, s2),
        n_valid(s1) + n1 == n_valid(s0),
        n_valid(s2) + n2 == n_valid(s1),
    ensures
        prunes_only(s0, s2),
        n_valid(s2) + n1 + n2 == n_valid(s0),
        n1 + n2 <= s0.len(),
{
    lemma_n_valid_bound(s0);
    assert forall|k: int| 0 <= k < s0.len() implies #[trigger] s2[k] == s0[k] || s2[k] == INVALID_DIR by {
        assert(s1[k] == s0[k] || s1[k] == INVALID_DIR);
        assert(s2[k] == s1[k] || s2[k] == INVALID_DIR);
    }
}

/// Walk the four edges of one concentric square, each where it lies inside the map.
fn prune_ring<F: Fn(&[i32], i32, i32) -> bool>(
    bx: &ConcentricBox,
    imap: &mut [i32],
    mw: i32,
    mh: i32,
    rejects: &F,
    Ghost(cx): Ghost<int>,
    Ghost(cy): Ghost<int>,
    Ghost(k): Ghost<int>,
) -> (removed: usize)
    requires
        grid_ok(old(imap)@.len() as int, mw as int, mh as int),
        0 <= cx < mw,
        0 <= cy < mh,
        1 <= k,
        bx.l == cx - k,
        bx.r == cx + k,
        bx.t == cy - k,
        bx.b == cy + k,
        i32::MIN < bx.l,
        i32::MIN < bx.t,
        total(*rejects),
    ensures
        prunes_only(old(imap)@, final(imap)@),
        n_valid(final(imap)@) + removed == n_valid(old(imap)@),
        justified(*rejects, old(imap)@, final(imap)@, mw as int, mh as int),
        walks(*rejects, old(imap)@, ring_blocks(cx, cy, k, mw as int, mh as int), mw as int, final(imap)@),
        removed == 0 ==> final(imap)@ == old(imap)@ && forall|x: int, y: int|
            in_grid(x, y, mw as int, mh as int) && on_ring(x, y, cx, cy, k) ==> #[trigger] settled_at(
                *rejects,
                &*old(imap),
                mw as int,
                x,
                y,
            ),
{
    let ghost w = mw as int;
    let ghost h = mh as int;
    let ghost s0 = imap@;
    let ghost r0: &[i32] = &*imap;
    let cells = imap.len();
    assert(s0.len() == cells);
    proof {
        lemma_justified_refl(*rejects, s0, w, h);
        lemma_walks_none(*rejects, s0, w);
    }
    let ghost mut acc: Seq<(int, int)> = Seq::empty();
    let mut removed: usize = 0;
    let ghost e = imap@;
    if bx.t >= 0 {
        let ghost s = imap@;
        let n = test_top_edge(bx, imap, mw, mh, rejects);
        proof {
            lemma_sweeps_compose(s0, s, imap@, removed as nat, n as nat);
            lemma_justified_compose(*rejects, s0, s, imap@, w, h);
        }
        removed = removed + n;
    } else {
        proof {
            lemma_walks_none(*rejects, e, w);
        }
    }
    proof {
        let part = if bx.t >= 0 { top_blocks(bx.l as int, bx.t as int, bx.r as int, w) } else { Seq::empty() };
        lemma_walks_append(*rejects, s0, acc, e, part, imap@, w);
        acc = acc + part;
    }
    let ghost s1 = imap@;
    let ghost r1: &[i32] = &*imap;
    let ghost e = imap@;
    if bx.r < mw {
        let ghost s = imap@;
        let n = test_right_edge(bx, imap, mw, mh, rejects);
        proof {
            lemma_sweeps_compose(s0, s, imap@, removed as nat, n as nat);
            lemma_justified_compose(*rejects, s0, s, imap@, w, h);
        }
        removed = removed + n;
    } else {
        proof {
            lemma_walks_none(*rejects, e, w);
        }
    }
    proof {
        let part = if bx.r < mw { right_blocks(bx.t as int, bx.r as int, bx.b as int, h) } else { Seq::empty() };
        lemma_walks_append(*rejects, s0, acc, e, part, imap@, w);
        acc = acc + part;
    }
    let ghost s2 = imap@;
    let ghost r2: &[i32] = &*imap;
    let ghost e = imap@;
    if bx.b < mh {
        let ghost s = imap@;
        let n = test_bottom_edge(bx, imap, mw, mh, rejects);
        proof {
            lemma_sweeps_compose(s0, s, imap@, removed as nat, n as nat);
            lemma_justified_compose(*rejects, s0, s, imap@, w, h);
        }
        removed = removed + n;
    } else {
        proof {
            lemma_walks_none(*rejects, e, w);
        }
    }
    proof {
        let part = if bx.b < mh { bottom_blocks(bx.l as int, bx.r as int, bx.b as int, w) } else { Seq::empty() };
        lemma_walks_append(*rejects, s0, acc, e, part, imap@, w);
        acc = acc + part;
    }
    let ghost s3 = imap@;
    let ghost r3: &[i32] = &*imap;
    let ghost e = imap@;
    if bx.l >= 0 {
        let ghost s = imap@;
        let n = test_left_edge(bx, imap, mw, mh, rejects);
        proof {
            lemma_sweeps_compose(s0, s, imap@, removed as nat, n as nat);
            lemma_justified_compose(*rejects, s0, s, imap@, w, h);
        }
        removed = removed + n;
    } else {
        proof {
            lemma_walks_none(*rejects, e, w);
        }
    }
    proof {
        let part = if bx.l >= 0 { left_blocks(bx.l as int, bx.t as int, bx.b as int, h) } else { Seq::empty() };
        lemma_walks_append(*rejects, s0, acc, e, part, imap@, w);
        acc = acc + part;
    }
    proof {
        assert(acc =~= ring_blocks(cx, cy, k, w, h));
        if removed == 0 {
            assert(r1 =~= r0);
            assert(r2 =~= r0);
            assert(r3 =~= r0);
            assert(r0 =~= &*old(imap));
            assert forall|x: int, y: int|
                in_grid(x, y, w, h) && on_ring(x, y, cx, cy, k) implies #[trigger] settled_at(
                *rejects,
                &*old(imap),
                w,
                x,
                y,
            ) by {
                if y == cy - k && x < cx + k {
                    assert(settled_at(*rejects, r0, w, x, y));
                } else if x == cx + k && y < cy + k {
                    assert(settled_at(*rejects, r1, w, x, y));
                } else if y == cy + k {
                    assert(settled_at(*rejects, r2, w, x, y));
                } else {
                    assert(settled_at(*rejects, r3, w, x, y));
                }
            }
        }
    }
    removed
}

/// A grid whose cell count fits `i32` has a side sum that fits too.
proof fn lemma_side_sum(w: int, h: int)
    requires
        grid_ok(w * h, w, h),
    ensures
        w + h <= i32::MAX + 1,
{
    assert((w - 1) * (h - 1) >= 0) by (nonlinear_arith)
        requires
            w >= 1,
            h >= 1,
    ;
    assert((w - 1) * (h - 1) == w * h - w - h + 1) by (nonlinear_arith);
}

/// The half-width of the largest concentric square around `(cx, cy)` that still meets the map.
pub open spec fn reach(cx: int, cy: int, w: int, h: int) -> int {
    let a = if cx >= w - 1 - cx { cx } else { w - 1 - cx };
    let b = if cy >= h - 1 - cy { cy } else { h - 1 - cy };
    if a >= b { a } else { b }
}

/// One pruning pass: the centre block, then the edges of every concentric square around it,
/// out to the map's borders.
fn prune_pass<F: Fn(&[i32], i32, i32) -> bool>(
    imap: &mut [i32],
    mw: i32,
    mh: i32,
    rejects: &F,
) -> (removed: usize)
    requires
        grid_ok(old(imap)@.len() as int, mw as int, mh as int),
        total(*rejects),
    ensures
        swept(*rejects, &*old(imap), &*final(imap), removed as nat, mw as int, 0, mw - 1, 0, mh - 1),
        justified(*rejects, old(imap)@, final(imap)@, mw as int, mh as int),
        walks(*rejects, old(imap)@, pass_blocks(mw as int, mh as int), mw as int, final(imap)@),
{
    let ghost w = mw as int;
    let ghost h = mh as int;
    let ghost start = imap@;
    let ghost r0: &[i32] = &*imap;
    let cells = imap.len();
    assert(start.len() == cells);
    assert(mw >> 1 == mw / 2) by (bit_vector)
        requires
            mw >= 0,
    ;
    assert(mh >> 1 == mh / 2) by (bit_vector)
        requires
            mh >= 0,
    ;
    let cx = mw >> 1;
    let cy = mh >> 1;
    proof {
        lemma_side_sum(w, h);
        lemma_n_valid_bound(start);
    }
    let centre = test_and_remove(imap, cx, cy, mw, mh, rejects);
    proof {
        lemma_walks_one(*rejects, start, (cx as int, cy as int), imap@, w);
        assert(rings_upto(cx as int, cy as int, 0, w, h) =~= Seq::<(int, int)>::empty());
        assert(seq![(cx as int, cy as int)] + rings_upto(cx as int, cy as int, 0, w, h) =~= seq![(cx as int, cy as int)]);
    }
    let mut removed: usize = 0;
    if centre {
        proof {
            lemma_offset(cx as int, cy as int, w, h);
            lemma_n_valid_update(start, cy * mw + cx);
        }
        removed = 1;
    } else {
        assert(r0 =~= &*old(imap));
    }
    let ghost kmax = reach(cx as int, cy as int, w, h);
    let mut bx = ConcentricBox { l: cx - 1, t: cy - 1, r: cx + 1, b: cy + 1 };
    let ghost mut k: int = 1;
    while bx.l >= 0 || bx.r < mw || bx.t >= 0 || bx.b < mh
        invariant
            grid_ok(start.len() as int, w, h),
            w == mw as int && h == mh as int,
            w + h <= i32::MAX + 1,
            start.len() == cells,
            imap@.len() == cells,
            start == old(imap)@,
            n_valid(start) <= start.len(),
            cx as int == w / 2,
            cy as int == h / 2,
            kmax == reach(cx as int, cy as int, w, h),
            1 <= k <= kmax + 1,
            bx.l == cx - k,
            bx.r == cx + k,
            bx.t == cy - k,
            bx.b == cy + k,
            total(*rejects),
            prunes_only(start, imap@),
            justified(*rejects, start, imap@, w, h),
            n_valid(imap@) + removed == n_valid(start),
            removed == 0 ==> imap@ == start && forall|x: int, y: int|
                in_grid(x, y, w, h) && cx - k < x < cx + k && cy - k < y < cy + k
                    ==> #[trigger] settled_at(*rejects, &*old(imap), w, x, y),
            walks(*rejects, start, seq![(cx as int, cy as int)] + rings_upto(cx as int, cy as int, k - 1, w, h), w, imap@),
        decreases kmax + 1 - k,
    {
        let ghost s = imap@;
        let ghost rs: &[i32] = &*imap;
        let n = prune_ring(&bx, imap, mw, mh, rejects, Ghost(cx as int), Ghost(cy as int), Ghost(k));
        proof {
            let before_rings = seq![(cx as int, cy as int)] + rings_upto(cx as int, cy as int, k - 1, w, h);
            lemma_walks_append(*rejects, start, before_rings, s, ring_blocks(cx as int, cy as int, k, w, h), imap@, w);
            assert(rings_upto(cx as int, cy as int, k, w, h) == rings_upto(cx as int, cy as int, k - 1, w, h) + ring_blocks(cx as int, cy as int, k, w, h));
            assert(before_rings + ring_blocks(cx as int, cy as int, k, w, h) =~= seq![(cx as int, cy as int)] + rings_upto(cx as int, cy as int, k, w, h));
            lemma_sweeps_compose(start, s, imap@, removed as nat, n as nat);
            lemma_justified_compose(*rejects, start, s, imap@, w, h);
            if removed == 0 && n == 0 {
                assert(rs =~= &*old(imap));
                assert forall|x: int, y: int|
                    in_grid(x, y, w, h) && cx - (k + 1) < x < cx + (k + 1) && cy - (k + 1) < y < cy + (k + 1)
                    implies #[trigger] settled_at(*rejects, &*old(imap), w, x, y) by {
                    if cx - k < x < cx + k && cy - k < y < cy + k {
                    } else {
                        assert(on_ring(x, y, cx as int, cy as int, k));
                        assert(settled_at(*rejects, rs, w, x, y));
                    }
                }
            }
        }
        removed = removed + n;
        bx.l = bx.l - 1;
        bx.t = bx.t - 1;
        bx.r = bx.r + 1;
        bx.b = bx.b + 1;
        proof {
            k = k + 1;
        }
    }
    proof {
        assert(k == kmax + 1);
    }
    removed
}

/// Prune inconsistent directions from a block direction map.
///
/// `rejects(map, x, y)` is the block test: whether the valid direction at `(x, y)` should go,
/// judged on the map as it stands. Passes over the map in their fixed order (the centre, then
/// each ring's top, right, bottom and left edges: [`pass_blocks`]) repeat until one removes
/// nothing, and the result is the map that chain of passes gives ([`repeated_passes`]). So it
/// differs from the input only in directions set to INVALID, each removal justified, and every
/// direction left standing is one the test keeps on the result.
pub fn remove_incon_dirs<F: Fn(&[i32], i32, i32) -> bool>(
    imap: &mut [i32],
    mw: i32,
    mh: i32,
    rejects: &F,
)
    requires
        grid_ok(old(imap)@.len() as int, mw as int, mh as int),
        total(*rejects),
    ensures
        repeated_passes(*rejects, old(imap)@, final(imap)@, mw as int, mh as int),
        prunes_only(old(imap)@, final(imap)@),
        justified(*rejects, old(imap)@, final(imap)@, mw as int, mh as int),
        forall|x: int, y: int|
            in_grid(x, y, mw as int, mh as int) ==> #[trigger] settled_at(
                *rejects,
                &*final(imap),
                mw as int,
                x,
                y,
            ),
{
    proof {
        lemma_justified_refl(*rejects, imap@, mw as int, mh as int);
    }
    let ghost mut ms: Seq<Seq<i32>> = seq![imap@];
    loop
        invariant
            grid_ok(imap@.len() as int, mw as int, mh as int),
            total(*rejects),
            prunes_only(old(imap)@, imap@),
            justified(*rejects, old(imap)@, imap@, mw as int, mh as int),
            ms.len() >= 1,
            ms[0] == old(imap)@,
            ms.last() == imap@,
            pass_chain(*rejects, ms, mw as int, mh as int),
        ensures
            repeated_passes(*rejects, old(imap)@, imap@, mw as int, mh as int),
            prunes_only(old(imap)@, imap@),
            justified(*rejects, old(imap)@, imap@, mw as int, mh as int),
            forall|x: int, y: int|
                in_grid(x, y, mw as int, mh as int) ==> #[trigger] settled_at(
                    *rejects,
                    &*imap,
                    mw as int,
                    x,
                    y,
                ),
        decreases n_valid(imap@),
    {
        let ghost s = imap@;
        let ghost rs: &[i32] = &*imap;
        let removed = prune_pass(imap, mw, mh, rejects);
        proof {
            assert forall|k: int| 0 <= k < old(imap)@.len() implies #[trigger] imap@[k] == old(imap)@[k]
                || imap@[k] == INVALID_DIR by {
                assert(s[k] == old(imap)@[k] || s[k] == INVALID_DIR);
                assert(imap@[k] == s[k] || imap@[k] == INVALID_DIR);
            }
            lemma_justified_compose(*rejects, old(imap)@, s, imap@, mw as int, mh as int);
        }
        if removed == 0 {
            proof {
                assert(rs =~= &*imap);
                assert(pass_chain(*rejects, ms, mw as int, mh as int));
            }
            break;
        }
        proof {
            assert(imap@ != s) by {
                if imap@ == s {
                    assert(n_valid(imap@) == n_valid(s));
                }
            }
            let ms2 = ms.push(imap@);
            assert forall|j: int| 0 <= j < ms2.len() - 1 implies #[trigger] walks(
                *rejects,
                ms2[j],
                pass_blocks(mw as int, mh as int),
                mw as int,
                ms2[j + 1],
            ) && ms2[j + 1] != ms2[j] by {
                if j < ms.len() - 1 {
                    assert(ms2[j] == ms[j] && ms2[j + 1] == ms[j + 1]);
                    assert(walks(*rejects, ms[j], pass_blocks(mw as int, mh as int), mw as int, ms[j + 1]));
                } else {
                    assert(ms2[j] == ms.last());
                }
            }
            ms = ms2;
        }
    }
}

} // verus!
