//! The nearest neighbours of a minutia, for ridge counting.
//!
//! A minutia's neighbours are drawn from those after it in the list: up to `max_nbrs` of them,
//! nearest first, a tie going to the one earlier in the list. The search walks forward and stops
//! once its list of neighbours is full and the horizontal distance alone reaches the farthest of
//! them. In a list sorted left to right no later minutia can then be nearer, so the search finds
//! the nearest of all.
//!
//! Distances are compared squared; for pixel coordinates these are whole numbers.

use vstd::prelude::*;

use crate::minutia::DetMinutia;

verus! {

/// The squared distance between minutiae `a` and `b` of `m`.
pub open spec fn sqr_dist(m: Seq<DetMinutia>, a: int, b: int) -> int {
    let dx = m[a].x - m[b].x;
    let dy = m[a].y - m[b].y;
    dx * dx + dy * dy
}

/// From minutia `first`, minutia `a` comes before minutia `b`: it is nearer, or as near and
/// earlier in the list.
pub open spec fn nearer(m: Seq<DetMinutia>, first: int, a: int, b: int) -> bool {
    sqr_dist(m, first, a) < sqr_dist(m, first, b) || (sqr_dist(m, first, a) == sqr_dist(m, first, b)
        && a < b)
}

/// The list runs left to right.
pub open spec fn x_sorted(m: Seq<DetMinutia>) -> bool {
    forall|i: int, j: int| 0 <= i <= j < m.len() ==> #[trigger] m[i].x <= #[trigger] m[j].x
}

/// `r` lists, in order, the `k` minutiae after `first` in `[first + 1, upto)` that come first
/// from `first` (see [`nearer`]), or all of them when there are fewer.
pub open spec fn nearest_among(m: Seq<DetMinutia>, first: int, upto: int, k: int, r: Seq<int>) -> bool {
    &&& r.len() == if k < upto - first - 1 { k } else { upto - first - 1 }
    &&& forall|i: int| 0 <= i < r.len() ==> first < #[trigger] r[i] < upto
    &&& forall|i: int, j: int| 0 <= i < j < r.len() ==> nearer(m, first, #[trigger] r[i], #[trigger] r[j])
    &&& forall|c: int|
        first < c < upto && !r.contains(c) ==> forall|i: int| 0 <= i < r.len() ==> nearer(m, first, #[trigger] r[i], c)
}

/// The squared distance between two minutiae.
fn squared_distance(a: &DetMinutia, b: &DetMinutia) -> (d: i128)
    ensures
        d == (a.x - b.x) * (a.x - b.x) + (a.y - b.y) * (a.y - b.y),
{
    let dx = (a.x as i128) - (b.x as i128);
    let dy = (a.y as i128) - (b.y as i128);
    assert(dx * dx <= 0x1_0000_0000_0000_0000) by (nonlinear_arith)
        requires
            -0x1_0000_0000 <= dx <= 0x1_0000_0000,
    ;
    assert(dy * dy <= 0x1_0000_0000_0000_0000) by (nonlinear_arith)
        requires
            -0x1_0000_0000 <= dy <= 0x1_0000_0000,
    ;
    assert(0 <= dx * dx && 0 <= dy * dy) by (nonlinear_arith);
    dx * dx + dy * dy
}

/// The first of the first `n` entries of `list` greater than `val`, or `n` when there is none.
fn find_incr_position(val: i128, list: &[i128], n: usize) -> (pos: usize)
    requires
        n <= list@.len(),
    ensures
        pos <= n,
        forall|i: int| 0 <= i < pos ==> list@[i] <= val,
        pos < n ==> val < list@[pos as int],
{
    let mut i: usize = 0;
    while i < n
        invariant
            i <= n <= list@.len(),
            forall|j: int| 0 <= j < i ==> list@[j] <= val,
        decreases n - i,
    {
        if val < list[i] {
            return i;
        }
        i += 1;
    }
    n
}

/// Put `nbr_index` (at squared distance `nbr_dist2`) at position `pos` of the first `nnbrs`
/// entries, shifting the later ones down; when the lists are full the last one falls off.
fn insert_neighbor(
    pos: usize,
    nbr_index: i32,
    nbr_dist2: i128,
    nbr_list: &mut Vec<i32>,
    nbr_sqr_dists: &mut Vec<i128>,
    nnbrs: &mut usize,
    max_nbrs: usize,
)
    requires
        old(nbr_list)@.len() == max_nbrs,
        old(nbr_sqr_dists)@.len() == max_nbrs,
        pos <= *old(nnbrs) <= max_nbrs,
        pos < max_nbrs,
    ensures
        *final(nnbrs) == if *old(nnbrs) < max_nbrs { *old(nnbrs) + 1 } else { max_nbrs as int },
        final(nbr_list)@.len() == max_nbrs,
        final(nbr_sqr_dists)@.len() == max_nbrs,
        final(nbr_list)@.take(*final(nnbrs) as int) == old(nbr_list)@.take(*old(nnbrs) as int).insert(
            pos as int,
            nbr_index,
        ).take(*final(nnbrs) as int),
        final(nbr_sqr_dists)@.take(*final(nnbrs) as int) == old(nbr_sqr_dists)@.take(
            *old(nnbrs) as int,
        ).insert(pos as int, nbr_dist2).take(*final(nnbrs) as int),
{
    let ghost l0 = nbr_list@;
    let ghost d0 = nbr_sqr_dists@;
    let ghost n0 = *nnbrs as int;
    // The slot after the last entry kept: one past the current end, or the last slot when full.
    let mut i: usize = if *nnbrs < max_nbrs {
        *nnbrs += 1;
        *nnbrs - 1
    } else {
        max_nbrs - 1
    };
    let ghost n1 = *nnbrs as int;
    let ghost top = i as int;
    while i > pos
        invariant
            nbr_list@.len() == max_nbrs,
            nbr_sqr_dists@.len() == max_nbrs,
            pos <= i <= top,
            top == n1 - 1,
            n1 <= max_nbrs,
            n0 <= n1,
            n1 <= n0 + 1,
            top < max_nbrs,
            forall|j: int| 0 <= j < i ==> nbr_list@[j] == l0[j] && nbr_sqr_dists@[j] == d0[j],
            forall|j: int| i < j <= top ==> nbr_list@[j] == l0[j - 1] && nbr_sqr_dists@[j] == d0[j - 1],
        decreases i,
    {
        let v = nbr_list[i - 1];
        let d = nbr_sqr_dists[i - 1];
        nbr_list.set(i, v);
        nbr_sqr_dists.set(i, d);
        i -= 1;
    }
    nbr_list.set(pos, nbr_index);
    nbr_sqr_dists.set(pos, nbr_dist2);
    proof {
        assert(nbr_list@.take(n1) =~= l0.take(n0).insert(pos as int, nbr_index).take(n1));
        assert(nbr_sqr_dists@.take(n1) =~= d0.take(n0).insert(pos as int, nbr_dist2).take(n1));
    }
}

/// A list of indices as integers.
pub open spec fn as_ints(s: Seq<i32>) -> Seq<int> {
    s.map_values(|v: i32| v as int)
}

/// The working lists hold, in their first `n` entries, the neighbours `l` with their squared
/// distances from `first`; while not full they hold every candidate in `[first + 1, upto)`.
pub open spec fn holds(
    m: Seq<DetMinutia>,
    first: int,
    upto: int,
    k: int,
    list: Seq<i32>,
    dists: Seq<i128>,
    n: int,
) -> bool {
    &&& 0 <= n <= k
    &&& list.len() == k && dists.len() == k
    &&& nearest_among(m, first, upto, k, as_ints(list.take(n)))
    &&& forall|i: int| 0 <= i < n ==> #[trigger] dists[i] == sqr_dist(m, first, list[i] as int)
    &&& n < k ==> forall|c: int| first < c < upto ==> as_ints(list.take(n)).contains(c)
}

/// `nearer` is a strict order.
proof fn lemma_nearer_trans(m: Seq<DetMinutia>, first: int, a: int, b: int, c: int)
    requires
        nearer(m, first, a, b),
        nearer(m, first, b, c),
    ensures
        nearer(m, first, a, c),
{
}

/// Consider minutia `second` as a neighbour of `first`: while the lists are not full, or when it
/// is nearer than the farthest kept, it goes in at its place by distance (after those as near).
fn update_nbr_dists(
    nbr_list: &mut Vec<i32>,
    nbr_sqr_dists: &mut Vec<i128>,
    nnbrs: &mut usize,
    max_nbrs: usize,
    first: usize,
    second: usize,
    minutiae: &[DetMinutia],
)
    requires
        1 <= max_nbrs,
        first < second < minutiae@.len() <= i32::MAX,
        holds(minutiae@, first as int, second as int, max_nbrs as int, old(nbr_list)@, old(nbr_sqr_dists)@, *old(nnbrs) as int),
    ensures
        holds(minutiae@, first as int, second + 1, max_nbrs as int, final(nbr_list)@, final(nbr_sqr_dists)@, *final(nnbrs) as int),
{
    let ghost m = minutiae@;
    let ghost (f, s, k) = (first as int, second as int, max_nbrs as int);
    let ghost l = as_ints(nbr_list@.take(*nnbrs as int));
    let ghost n0 = *nnbrs as int;
    let last_nbr = max_nbrs - 1;
    let dist2 = squared_distance(&minutiae[first], &minutiae[second]);
    assert(dist2 == sqr_dist(m, f, s));
    if *nnbrs < max_nbrs || dist2 < nbr_sqr_dists[last_nbr] {
        let pos = find_incr_position(dist2, nbr_sqr_dists.as_slice(), *nnbrs);
        proof {
            // Entries before `pos` come before `second`; entries from `pos` on come after it.
            assert forall|i: int| 0 <= i < pos implies nearer(m, f, #[trigger] l[i], s) by {
                assert(nbr_sqr_dists@[i] == sqr_dist(m, f, nbr_list@[i] as int));
            }
            assert forall|i: int| pos <= i < n0 implies nearer(m, f, s, #[trigger] l[i]) by {
                assert(nbr_sqr_dists@[pos as int] == sqr_dist(m, f, nbr_list@[pos as int] as int));
                if i > pos {
                    assert(nearer(m, f, l[pos as int], l[i]));
                }
            }
            if n0 == k {
                assert(pos < k) by {
                    if pos == k {
                        assert(nbr_sqr_dists@[k - 1] <= dist2);
                    }
                }
            }
        }
        insert_neighbor(pos, second as i32, dist2, nbr_list, nbr_sqr_dists, nnbrs, max_nbrs);
        proof {
            let n1 = *nnbrs as int;
            let l1 = as_ints(nbr_list@.take(n1));
            let ins = l.insert(pos as int, s);
            assert(l1 =~= ins.take(n1));
            assert forall|i: int| 0 <= i < n1 implies #[trigger] l1[i] == if i < pos {
                l[i]
            } else if i == pos {
                s
            } else {
                l[i - 1]
            } by {}
            assert forall|i: int, j: int| 0 <= i < j < n1 implies nearer(m, f, #[trigger] l1[i], #[trigger] l1[j]) by {
                if j < pos {
                } else if i < pos && j == pos {
                } else if i < pos {
                    lemma_nearer_trans(m, f, l[i], s, l[j - 1]);
                } else if i == pos {
                } else {
                }
            }
            assert(l1.contains(s)) by {
                assert(l1[pos as int] == s);
            }
            assert forall|c: int| f < c < s + 1 && !l1.contains(c) implies forall|i: int| 0 <= i < n1 ==> nearer(m, f, #[trigger] l1[i], c) by {
                // `c` was already left out, or is the entry that fell off the end.
                if l.contains(c) {
                    let t = choose|t: int| 0 <= t < n0 && l[t] == c;
                    if t < pos {
                        assert(l1[t] == c);
                    } else if t + 1 < n1 {
                        assert(l1[t + 1] == c);
                    }
                    assert(n0 == k);
                    assert(t == k - 1);
                    assert forall|i: int| 0 <= i < n1 implies nearer(m, f, #[trigger] l1[i], c) by {
                        if i < pos {
                        } else if i == pos {
                        } else {
                        }
                    }
                } else {
                    assert(c != s);
                    if n0 < k {
                        assert(l.contains(c));
                    }
                    assert(n0 == k);
                    assert forall|i: int| 0 <= i < n1 implies nearer(m, f, #[trigger] l1[i], c) by {
                        assert(nearer(m, f, l[k - 1], c));
                        if i == pos {
                            lemma_nearer_trans(m, f, s, l[k - 1], c);
                        }
                    }
                }
            }
            assert forall|i: int| 0 <= i < n1 implies #[trigger] nbr_sqr_dists@[i] == sqr_dist(m, f, nbr_list@[i] as int) by {
                assert(nbr_sqr_dists@.take(n1)[i] == nbr_sqr_dists@[i]);
                assert(nbr_list@.take(n1)[i] == nbr_list@[i]);
            }
            if n1 < k {
                assert forall|c: int| f < c < s + 1 implies l1.contains(c) by {
                    if c == s {
                    } else {
                        assert(l.contains(c));
                        let t = choose|t: int| 0 <= t < n0 && l[t] == c;
                        if t < pos {
                            assert(l1[t] == c);
                        } else {
                            assert(l1[t + 1] == c);
                        }
                    }
                }
            }
        }
    } else {
        proof {
            assert(n0 == k);
            assert forall|i: int| 0 <= i < k implies nearer(m, f, #[trigger] l[i], s) by {
                assert(nbr_sqr_dists@[k - 1] == sqr_dist(m, f, nbr_list@[k - 1] as int));
                if i < k - 1 {
                    assert(nearer(m, f, l[i], l[k - 1]));
                }
            }
        }
    }
}

/// The squared horizontal distance from minutia `first` to minutia `s`.
pub open spec fn xdist2(m: Seq<DetMinutia>, first: int, s: int) -> int {
    (m[s].x - m[first].x) * (m[s].x - m[first].x)
}

/// The search holding `r`, the nearest among the minutiae before `s`, stops at `s`: the list has
/// ended, or `r` is full and the horizontal distance to `s` reaches the farthest in `r`.
pub open spec fn stops_at(m: Seq<DetMinutia>, first: int, s: int, k: int, r: Seq<int>) -> bool {
    s == m.len() || (r.len() == k && xdist2(m, first, s) >= sqr_dist(m, first, r[k - 1]))
}

/// The search did not stop before `s`.
pub open spec fn ran_past(m: Seq<DetMinutia>, first: int, s: int, k: int) -> bool {
    forall|t: int, l: Seq<int>|
        first < t < s && #[trigger] nearest_among(m, first, t, k, l) && l.len() == k ==> xdist2(m, first, t)
            < sqr_dist(m, first, l[k - 1])
}

/// `r` is what the search for the neighbours of `first` finds: the nearest among the minutiae
/// before the point where it stops.
pub open spec fn searched(m: Seq<DetMinutia>, first: int, k: int, r: Seq<int>) -> bool {
    exists|s: int|
        first < s <= m.len() && #[trigger] nearest_among(m, first, s, k, r) && stops_at(m, first, s, k, r)
            && ran_past(m, first, s, k)
}

/// Of two distinct minutiae, one comes before the other.
proof fn lemma_nearer_total(m: Seq<DetMinutia>, first: int, a: int, b: int)
    requires
        a != b,
    ensures
        nearer(m, first, a, b) || nearer(m, first, b, a),
        !(nearer(m, first, a, b) && nearer(m, first, b, a)),
{
}

/// There is only one list of nearest neighbours.
proof fn lemma_nearest_unique(m: Seq<DetMinutia>, first: int, upto: int, k: int, r1: Seq<int>, r2: Seq<int>)
    requires
        nearest_among(m, first, upto, k, r1),
        nearest_among(m, first, upto, k, r2),
    ensures
        r1 == r2,
{
    assert forall|i: int| 0 <= i < r1.len() implies r1[i] == r2[i] by {
        lemma_nearest_prefix_equal(m, first, upto, k, r1, r2, i);
    }
    assert(r1 =~= r2);
}

/// Two lists of nearest neighbours agree up to and including position `i`.
proof fn lemma_nearest_prefix_equal(
    m: Seq<DetMinutia>,
    first: int,
    upto: int,
    k: int,
    r1: Seq<int>,
    r2: Seq<int>,
    i: int,
)
    requires
        nearest_among(m, first, upto, k, r1),
        nearest_among(m, first, upto, k, r2),
        0 <= i < r1.len(),
    ensures
        forall|j: int| 0 <= j <= i ==> r1[j] == r2[j],
    decreases i,
{
    if i > 0 {
        lemma_nearest_prefix_equal(m, first, upto, k, r1, r2, i - 1);
    }
    let a = r1[i];
    let b = r2[i];
    if a != b {
        lemma_nearer_total(m, first, a, b);
        if nearer(m, first, a, b) {
            if r2.contains(a) {
                let p = choose|p: int| 0 <= p < r2.len() && r2[p] == a;
                if p < i {
                    assert(r1[p] == a);
                    assert(nearer(m, first, r1[p], r1[i]));
                } else {
                    assert(p != i);
                    assert(nearer(m, first, r2[i], r2[p]));
                }
            } else {
                assert(nearer(m, first, r2[i], a));
            }
        } else {
            if r1.contains(b) {
                let p = choose|p: int| 0 <= p < r1.len() && r1[p] == b;
                if p < i {
                    assert(r2[p] == b);
                    assert(nearer(m, first, r2[p], r2[i]));
                } else {
                    assert(p != i);
                    assert(nearer(m, first, r1[i], r1[p]));
                }
            } else {
                assert(nearer(m, first, r1[i], b));
            }
        }
    }
}

/// In a list sorted left to right, the search's stop is sound: what it finds is the nearest among
/// all the minutiae after `first`.
pub proof fn lemma_sorted_search_finds_nearest(m: Seq<DetMinutia>, first: int, k: int, r: Seq<int>)
    requires
        1 <= k,
        0 <= first < m.len(),
        x_sorted(m),
        searched(m, first, k, r),
    ensures
        nearest_among(m, first, m.len() as int, k, r),
{
    let s = choose|s: int|
        first < s <= m.len() && #[trigger] nearest_among(m, first, s, k, r) && stops_at(m, first, s, k, r)
            && ran_past(m, first, s, k);
    if s < m.len() {
        assert forall|c: int| first < c < m.len() && !r.contains(c) implies forall|i: int|
            0 <= i < r.len() ==> nearer(m, first, #[trigger] r[i], c) by {
            if c >= s {
                assert forall|i: int| 0 <= i < r.len() implies nearer(m, first, #[trigger] r[i], c) by {
                    let xs = m[s].x - m[first].x;
                    let xc = m[c].x - m[first].x;
                    let yc = m[c].y - m[first].y;
                    assert(m[first].x <= m[s].x && m[s].x <= m[c].x);
                    assert(xs * xs <= xc * xc + yc * yc) by (nonlinear_arith)
                        requires
                            0 <= xs <= xc,
                    ;
                    let dxc = m[first].x - m[c].x;
                    let dyc = m[first].y - m[c].y;
                    assert(dxc * dxc + dyc * dyc == xc * xc + yc * yc) by (nonlinear_arith)
                        requires
                            dxc == -xc,
                            dyc == -yc,
                    ;
                    assert(sqr_dist(m, first, c) == xc * xc + yc * yc);
                    assert(r[i] < s);
                    if i < k - 1 {
                        assert(nearer(m, first, r[i], r[k - 1]));
                    }
                }
            }
        }
    }
}

/// Up to `max_nbrs` nearest neighbours of minutia `first` among those after it, nearest first,
/// found by a forward search that stops once its list is full and the horizontal distance alone
/// reaches the farthest kept (see [`searched`]). In a list sorted left to right this is the
/// nearest among all of them ([`lemma_sorted_search_finds_nearest`]).
pub fn find_neighbors(max_nbrs: i32, first: usize, minutiae: &[DetMinutia]) -> (r: Vec<i32>)
    requires
        1 <= max_nbrs,
        first < minutiae@.len() <= i32::MAX,
    ensures
        searched(minutiae@, first as int, max_nbrs as int, as_ints(r@)),
{
    let ghost m = minutiae@;
    let k = max_nbrs as usize;
    let mut nbr_list: Vec<i32> = Vec::with_capacity(k);
    let mut nbr_sqr_dists: Vec<i128> = Vec::with_capacity(k);
    let mut j: usize = 0;
    while j < k
        invariant
            j <= k,
            nbr_list@.len() == j,
            nbr_sqr_dists@.len() == j,
        decreases k - j,
    {
        nbr_list.push(0);
        nbr_sqr_dists.push(0);
        j += 1;
    }
    let mut nnbrs: usize = 0;
    let last_nbr = k - 1;
    let mut second = first + 1;
    let mut done = false;
    proof {
        assert(as_ints(nbr_list@.take(0)) =~= Seq::<int>::empty());
    }
    while second < minutiae.len() && !done
        invariant
            1 <= k,
            k == max_nbrs as int,
            last_nbr == k - 1,
            m == minutiae@,
            first < second <= m.len() <= i32::MAX,
            holds(m, first as int, second as int, k as int, nbr_list@, nbr_sqr_dists@, nnbrs as int),
            ran_past(m, first as int, second as int, k as int),
            done ==> nnbrs == k && second < m.len() && nbr_sqr_dists@[k - 1] <= xdist2(
                m,
                first as int,
                second as int,
            ),
        decreases m.len() - second, if done { 0int } else { 1int },
    {
        let xdist = (minutiae[second].x as i128) - (minutiae[first].x as i128);
        assert(0 <= xdist * xdist <= 0x1_0000_0000_0000_0000) by (nonlinear_arith)
            requires
                -0x1_0000_0000 <= xdist <= 0x1_0000_0000,
        ;
        let xsq = xdist * xdist;
        assert(xsq == xdist2(m, first as int, second as int));
        if nnbrs < k || xsq < nbr_sqr_dists[last_nbr] {
            proof {
                let l = as_ints(nbr_list@.take(nnbrs as int));
                assert forall|t: int, l2: Seq<int>|
                    first < t < second + 1 && #[trigger] nearest_among(m, first as int, t, k as int, l2) && l2.len() == k
                        implies xdist2(m, first as int, t) < sqr_dist(m, first as int, l2[k - 1]) by {
                    if t == second {
                        lemma_nearest_unique(m, first as int, t, k as int, l2, l);
                        assert(nbr_sqr_dists@[k - 1] == sqr_dist(m, first as int, nbr_list@[k - 1] as int));
                    }
                }
            }
            update_nbr_dists(&mut nbr_list, &mut nbr_sqr_dists, &mut nnbrs, k, first, second, minutiae);
            second += 1;
        } else {
            done = true;
        }
    }
    proof {
        let l = as_ints(nbr_list@.take(nnbrs as int));
        if done {
            assert(nbr_sqr_dists@[k - 1] == sqr_dist(m, first as int, nbr_list@[k - 1] as int));
            assert(stops_at(m, first as int, second as int, k as int, l));
        } else {
            assert(second == m.len());
        }
        assert(first < second <= m.len() && nearest_among(m, first as int, second as int, k as int, l)
            && stops_at(m, first as int, second as int, k as int, l) && ran_past(m, first as int, second as int, k as int));
    }
    nbr_list.truncate(nnbrs);
    proof {
        assert(nbr_list@ =~= nbr_list@.take(nnbrs as int));
    }
    nbr_list
}

} // verus!
