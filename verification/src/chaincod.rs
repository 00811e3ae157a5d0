//! 8-connected chain code of a traced contour and its turn analysis.
//!
//! [`chain_code_loop`] encodes each step between successive contour points (including the wrap
//! from the last point back to the first) as one of eight direction codes;
//! [`is_chain_clockwise`] folds the successive direction changes into a signed turn total to decide
//! the loop's winding.

use vstd::prelude::*;

verus! {

/// `TRUE` as the reference's `int` result.
pub const TRUE: i32 = 1;

/// `FALSE` as the reference's `int` result.
pub const FALSE: i32 = 0;

/// The chain code at index `k` of the 3×3 neighbour matrix (row `dy + 1`, column `dx + 1`):
///
/// ```text
///          dx=-1  dx=0  dx=1
///   dy=-1:   3     2     1
///   dy= 0:   4    -1     0
///   dy= 1:   5     6     7
/// ```
pub open spec fn chaincode_at(k: int) -> int {
    if k == 0 {
        3
    } else if k == 1 {
        2
    } else if k == 2 {
        1
    } else if k == 3 {
        4
    } else if k == 4 {
        -1
    } else if k == 5 {
        0
    } else if k == 6 {
        5
    } else if k == 7 {
        6
    } else {
        7
    }
}

/// The matrix index of a step from point `i` to point `j`.
pub open spec fn step_index(xs: Seq<i32>, ys: Seq<i32>, i: int, j: int) -> int {
    (ys[j] - ys[i] + 1) * 3 + (xs[j] - xs[i]) + 1
}

/// The chain code of the step from point `i` to point `j`.
pub open spec fn step_code(xs: Seq<i32>, ys: Seq<i32>, i: int, j: int) -> int {
    chaincode_at(step_index(xs, ys, i, j))
}

/// The point after `i` around a closed loop of `n` points.
pub open spec fn succ(i: int, n: int) -> int {
    if i + 1 < n {
        i + 1
    } else {
        0
    }
}

/// Every step of the closed contour, the wrap included, joins two 8-adjacent points.
pub open spec fn steps_adjacent(xs: Seq<i32>, ys: Seq<i32>) -> bool {
    forall|i: int|
        0 <= i < xs.len() ==> {
            &&& -1 <= #[trigger] xs[succ(i, xs.len() as int)] - xs[i] <= 1
            &&& -1 <= ys[succ(i, xs.len() as int)] - ys[i] <= 1
        }
}

fn chaincode(k: i32) -> (c: i32)
    requires
        0 <= k < 9,
    ensures
        c == chaincode_at(k as int),
{
    if k == 0 {
        3
    } else if k == 1 {
        2
    } else if k == 2 {
        1
    } else if k == 3 {
        4
    } else if k == 4 {
        -1
    } else if k == 5 {
        0
    } else if k == 6 {
        5
    } else if k == 7 {
        6
    } else {
        7
    }
}

/// Convert a feature's contour points into an 8-connected chain-code vector.
///
/// Each element is the direction taken between two adjacent contour points, with a final code
/// wrapping the last point back to the first, so there is one code per point. A contour of three or
/// fewer points does not form a loop and yields an empty chain.
pub fn chain_code_loop(contour_x: &[i32], contour_y: &[i32]) -> (chain: Vec<i32>)
    requires
        contour_x@.len() <= i32::MAX,
        contour_y@.len() >= contour_x@.len(),
        contour_x@.len() > 3 ==> steps_adjacent(contour_x@, contour_y@),
    ensures
        contour_x@.len() <= 3 ==> chain@.len() == 0,
        contour_x@.len() > 3 ==> chain@.len() == contour_x@.len() && forall|i: int|
            0 <= i < chain@.len() ==> chain@[i] == step_code(
                contour_x@,
                contour_y@,
                i,
                succ(i, contour_x@.len() as int),
            ),
        forall|i: int| 0 <= i < chain@.len() ==> -1 <= #[trigger] chain@[i] <= 7,
{
    let ncontour = contour_x.len();
    if ncontour <= 3 {
        return Vec::new();
    }
    let ghost xs = contour_x@;
    let ghost ys = contour_y@;
    let ghost n = ncontour as int;
    let mut chain: Vec<i32> = Vec::with_capacity(ncontour);
    let mut i: usize = 0;
    while i < ncontour - 1
        invariant
            ncontour == xs.len(),
            xs == contour_x@,
            ys == contour_y@,
            n == ncontour,
            ys.len() >= n,
            n > 3,
            steps_adjacent(xs, ys),
            i <= n - 1,
            chain@.len() == i,
            forall|k: int| 0 <= k < i ==> chain@[k] == step_code(xs, ys, k, succ(k, n)),
            forall|k: int| 0 <= k < i ==> -1 <= #[trigger] chain@[k] <= 7,
        decreases n - i,
    {
        let j = i + 1;
        assert(-1 <= xs[succ(i as int, n)] - xs[i as int] <= 1);
        let dx = contour_x[j] - contour_x[i];
        let dy = contour_y[j] - contour_y[i];
        chain.push(chaincode((dy + 1) * 3 + dx + 1));
        i += 1;
    }
    assert(-1 <= xs[succ(n - 1, n)] - xs[n - 1] <= 1);
    let dx = contour_x[0] - contour_x[i];
    let dy = contour_y[0] - contour_y[i];
    chain.push(chaincode((dy + 1) * 3 + dx + 1));
    chain
}

/// A change of direction reduced to its inner distance: `d >= 4` becomes `d - 8`, `d <= -4`
/// becomes `d + 8`.
pub open spec fn fold_turn(d: int) -> int {
    if d >= 4 {
        d - 8
    } else if d <= -4 {
        d + 8
    } else {
        d
    }
}

/// The folded turns between codes `0..k` and their successors `1..k+1`, summed.
pub open spec fn turns_upto(c: Seq<i32>, k: int) -> int
    decreases k,
{
    if k <= 0 {
        0
    } else {
        turns_upto(c, k - 1) + fold_turn(c[k] - c[k - 1])
    }
}

/// The net turn around a closed chain: every successive pair plus the wrap from last to first.
pub open spec fn net_turn(c: Seq<i32>) -> int {
    turns_upto(c, c.len() - 1) + fold_turn(c[0] - c[c.len() - 1])
}

/// The winding [`is_chain_clockwise`] reports for a non-empty chain.
pub open spec fn winding(c: Seq<i32>, default_ret: i32) -> i32 {
    if net_turn(c) == 0 {
        default_ret
    } else if net_turn(c) > 0 {
        FALSE
    } else {
        TRUE
    }
}

proof fn lemma_turns_bound(c: Seq<i32>, k: int)
    requires
        0 <= k < c.len(),
        forall|i: int| 0 <= i < c.len() ==> -1 <= #[trigger] c[i] <= 7,
    ensures
        -4 * k <= turns_upto(c, k) <= 4 * k,
    decreases k,
{
    if k > 0 {
        lemma_turns_bound(c, k - 1);
    }
}

/// Decide whether a chain-code vector is ordered clockwise.
///
/// Accumulates the folded change in direction between each successive pair of codes (including
/// the wrap from the last code back to the first). Returns [`TRUE`] when the net turn is negative
/// (clockwise), [`FALSE`] when it is positive, and `default_ret` when it is exactly zero.
pub fn is_chain_clockwise(chain: &[i32], default_ret: i32) -> (r: i32)
    requires
        1 <= chain@.len() <= 0x1fff_ffff,
        forall|i: int| 0 <= i < chain@.len() ==> -1 <= #[trigger] chain@[i] <= 7,
    ensures
        r == winding(chain@, default_ret),
{
    let nchain = chain.len();
    let ghost c = chain@;
    let mut sum: i32 = 0;
    let mut i: usize = 0;
    while i < nchain - 1
        invariant
            c == chain@,
            nchain == c.len(),
            1 <= nchain <= 0x1fff_ffff,
            forall|k: int| 0 <= k < c.len() ==> -1 <= #[trigger] c[k] <= 7,
            i <= nchain - 1,
            sum == turns_upto(c, i as int),
        decreases nchain - i,
    {
        proof {
            lemma_turns_bound(c, i as int);
        }
        let mut d = chain[i + 1] - chain[i];
        if d >= 4 {
            d -= 8;
        } else if d <= -4 {
            d += 8;
        }
        sum += d;
        i += 1;
    }
    proof {
        lemma_turns_bound(c, i as int);
    }
    let mut d = chain[0] - chain[i];
    if d >= 4 {
        d -= 8;
    } else if d <= -4 {
        d += 8;
    }
    sum += d;
    if sum == 0 {
        default_ret
    } else if sum > 0 {
        FALSE
    } else {
        TRUE
    }
}

} // verus!
