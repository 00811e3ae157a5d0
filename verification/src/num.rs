//! The stable bubble sorts the detector relies on wherever ordering matters.
//!
//! Every swap is guarded by a strict comparison, so equal keys never swap and keep their input
//! order: the sorts are stable.

use vstd::prelude::*;

verus! {

/// `s` is in non-decreasing order.
pub open spec fn sorted(s: Seq<i32>) -> bool {
    forall|a: int, b: int| 0 <= a < b < s.len() ==> s[a] <= s[b]
}

/// `perm` maps each of `n` positions to a distinct position in `0..n`.
pub open spec fn is_perm(perm: Seq<int>, n: int) -> bool {
    &&& perm.len() == n
    &&& forall|k: int| 0 <= k < n ==> 0 <= #[trigger] perm[k] < n
    &&& forall|a: int, b: int| 0 <= a < n && 0 <= b < n && a != b ==> perm[a] != perm[b]
}

/// `out` is `inp` rearranged by `perm`.
pub open spec fn permuted(out: Seq<i32>, inp: Seq<i32>, perm: Seq<int>) -> bool {
    &&& out.len() == inp.len()
    &&& forall|k: int| 0 <= k < out.len() ==> out[k] == inp[#[trigger] perm[k]]
}

/// Equal keys of `r` keep the relative order of their origins in `perm`.
pub open spec fn stable(r: Seq<i32>, perm: Seq<int>) -> bool {
    forall|a: int, b: int| 0 <= a < b < r.len() && r[a] == r[b] ==> perm[a] < perm[b]
}

/// `(r_out, i_out)` is the stable ascending sort of the pairs `(r_in, i_in)` by rank.
pub open spec fn stable_sort_of(
    r_out: Seq<i32>,
    i_out: Seq<i32>,
    r_in: Seq<i32>,
    i_in: Seq<i32>,
) -> bool {
    exists|perm: Seq<int>|
        {
            &&& is_perm(perm, r_in.len() as int)
            &&& permuted(r_out, r_in, perm)
            &&& permuted(i_out, i_in, perm)
            &&& sorted(r_out)
            &&& stable(r_out, perm)
        }
}

/// The identity rearrangement of `n` positions.
pub open spec fn identity(n: int) -> Seq<int> {
    Seq::new(n as nat, |k: int| k)
}

/// Swap positions `p` and `p + 1` of a sequence.
pub open spec fn swap_adj<T>(s: Seq<T>, p: int) -> Seq<T> {
    s.update(p, s[p + 1]).update(p + 1, s[p])
}

/// Swapping two adjacent unequal keys keeps every invariant of the stable sort.
proof fn lemma_swap_keeps(r: Seq<i32>, it: Seq<i32>, perm: Seq<int>, r0: Seq<i32>, i0: Seq<i32>, p: int)
    requires
        0 <= p,
        p + 1 < r.len(),
        r[p] != r[p + 1],
        is_perm(perm, r.len() as int),
        permuted(r, r0, perm),
        permuted(it, i0, perm),
        it.len() == r.len(),
        stable(r, perm),
    ensures
        is_perm(swap_adj(perm, p), r.len() as int),
        permuted(swap_adj(r, p), r0, swap_adj(perm, p)),
        permuted(swap_adj(it, p), i0, swap_adj(perm, p)),
        stable(swap_adj(r, p), swap_adj(perm, p)),
{
    let r2 = swap_adj(r, p);
    let perm2 = swap_adj(perm, p);
    let n = r.len() as int;
    assert forall|a: int, b: int| 0 <= a < n && 0 <= b < n && a != b implies perm2[a] != perm2[b] by {
        let sa = if a == p {
            p + 1
        } else if a == p + 1 {
            p
        } else {
            a
        };
        let sb = if b == p {
            p + 1
        } else if b == p + 1 {
            p
        } else {
            b
        };
        assert(perm2[a] == perm[sa]);
        assert(perm2[b] == perm[sb]);
    }
    assert forall|a: int, b: int| 0 <= a < b < n && r2[a] == r2[b] implies perm2[a] < perm2[b] by {
        let sa = if a == p {
            p + 1
        } else if a == p + 1 {
            p
        } else {
            a
        };
        let sb = if b == p {
            p + 1
        } else if b == p + 1 {
            p
        } else {
            b
        };
        assert(r2[a] == r[sa] && perm2[a] == perm[sa]);
        assert(r2[b] == r[sb] && perm2[b] == perm[sb]);
    }
    assert forall|k: int| 0 <= k < n implies r2[k] == r0[#[trigger] perm2[k]] by {
        if k == p {
            assert(r2[k] == r[p + 1]);
        } else if k == p + 1 {
            assert(r2[k] == r[p]);
        }
    }
    assert forall|k: int| 0 <= k < n implies swap_adj(it, p)[k] == i0[#[trigger] perm2[k]] by {
        if k == p {
        } else if k == p + 1 {
        }
    }
}

/// Sort integer `ranks` into increasing order, carrying `items` along in lock-step; equal ranks
/// keep their input order.
pub fn bubble_sort_int_inc_2(ranks: &mut [i32], items: &mut [i32])
    requires
        old(ranks)@.len() == old(items)@.len(),
    ensures
        stable_sort_of(final(ranks)@, final(items)@, old(ranks)@, old(items)@),
{
    let ghost r0 = ranks@;
    let ghost i0 = items@;
    let len = ranks.len();
    let ghost mut perm = identity(len as int);
    assert(permuted(ranks@, r0, perm));
    assert(permuted(items@, i0, perm));
    let mut n = len;
    let mut done = false;
    while !done
        invariant
            ranks@.len() == len,
            items@.len() == len,
            r0.len() == len,
            i0.len() == len,
            n <= len,
            is_perm(perm, len as int),
            permuted(ranks@, r0, perm),
            permuted(items@, i0, perm),
            stable(ranks@, perm),
            forall|a: int, b: int| n <= a < b < len ==> ranks@[a] <= ranks@[b],
            forall|a: int, b: int| 0 <= a < n <= b < len ==> ranks@[a] <= ranks@[b],
            done ==> sorted(ranks@),
        decreases n + if done {
            0int
        } else {
            1int
        },
    {
        done = true;
        let bound = if n > 0 {
            n - 1
        } else {
            0
        };
        let mut p: usize = 0;
        while p < bound
            invariant
                ranks@.len() == len,
                items@.len() == len,
                r0.len() == len,
                i0.len() == len,
                n <= len,
                bound == if n > 0 {
                    n - 1
                } else {
                    0
                },
                p <= bound,
                !done ==> bound > 0,
                is_perm(perm, len as int),
                permuted(ranks@, r0, perm),
                permuted(items@, i0, perm),
                stable(ranks@, perm),
                forall|a: int, b: int| n <= a < b < len ==> ranks@[a] <= ranks@[b],
                forall|a: int, b: int| 0 <= a < n <= b < len ==> ranks@[a] <= ranks@[b],
                n > 0 ==> forall|a: int| 0 <= a <= p ==> ranks@[a] <= ranks@[p as int],
                done ==> forall|a: int, b: int| 0 <= a < b <= p ==> ranks@[a] <= ranks@[b],
            decreases bound - p,
        {
            if ranks[p] > ranks[p + 1] {
                let ghost rb = ranks@;
                let ghost ib = items@;
                proof {
                    lemma_swap_keeps(ranks@, items@, perm, r0, i0, p as int);
                    perm = swap_adj(perm, p as int);
                }
                let t = ranks[p];
                ranks[p] = ranks[p + 1];
                ranks[p + 1] = t;
                let u = items[p];
                items[p] = items[p + 1];
                items[p + 1] = u;
                assert(ranks@ =~= swap_adj(rb, p as int));
                assert(items@ =~= swap_adj(ib, p as int));
                done = false;
            }
            p += 1;
        }
        n = if n > 0 {
            n - 1
        } else {
            0
        };
    }
    assert(is_perm(perm, r0.len() as int) && permuted(ranks@, r0, perm) && permuted(items@, i0, perm)
        && sorted(ranks@) && stable(ranks@, perm));
}

/// Sort integer `ranks` into increasing order in place.
pub fn bubble_sort_int_inc(ranks: &mut [i32])
    ensures
        sorted(final(ranks)@),
        exists|perm: Seq<int>|
            is_perm(perm, old(ranks)@.len() as int) && permuted(final(ranks)@, old(ranks)@, perm),
{
    let ghost r0 = ranks@;
    let len = ranks.len();
    let ghost mut perm = identity(len as int);
    assert(permuted(ranks@, r0, perm));
    let mut n = len;
    let mut done = false;
    while !done
        invariant
            ranks@.len() == len,
            r0.len() == len,
            n <= len,
            is_perm(perm, len as int),
            permuted(ranks@, r0, perm),
            stable(ranks@, perm),
            forall|a: int, b: int| n <= a < b < len ==> ranks@[a] <= ranks@[b],
            forall|a: int, b: int| 0 <= a < n <= b < len ==> ranks@[a] <= ranks@[b],
            done ==> sorted(ranks@),
        decreases n + if done {
            0int
        } else {
            1int
        },
    {
        done = true;
        let bound = if n > 0 {
            n - 1
        } else {
            0
        };
        let mut p: usize = 0;
        while p < bound
            invariant
                ranks@.len() == len,
                r0.len() == len,
                n <= len,
                bound == if n > 0 {
                    n - 1
                } else {
                    0
                },
                p <= bound,
                !done ==> bound > 0,
                is_perm(perm, len as int),
                permuted(ranks@, r0, perm),
                stable(ranks@, perm),
                forall|a: int, b: int| n <= a < b < len ==> ranks@[a] <= ranks@[b],
                forall|a: int, b: int| 0 <= a < n <= b < len ==> ranks@[a] <= ranks@[b],
                n > 0 ==> forall|a: int| 0 <= a <= p ==> ranks@[a] <= ranks@[p as int],
                done ==> forall|a: int, b: int| 0 <= a < b <= p ==> ranks@[a] <= ranks@[b],
            decreases bound - p,
        {
            if ranks[p] > ranks[p + 1] {
                let ghost rb = ranks@;
                proof {
                    lemma_swap_keeps(ranks@, ranks@, perm, r0, r0, p as int);
                    perm = swap_adj(perm, p as int);
                }
                let t = ranks[p];
                ranks[p] = ranks[p + 1];
                ranks[p + 1] = t;
                assert(ranks@ =~= swap_adj(rb, p as int));
                done = false;
            }
            p += 1;
        }
        n = if n > 0 {
            n - 1
        } else {
            0
        };
    }
}

/// Position `k` of the sorted `out` holds the input key at `order[k]`.
pub open spec fn final_ranks_at(out: Seq<i32>, inp: Seq<i32>, order: Seq<i32>, k: int) -> bool {
    out[k] == inp[order[k] as int]
}

/// Sort `ranks` ascending in place and return the permutation of starting indices that produces
/// that order; equal ranks keep their input order.
pub fn sort_indices_int_inc(ranks: &mut [i32]) -> (order: Vec<i32>)
    requires
        old(ranks)@.len() <= i32::MAX,
    ensures
        order@.len() == old(ranks)@.len(),
        final(ranks)@.len() == old(ranks)@.len(),
        forall|k: int| 0 <= k < order@.len() ==> 0 <= #[trigger] order@[k] < order@.len(),
        forall|a: int, b: int| 0 <= a < b < order@.len() ==> order@[a] != order@[b],
        forall|k: int| 0 <= k < order@.len() ==> #[trigger] final_ranks_at(final(ranks)@, old(ranks)@, order@, k),
        sorted(final(ranks)@),
        forall|a: int, b: int|
            0 <= a < b < order@.len() && final(ranks)@[a] == final(ranks)@[b] ==> order@[a] < order@[b],
{
    let len = ranks.len();
    let mut order: Vec<i32> = Vec::with_capacity(len);
    let mut i: usize = 0;
    while i < len
        invariant
            len == ranks@.len(),
            len <= i32::MAX,
            i <= len,
            order@.len() == i,
            forall|k: int| 0 <= k < i ==> order@[k] == k,
        decreases len - i,
    {
        order.push(i as i32);
        i += 1;
    }
    let ghost r0 = ranks@;
    let ghost o0 = order@;
    bubble_sort_int_inc_2(ranks, &mut order);
    proof {
        let perm = choose|perm: Seq<int>|
            {
                &&& is_perm(perm, r0.len() as int)
                &&& permuted(ranks@, r0, perm)
                &&& permuted(order@, o0, perm)
                &&& sorted(ranks@)
                &&& stable(ranks@, perm)
            };
        assert forall|k: int| 0 <= k < order@.len() implies order@[k] == perm[k] by {
            assert(order@[k] == o0[perm[k]]);
            assert(0 <= perm[k] < len);
            assert(o0[perm[k]] == perm[k]);
        }
        assert forall|k: int| 0 <= k < order@.len() implies 0 <= #[trigger] order@[k] < order@.len() by {
            assert(order@[k] == perm[k]);
        }
        assert forall|a: int, b: int| 0 <= a < b < order@.len() implies order@[a] != order@[b] by {
            assert(order@[a] == perm[a] && order@[b] == perm[b]);
        }
        assert forall|k: int| 0 <= k < order@.len() implies final_ranks_at(ranks@, r0, order@, k) by {
            assert(order@[k] == perm[k]);
        }
    }
    order
}

} // verus!
