//! Generators for the two interoperability facts the kernels consume: `(x, y, theta)` minutia
//! triples and 8-bit grayscale noise. Both yield plain tuples and bytes.

use vstd::prelude::*;

use crate::bytes::{after_words, fold_word, nth_word, ByteSource};

verus! {

/// The smallest angle a generated theta takes.
pub const THETA_MIN: i32 = 0;

/// The largest angle a generated theta takes.
pub const THETA_MAX: i32 = 359;

/// The value the `k`-th four-byte word from `c` gives on `lo..=hi`: `lo` plus the word modulo
/// the width of the range.
pub open spec fn word_in_range<S: ByteSource>(c: S::Cursor, k: int, lo: int, hi: int) -> int {
    lo + fold_word(nth_word::<S>(c, k as nat), hi - lo + 1)
}

/// Where a source stands after `k` four-byte words, one step further.
proof fn lemma_next_word<S: ByteSource>(c: S::Cursor, k: nat)
    ensures
        after_words::<S>(c, k + 1) == S::after(after_words::<S>(c, k), 4),
{
}

/// `n` minutiae as `(x, y, theta)` triples scattered over a `width`×`height` field: `x` on
/// `0..=width`, `y` on `0..=height`, `theta` on `0..=359`. Triple `k` is drawn from the source's
/// words `3k`, `3k + 1` and `3k + 2`, in that order, and the source ends `3n` words on.
pub fn xyt<S: ByteSource>(src: &mut S, n: usize, width: i32, height: i32) -> (v: Vec<(i32, i32, i32)>)
    requires
        0 <= width,
        0 <= height,
    ensures
        v@.len() == n,
        forall|k: int|
            0 <= k < n ==> 0 <= (#[trigger] v@[k]).0 <= width && 0 <= v@[k].1 <= height && THETA_MIN
                <= v@[k].2 <= THETA_MAX,
        forall|k: int|
            0 <= k < n ==> (#[trigger] v@[k]).0 == word_in_range::<S>(old(src).cursor(), 3 * k, 0, width as int)
                && v@[k].1 == word_in_range::<S>(old(src).cursor(), 3 * k + 1, 0, height as int)
                && v@[k].2 == word_in_range::<S>(
                old(src).cursor(),
                3 * k + 2,
                THETA_MIN as int,
                THETA_MAX as int,
            ),
        final(src).cursor() == after_words::<S>(old(src).cursor(), (3 * n) as nat),
{
    let ghost c0 = src.cursor();
    let mut out: Vec<(i32, i32, i32)> = Vec::with_capacity(n);
    let mut k: usize = 0;
    while k < n
        invariant
            0 <= width && 0 <= height,
            k <= n,
            out@.len() == k,
            src.cursor() == after_words::<S>(c0, (3 * k) as nat),
            forall|j: int|
                0 <= j < k ==> 0 <= (#[trigger] out@[j]).0 <= width && 0 <= out@[j].1 <= height
                    && THETA_MIN <= out@[j].2 <= THETA_MAX,
            forall|j: int|
                0 <= j < k ==> (#[trigger] out@[j]).0 == word_in_range::<S>(c0, 3 * j, 0, width as int)
                    && out@[j].1 == word_in_range::<S>(c0, 3 * j + 1, 0, height as int)
                    && out@[j].2 == word_in_range::<S>(c0, 3 * j + 2, THETA_MIN as int, THETA_MAX as int),
        decreases n - k,
    {
        proof {
            lemma_next_word::<S>(c0, (3 * k) as nat);
            lemma_next_word::<S>(c0, (3 * k + 1) as nat);
            lemma_next_word::<S>(c0, (3 * k + 2) as nat);
        }
        let x = src.in_range(0, width);
        let y = src.in_range(0, height);
        let t = src.in_range(THETA_MIN, THETA_MAX);
        out.push((x, y, t));
        k += 1;
    }
    out
}

/// A jittered coordinate: within `radius` of `c`, clamped at zero.
pub open spec fn jittered_coord(c: int, out: int, radius: int) -> bool {
    exists|d: int| -radius <= d <= radius && out == #[trigger] clamp0(c + d)
}

/// `v`, or zero if negative.
pub open spec fn clamp0(v: int) -> int {
    if v < 0 {
        0
    } else {
        v
    }
}

/// A jittered angle: within `radius` degrees of `t`, folded onto `0..360`.
pub open spec fn jittered_angle(t: int, out: int, radius: int) -> bool {
    exists|d: int| -radius <= d <= radius && out == #[trigger] fold360(t + d)
}

/// An angle folded onto `0..360`.
pub open spec fn fold360(v: int) -> int {
    v % 360
}

/// Every coordinate of `base` leaves room for a jitter of `radius` within `i32`.
pub open spec fn jitter_fits(base: Seq<(i32, i32, i32)>, radius: int) -> bool {
    forall|k: int|
        0 <= k < base.len() ==> i32::MIN + radius <= (#[trigger] base[k]).0 <= i32::MAX - radius
            && i32::MIN + radius <= base[k].1 <= i32::MAX - radius && i32::MIN + radius <= base[k].2
            <= i32::MAX - radius
}

/// `base`, jittered: each triple moved by up to `radius` pixels and `radius` degrees, the
/// coordinates clamped at zero and the angle folded onto `0..360`. The moves of triple `k` are
/// drawn on `-radius..=radius` from the source's words `3k`, `3k + 1` and `3k + 2`, and the
/// source ends `3 * base.len()` words on.
pub fn xyt_jittered<S: ByteSource>(src: &mut S, base: &[(i32, i32, i32)], radius: i32) -> (v: Vec<
    (i32, i32, i32),
>)
    requires
        0 <= radius,
        jitter_fits(base@, radius as int),
    ensures
        v@.len() == base@.len(),
        forall|k: int|
            0 <= k < base@.len() ==> jittered_coord(base@[k].0 as int, (#[trigger] v@[k]).0 as int, radius as int)
                && jittered_coord(base@[k].1 as int, v@[k].1 as int, radius as int) && jittered_angle(
                base@[k].2 as int,
                v@[k].2 as int,
                radius as int,
            ),
        forall|k: int| 0 <= k < base@.len() ==> 0 <= (#[trigger] v@[k]).0 && 0 <= v@[k].1 && 0 <= v@[k].2 < 360,
        forall|k: int|
            0 <= k < base@.len() ==> (#[trigger] v@[k]).0 == clamp0(
                base@[k].0 + word_in_range::<S>(old(src).cursor(), 3 * k, -radius as int, radius as int),
            ) && v@[k].1 == clamp0(
                base@[k].1 + word_in_range::<S>(old(src).cursor(), 3 * k + 1, -radius as int, radius as int),
            ) && v@[k].2 == fold360(
                base@[k].2 + word_in_range::<S>(old(src).cursor(), 3 * k + 2, -radius as int, radius as int),
            ),
        final(src).cursor() == after_words::<S>(old(src).cursor(), (3 * base@.len()) as nat),
{
    let ghost c0 = src.cursor();
    let n = base.len();
    let mut out: Vec<(i32, i32, i32)> = Vec::with_capacity(n);
    let mut k: usize = 0;
    while k < n
        invariant
            n == base@.len(),
            0 <= radius,
            jitter_fits(base@, radius as int),
            k <= n,
            out@.len() == k,
            forall|j: int|
                0 <= j < k ==> jittered_coord(base@[j].0 as int, (#[trigger] out@[j]).0 as int, radius as int)
                    && jittered_coord(base@[j].1 as int, out@[j].1 as int, radius as int)
                    && jittered_angle(base@[j].2 as int, out@[j].2 as int, radius as int),
            forall|j: int| 0 <= j < k ==> 0 <= (#[trigger] out@[j]).0 && 0 <= out@[j].1 && 0 <= out@[j].2 < 360,
            src.cursor() == after_words::<S>(c0, (3 * k) as nat),
            forall|j: int|
                0 <= j < k ==> (#[trigger] out@[j]).0 == clamp0(
                    base@[j].0 + word_in_range::<S>(c0, 3 * j, -radius as int, radius as int),
                ) && out@[j].1 == clamp0(
                    base@[j].1 + word_in_range::<S>(c0, 3 * j + 1, -radius as int, radius as int),
                ) && out@[j].2 == fold360(
                    base@[j].2 + word_in_range::<S>(c0, 3 * j + 2, -radius as int, radius as int),
                ),
        decreases n - k,
    {
        proof {
            lemma_next_word::<S>(c0, (3 * k) as nat);
            lemma_next_word::<S>(c0, (3 * k + 1) as nat);
            lemma_next_word::<S>(c0, (3 * k + 2) as nat);
        }
        let (x, y, t) = base[k];
        proof {
            assert(i32::MIN + radius <= base@[k as int].0 <= i32::MAX - radius);
        }
        let dx = src.in_range(-radius, radius);
        let dy = src.in_range(-radius, radius);
        let dt = src.in_range(-radius, radius);
        let nx = if x + dx < 0 {
            0
        } else {
            x + dx
        };
        let ny = if y + dy < 0 {
            0
        } else {
            y + dy
        };
        let r = (t + dt) % 360;
        let nt = if r < 0 {
            r + 360
        } else {
            r
        };
        proof {
            assert(nx == clamp0(x + dx));
            assert(ny == clamp0(y + dy));
            assert(nt == fold360(t + dt));
        }
        out.push((nx, ny, nt));
        k += 1;
    }
    out
}

/// `width * height`, or `usize::MAX` when the product does not fit.
pub open spec fn saturating_area(width: int, height: int) -> int {
    if width * height > usize::MAX {
        usize::MAX as int
    } else {
        width * height
    }
}

/// `width * height` bytes of 8-bit grayscale noise drawn from `src`: the bytes one fill of that
/// length hands out.
pub fn gray_image<S: ByteSource>(src: &mut S, width: usize, height: usize) -> (v: Vec<u8>)
    ensures
        v@.len() == saturating_area(width as int, height as int),
        v@ == S::drawn(old(src).cursor(), saturating_area(width as int, height as int) as nat),
        final(src).cursor() == S::after(old(src).cursor(), saturating_area(width as int, height as int) as nat),
{
    let n: usize = if width != 0 && height > usize::MAX / width {
        proof {
            assert(width * height > usize::MAX) by (nonlinear_arith)
                requires
                    width != 0,
                    height > usize::MAX / width,
            ;
        }
        usize::MAX
    } else {
        proof {
            if width != 0 {
                assert(width * height <= usize::MAX) by (nonlinear_arith)
                    requires
                        width != 0,
                        height <= usize::MAX / width,
                ;
            }
        }
        width * height
    };
    let mut buf: Vec<u8> = vec![0u8; n];
    src.fill(buf.as_mut_slice());
    buf
}

} // verus!
