//! Row-major image addressing shared by every stage that reads a pixel or a block.

use vstd::prelude::*;

verus! {

/// Whether `(x, y)` addresses a cell of a `w`×`h` grid.
pub open spec fn in_grid(x: int, y: int, w: int, h: int) -> bool {
    0 <= x < w && 0 <= y < h
}

/// A `w`×`h` row-major grid held in a buffer of `len` cells, whose offsets fit `i32` arithmetic.
pub open spec fn grid_ok(len: int, w: int, h: int) -> bool {
    0 < w && 0 < h && w * h <= i32::MAX && w * h <= len
}

/// The cell at `(x, y)` of a row-major grid of width `w`.
pub open spec fn at<T>(b: Seq<T>, w: int, x: int, y: int) -> T {
    b[y * w + x]
}

/// The offset of an in-grid cell lies inside the grid.
pub proof fn lemma_offset(x: int, y: int, w: int, h: int)
    requires
        in_grid(x, y, w, h),
    ensures
        0 <= y * w,
        0 <= y * w + x < w * h,
{
    assert(0 <= y * w) by (nonlinear_arith)
        requires
            0 <= y,
            0 < w,
    ;
    assert(y * w + x < w * h) by (nonlinear_arith)
        requires
            0 <= x < w,
            0 <= y < h,
    ;
}

/// Two distinct in-grid cells have distinct offsets.
pub proof fn lemma_offset_injective(x1: int, y1: int, x2: int, y2: int, w: int, h: int)
    requires
        in_grid(x1, y1, w, h),
        in_grid(x2, y2, w, h),
        y1 * w + x1 == y2 * w + x2,
    ensures
        x1 == x2,
        y1 == y2,
{
    if y1 < y2 {
        assert(y1 * w + x1 < y2 * w + x2) by (nonlinear_arith)
            requires
                0 <= x1 < w,
                0 <= x2,
                y1 < y2,
        ;
    } else if y2 < y1 {
        assert(y2 * w + x2 < y1 * w + x1) by (nonlinear_arith)
            requires
                0 <= x2 < w,
                0 <= x1,
                y2 < y1,
        ;
    }
}

/// The pixel at `(x, y)` of a row-major 8-bit image of width `w`.
pub fn pixel(b: &[u8], w: i32, h: i32, x: i32, y: i32) -> (p: u8)
    requires
        grid_ok(b@.len() as int, w as int, h as int),
        in_grid(x as int, y as int, w as int, h as int),
    ensures
        p == at(b@, w as int, x as int, y as int),
{
    proof {
        lemma_offset(x as int, y as int, w as int, h as int);
    }
    b[(y * w + x) as usize]
}

/// The offset of `(x, y)` in a row-major buffer of `len` cells and width `w` is computed within
/// `i32` and falls inside the buffer, wherever the cell lies relative to an image.
pub open spec fn cell_ok(x: int, y: int, w: int, len: int) -> bool {
    &&& i32::MIN <= y * w <= i32::MAX
    &&& 0 <= y * w + x < len
    &&& y * w + x <= i32::MAX
}

/// An in-grid cell of a whole grid has an offset [`cell_ok`] admits.
pub proof fn lemma_in_grid_cell_ok(x: int, y: int, w: int, h: int, len: int)
    requires
        grid_ok(len, w, h),
        in_grid(x, y, w, h),
    ensures
        cell_ok(x, y, w, len),
{
    lemma_offset(x, y, w, h);
}

/// A pixel whose offset [`cell_ok`] admits and whose eight neighbours' coordinates fit `i32`.
pub open spec fn pixel_ok(x: int, y: int, w: int, len: int) -> bool {
    &&& cell_ok(x, y, w, len)
    &&& i32::MIN < x < i32::MAX
    &&& i32::MIN < y < i32::MAX
}

/// An in-grid pixel of a whole grid is one [`pixel_ok`] admits.
pub proof fn lemma_in_grid_pixel_ok(x: int, y: int, w: int, h: int, len: int)
    requires
        grid_ok(len, w, h),
        in_grid(x, y, w, h),
    ensures
        pixel_ok(x, y, w, len),
{
    lemma_offset(x, y, w, h);
    assert(w <= w * h && h <= w * h) by (nonlinear_arith)
        requires
            w >= 1,
            h >= 1,
    ;
}

/// The byte at the offset of `(x, y)` in a row-major buffer of width `w`.
pub fn byte_at(b: &[u8], w: i32, x: i32, y: i32) -> (p: u8)
    requires
        cell_ok(x as int, y as int, w as int, b@.len() as int),
    ensures
        p == at(b@, w as int, x as int, y as int),
{
    b[(y * w + x) as usize]
}

/// The entry at `(x, y)` of a row-major `i32` map of width `w`.
pub fn cell(m: &[i32], w: i32, h: i32, x: i32, y: i32) -> (v: i32)
    requires
        grid_ok(m@.len() as int, w as int, h as int),
        in_grid(x as int, y as int, w as int, h as int),
    ensures
        v == at(m@, w as int, x as int, y as int),
{
    proof {
        lemma_offset(x as int, y as int, w as int, h as int);
    }
    m[(y * w + x) as usize]
}

/// C's `%` on integers: the remainder truncated toward zero, taking the sign of the dividend.
pub open spec fn c_rem(a: int, b: int) -> int {
    if a >= 0 {
        a % b
    } else {
        -((-a) % b)
    }
}

} // verus!
