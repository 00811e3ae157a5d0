//! The grayscale image the detector takes, the minutia it reports, and the image plumbing run
//! before block analysis: the 6-bit rescale (`>> 2`) and its inverse (`<< 2`), and padding with a
//! constant border.

use vstd::prelude::*;

use crate::text::{decimal, decimal_string};

verus! {

/// The smallest image dimension the detector can process, in pixels: the block-map window
/// (`24` pixels) plus one, which is tighter than the `8`-pixel block.
pub const MIN_DETECTABLE_DIM: usize = 25;

/// Medium gray, the intensity the padding border is filled with.
pub const PAD_VALUE: u8 = 128;

/// One detected minutia in NIST `xyt` form: origin bottom-left, `theta` in whole degrees on
/// `0..=359` counter-clockwise from east, and a reliability `quality` (higher is better).
#[derive(Clone, Copy, PartialEq, Eq, Debug, Default)]
pub struct Minutia {
    /// Pixel column, origin bottom-left.
    pub x: i32,
    /// Pixel row, origin bottom-left, increasing upward.
    pub y: i32,
    /// Ridge orientation in degrees, `0..=359`.
    pub theta: i32,
    /// Reliability estimate; higher is better.
    pub quality: i32,
}

impl Minutia {
    /// The `(x, y, theta)` triple, dropping `quality`.
    pub fn as_xyt(&self) -> (r: (i32, i32, i32))
        ensures
            r == (self.x, self.y, self.theta),
    {
        (self.x, self.y, self.theta)
    }
}

/// Why [`GrayImage::new`] refused an image.
#[derive(Debug, Clone, PartialEq, Eq, Structural)]
#[non_exhaustive]
pub enum ImageError {
    /// The pixel buffer is shorter than `width * height`.
    BufferTooShort {
        /// Stated width in pixels.
        width: usize,
        /// Stated height in pixels.
        height: usize,
        /// Length of the buffer supplied.
        got: usize,
    },
    /// A dimension is below [`MIN_DETECTABLE_DIM`].
    TooSmall {
        /// Stated width in pixels.
        width: usize,
        /// Stated height in pixels.
        height: usize,
        /// The smallest dimension the detector can process.
        min: usize,
    },
    /// A dimension, or the area `width * height`, exceeds `i32::MAX`.
    TooLarge {
        /// Stated width in pixels.
        width: usize,
        /// Stated height in pixels.
        height: usize,
    },
}

/// An 8-bit grayscale image, row-major, one byte per pixel (0 black, 255 white), with its scan
/// resolution in pixels per inch. The buffer holds at least `width * height` bytes; trailing
/// bytes are ignored.
#[derive(Clone, Copy, Debug)]
pub struct GrayImage<'a> {
    data: &'a [u8],
    width: usize,
    height: usize,
    ppi: u16,
}

/// What [`GrayImage::new`] answers for a buffer of `len` bytes said to hold a `width`×`height`
/// image: too large when a dimension or the area exceeds `i32::MAX`, else too small when a
/// dimension is below [`MIN_DETECTABLE_DIM`], else too short when the buffer cannot hold the
/// area; otherwise accepted.
pub open spec fn image_check(len: int, width: int, height: int) -> Option<ImageError> {
    if width > i32::MAX || height > i32::MAX || width * height > i32::MAX {
        Some(ImageError::TooLarge { width: width as usize, height: height as usize })
    } else if width < MIN_DETECTABLE_DIM || height < MIN_DETECTABLE_DIM {
        Some(
            ImageError::TooSmall {
                width: width as usize,
                height: height as usize,
                min: MIN_DETECTABLE_DIM,
            },
        )
    } else if len < width * height {
        Some(
            ImageError::BufferTooShort {
                width: width as usize,
                height: height as usize,
                got: len as usize,
            },
        )
    } else {
        None
    }
}

impl<'a> GrayImage<'a> {
    /// The buffer holds the whole image and the area fits `i32` pixel arithmetic.
    #[verifier::type_invariant]
    pub closed spec fn wf(self) -> bool {
        &&& self.width * self.height <= self.data@.len()
        &&& self.width * self.height <= i32::MAX
        &&& self.width <= i32::MAX
        &&& self.height <= i32::MAX
    }

    /// The pixel buffer.
    pub closed spec fn pixels(self) -> Seq<u8> {
        self.data@
    }

    /// The width in pixels.
    pub closed spec fn w(self) -> int {
        self.width as int
    }

    /// The height in pixels.
    pub closed spec fn h(self) -> int {
        self.height as int
    }

    /// The scan resolution.
    pub closed spec fn resolution(self) -> int {
        self.ppi as int
    }

    /// Wrap a row-major 8-bit buffer, checking that the detector can process the stated image.
    ///
    /// Refused, in this order: [`ImageError::TooLarge`] when a dimension or the area exceeds
    /// `i32::MAX`; [`ImageError::TooSmall`] when a dimension is below [`MIN_DETECTABLE_DIM`];
    /// [`ImageError::BufferTooShort`] when `data` holds fewer than `width * height` bytes.
    pub fn new(data: &'a [u8], width: usize, height: usize, ppi: u16) -> (r: Result<
        GrayImage<'a>,
        ImageError,
    >)
        ensures
            match image_check(data@.len() as int, width as int, height as int) {
                Some(e) => r == Err::<GrayImage<'a>, ImageError>(e),
                None => r matches Ok(img) && img.pixels() == data@ && img.w() == width && img.h()
                    == height && img.resolution() == ppi,
            },
    {
        let limit: usize = 0x7fff_ffff;
        if width > limit || height > limit {
            return Err(ImageError::TooLarge { width, height });
        }
        assert((width as u64) * (height as u64) <= 0x7fff_ffff * 0x7fff_ffff) by (nonlinear_arith)
            requires
                width <= 0x7fff_ffff,
                height <= 0x7fff_ffff,
        ;
        let area: u64 = (width as u64) * (height as u64);
        if area > 0x7fff_ffff {
            return Err(ImageError::TooLarge { width, height });
        }
        if width < MIN_DETECTABLE_DIM || height < MIN_DETECTABLE_DIM {
            return Err(ImageError::TooSmall { width, height, min: MIN_DETECTABLE_DIM });
        }
        if (data.len() as u64) < area {
            return Err(ImageError::BufferTooShort { width, height, got: data.len() });
        }
        Ok(GrayImage { data, width, height, ppi })
    }

    /// Wrap a buffer without the detectability floor; the buffer must still hold the image.
    pub fn from_parts_unchecked(data: &'a [u8], width: usize, height: usize, ppi: u16) -> (img:
        GrayImage<'a>)
        requires
            width * height <= data@.len(),
            width * height <= i32::MAX,
            width <= i32::MAX,
            height <= i32::MAX,
        ensures
            img.pixels() == data@ && img.w() == width && img.h() == height && img.resolution()
                == ppi,
    {
        GrayImage { data, width, height, ppi }
    }

    /// Image width in pixels.
    pub fn width(&self) -> (r: usize)
        ensures
            r == self.w(),
            r <= i32::MAX,
    {
        proof {
            use_type_invariant(self);
        }
        self.width
    }

    /// Image height in pixels.
    pub fn height(&self) -> (r: usize)
        ensures
            r == self.h(),
            r <= i32::MAX,
    {
        proof {
            use_type_invariant(self);
        }
        self.height
    }

    /// Scan resolution in pixels per inch.
    pub fn ppi(&self) -> (r: u16)
        ensures
            r == self.resolution(),
    {
        self.ppi
    }

    /// The pixel buffer, row-major; it holds at least `width * height` bytes.
    pub fn data(&self) -> (r: &[u8])
        ensures
            r@ == self.pixels(),
            self.w() * self.h() <= r@.len(),
            self.w() * self.h() <= i32::MAX,
    {
        proof {
            use_type_invariant(self);
        }
        self.data
    }
}

/// A pixel scaled from 8 to 6 bits.
pub open spec fn to_6bit(v: u8) -> u8 {
    v / 4
}

/// A pixel scaled from 6 to 8 bits, keeping the low byte as an 8-bit shift does.
pub open spec fn to_8bit(v: u8) -> u8 {
    ((v as int * 4) % 256) as u8
}

/// A right shift by two divides by four.
proof fn lemma_shr2(v: u8)
    ensures
        v >> 2 == v / 4,
{
    assert(v >> 2 == v / 4) by (bit_vector);
}

/// A left shift by two multiplies by four, dropping what leaves the byte.
proof fn lemma_shl2(v: u8)
    ensures
        (v << 2) as int == (v as int * 4) % 256,
{
    assert((v << 2) as int == (v as int * 4) % 256) by (bit_vector);
}

/// Scale every pixel from 8-bit `0..256` down to 6-bit `0..64` (`>> 2`).
pub fn bits_8to6(idata: &mut [u8])
    ensures
        final(idata)@.len() == old(idata)@.len(),
        forall|k: int| 0 <= k < old(idata)@.len() ==> #[trigger] final(idata)@[k] == to_6bit(old(idata)@[k]),
        forall|k: int| 0 <= k < old(idata)@.len() ==> #[trigger] final(idata)@[k] < 64,
{
    let ghost d0 = idata@;
    let n = idata.len();
    let mut k: usize = 0;
    while k < n
        invariant
            n == d0.len() && idata@.len() == n,
            k <= n,
            forall|j: int| 0 <= j < k ==> #[trigger] idata@[j] == to_6bit(d0[j]),
            forall|j: int| k <= j < n ==> #[trigger] idata@[j] == d0[j],
        decreases n - k,
    {
        let v = idata[k];
        proof {
            lemma_shr2(v);
        }
        idata[k] = v >> 2;
        k += 1;
    }
}

/// Scale every pixel from 6-bit `0..64` back up to 8 bits (`<< 2`); a value of `64` or more
/// loses its high bits, as a byte shift does.
pub fn bits_6to8(idata: &mut [u8])
    ensures
        final(idata)@.len() == old(idata)@.len(),
        forall|k: int| 0 <= k < old(idata)@.len() ==> #[trigger] final(idata)@[k] == to_8bit(old(idata)@[k]),
{
    let ghost d0 = idata@;
    let n = idata.len();
    let mut k: usize = 0;
    while k < n
        invariant
            n == d0.len() && idata@.len() == n,
            k <= n,
            forall|j: int| 0 <= j < k ==> #[trigger] idata@[j] == to_8bit(d0[j]),
            forall|j: int| k <= j < n ==> #[trigger] idata@[j] == d0[j],
        decreases n - k,
    {
        let v = idata[k];
        proof {
            lemma_shl2(v);
        }
        idata[k] = v << 2;
        k += 1;
    }
}

/// Scaling down to 6 bits and back up keeps a pixel but for its two low bits; scaling a 6-bit
/// pixel up and back down returns it unchanged.
pub proof fn lemma_rescale_round_trip(v: u8)
    ensures
        to_8bit(to_6bit(v)) == v - v % 4,
        v < 64 ==> to_6bit(to_8bit(v)) == v,
{
}

/// The pixel at `(x, y)` of the image padded by `pad` on every side with `pad_value`.
pub open spec fn padded_at(
    img: Seq<u8>,
    iw: int,
    ih: int,
    pad: int,
    pad_value: u8,
    x: int,
    y: int,
) -> u8 {
    if pad <= x < pad + iw && pad <= y < pad + ih {
        img[(y - pad) * iw + (x - pad)]
    } else {
        pad_value
    }
}

/// The padded image has a size that fits the machine.
pub open spec fn pad_fits(iw: int, ih: int, pad: int) -> bool {
    (iw + 2 * pad) * (ih + 2 * pad) <= usize::MAX && iw + 2 * pad <= usize::MAX && ih + 2 * pad
        <= usize::MAX
}

/// Offsets of a row-major grid.
proof fn lemma_cell_offset(x: int, y: int, w: int, h: int)
    requires
        0 <= x < w,
        0 <= y < h,
    ensures
        0 <= y * w + x < w * h,
        y * w + x + 1 <= w * h,
{
    assert(0 <= y * w) by (nonlinear_arith)
        requires
            0 <= y,
            0 < w,
    ;
    assert(y * w + x < w * h) by (nonlinear_arith)
        requires
            0 <= x < w,
            0 <= y < h,
    ;
}

/// Distinct cells have distinct offsets.
proof fn lemma_cell_injective(x1: int, y1: int, x2: int, y2: int, w: int)
    requires
        0 <= x1 < w,
        0 <= x2 < w,
        y1 * w + x1 == y2 * w + x2,
    ensures
        x1 == x2 && y1 == y2,
{
    if y1 < y2 {
        assert(y1 * w + x1 < y2 * w + x2) by (nonlinear_arith)
            requires
                0 <= x1 < w,
                0 <= x2,
                y1 < y2,
        ;
    } else if y2 < y1 {
        assert(y2 * w + x2 < y1 * w + x1) by (nonlinear_arith)
            requires
                0 <= x2 < w,
                0 <= x1,
                y2 < y1,
        ;
    }
}

/// Copy an 8-bit image into a larger buffer, centred, with `pad` pixels of constant `pad_value`
/// on every side. Returns the padded pixels and their dimensions `(iw + 2*pad, ih + 2*pad)`.
pub fn pad_uchar_image(idata: &[u8], iw: usize, ih: usize, pad: usize, pad_value: u8) -> (r: (
    Vec<u8>,
    usize,
    usize,
))
    requires
        iw * ih <= idata@.len(),
        pad_fits(iw as int, ih as int, pad as int),
    ensures
        r.1 == iw + 2 * pad,
        r.2 == ih + 2 * pad,
        r.0@.len() == r.1 * r.2,
        forall|x: int, y: int|
            0 <= x < r.1 && 0 <= y < r.2 ==> #[trigger] r.0@[y * r.1 + x] == padded_at(
                idata@,
                iw as int,
                ih as int,
                pad as int,
                pad_value,
                x,
                y,
            ),
{
    let pad2 = pad * 2;
    let pw = iw + pad2;
    let ph = ih + pad2;
    let ghost (w, h, p) = (pw as int, ph as int, pad as int);
    let _len = idata.len();
    let mut pdata: Vec<u8> = vec![pad_value; pw * ph];
    proof {
        assert forall|x: int, y: int| 0 <= x < w && 0 <= y < h implies #[trigger] pdata@[y * w + x]
            == pad_value by {
            lemma_cell_offset(x, y, w, h);
        }
    }
    let mut row: usize = 0;
    while row < ih
        invariant
            iw * ih <= idata@.len() <= usize::MAX,
            pad_fits(iw as int, ih as int, pad as int),
            w == pw && h == ph && p == pad && pw == iw + 2 * pad && ph == ih + 2 * pad,
            pdata@.len() == pw * ph,
            row <= ih,
            forall|x: int, y: int|
                0 <= x < w && 0 <= y < h ==> #[trigger] pdata@[y * w + x] == if y < p + row {
                    padded_at(idata@, iw as int, ih as int, p, pad_value, x, y)
                } else {
                    pad_value
                },
        decreases ih - row,
    {
        let mut col: usize = 0;
        while col < iw
            invariant
                iw * ih <= idata@.len() <= usize::MAX,
                pad_fits(iw as int, ih as int, pad as int),
                w == pw && h == ph && p == pad && pw == iw + 2 * pad && ph == ih + 2 * pad,
                pdata@.len() == pw * ph,
                row < ih,
                col <= iw,
                forall|x: int, y: int|
                    0 <= x < w && 0 <= y < h ==> #[trigger] pdata@[y * w + x] == if y < p + row || (y
                        == p + row && p <= x < p + col) {
                        padded_at(idata@, iw as int, ih as int, p, pad_value, x, y)
                    } else {
                        pad_value
                    },
            decreases iw - col,
        {
            proof {
                lemma_cell_offset(col as int, row as int, iw as int, ih as int);
                lemma_cell_offset(p + col, p + row, w, h);
            }
            let src = row * iw + col;
            let dst = (pad + row) * pw + pad + col;
            let ghost before = pdata@;
            pdata.set(dst, idata[src]);
            proof {
                assert forall|x: int, y: int| 0 <= x < w && 0 <= y < h implies #[trigger] pdata@[y
                    * w + x] == if y < p + row || (y == p + row && p <= x < p + col + 1) {
                    padded_at(idata@, iw as int, ih as int, p, pad_value, x, y)
                } else {
                    pad_value
                } by {
                    lemma_cell_offset(x, y, w, h);
                    if y * w + x == dst {
                        lemma_cell_injective(x, y, p + col, p + row, w);
                    } else {
                        assert(pdata@[y * w + x] == before[y * w + x]);
                    }
                }
            }
            col += 1;
        }
        row += 1;
    }
    (pdata, pw, ph)
}

/// The padded working buffer for an image: padded by `maxpad` with [`PAD_VALUE`] when
/// `maxpad > 0`, otherwise a plain copy of the image at its original size (the first
/// `width * height` bytes; trailing bytes of a longer buffer are ignored, as everywhere else).
pub fn pad_gray_image(img: &GrayImage<'_>, maxpad: usize) -> (r: (Vec<u8>, usize, usize))
    requires
        maxpad > 0 ==> pad_fits(img.w(), img.h(), maxpad as int),
    ensures
        maxpad > 0 ==> r.1 == img.w() + 2 * maxpad && r.2 == img.h() + 2 * maxpad && r.0@.len()
            == r.1 * r.2 && forall|x: int, y: int|
            0 <= x < r.1 && 0 <= y < r.2 ==> #[trigger] r.0@[y * r.1 + x] == padded_at(
                img.pixels(),
                img.w(),
                img.h(),
                maxpad as int,
                PAD_VALUE,
                x,
                y,
            ),
        maxpad == 0 ==> r.0@ == img.pixels().subrange(0, img.w() * img.h()) && r.1 == img.w()
            && r.2 == img.h() && r.0@.len() == r.1 * r.2,
{
    if maxpad > 0 {
        pad_uchar_image(img.data(), img.width(), img.height(), maxpad, PAD_VALUE)
    } else {
        let d = img.data();
        let n = img.width() * img.height();
        let mut out: Vec<u8> = Vec::with_capacity(n);
        let mut k: usize = 0;
        while k < n
            invariant
                n <= d@.len(),
                k <= n,
                out@ == d@.subrange(0, k as int),
            decreases n - k,
        {
            out.push(d[k]);
            k += 1;
            assert(out@ =~= d@.subrange(0, k as int));
        }
        (out, img.width(), img.height())
    }
}

/// `w * h`, or `usize::MAX` where the product does not fit.
pub open spec fn saturating_area(w: usize, h: usize) -> nat {
    if w * h > usize::MAX {
        usize::MAX as nat
    } else {
        (w * h) as nat
    }
}

impl ImageError {
    /// The text of the error.
    pub open spec fn text(&self) -> Seq<char> {
        match *self {
            ImageError::BufferTooShort { width, height, got } => "grayscale buffer holds "@ + decimal(
                got as nat,
            ) + " bytes, need "@ + decimal(saturating_area(width, height)) + " for a "@ + decimal(
                width as nat,
            ) + "x"@ + decimal(height as nat) + " image"@,
            ImageError::TooSmall { width, height, min } => "image "@ + decimal(width as nat) + "x"@
                + decimal(height as nat)
                + " is too small to detect minutiae: each dimension must be at least "@ + decimal(
                min as nat,
            ) + " pixels"@,
            ImageError::TooLarge { width, height } => "image "@ + decimal(width as nat) + "x"@
                + decimal(height as nat) + " is too large: each dimension must be at most "@
                + decimal(i32::MAX as nat),
        }
    }

    /// The error as a sentence, naming the dimensions and the bound broken.
    pub fn message(&self) -> (s: String)
        ensures
            s@ == self.text(),
    {
        match *self {
            ImageError::BufferTooShort { width, height, got } => {
                let area: usize = match width.checked_mul(height) {
                    Some(a) => a,
                    None => usize::MAX,
                };
                String::from_str("grayscale buffer holds ").concat(decimal_string(got).as_str()).concat(
                    " bytes, need ",
                ).concat(decimal_string(area).as_str()).concat(" for a ").concat(
                    decimal_string(width).as_str(),
                ).concat("x").concat(decimal_string(height).as_str()).concat(" image")
            },
            ImageError::TooSmall { width, height, min } => {
                String::from_str("image ").concat(decimal_string(width).as_str()).concat("x").concat(
                    decimal_string(height).as_str(),
                ).concat(" is too small to detect minutiae: each dimension must be at least ").concat(
                    decimal_string(min).as_str(),
                ).concat(" pixels")
            },
            ImageError::TooLarge { width, height } => {
                String::from_str("image ").concat(decimal_string(width).as_str()).concat("x").concat(
                    decimal_string(height).as_str(),
                ).concat(" is too large: each dimension must be at most ").concat(
                    decimal_string(0x7fff_ffff).as_str(),
                )
            },
        }
    }
}

impl<'a> GrayImage<'a> {
    /// The image's geometry as text, without its pixels.
    pub fn describe(&self) -> (s: String)
        ensures
            s@ == "GrayImage { "@ + decimal(self.w() as nat) + "x"@ + decimal(self.h() as nat) + " @ "@
                + decimal(self.resolution() as nat) + "ppi }"@,
    {
        String::from_str("GrayImage { ").concat(decimal_string(self.width).as_str()).concat("x").concat(
            decimal_string(self.height).as_str(),
        ).concat(" @ ").concat(decimal_string(self.ppi as usize).as_str()).concat("ppi }")
    }
}

} // verus!
