//! The bridge from a fuzzer's input to the generators: an [`arbitrary::Unstructured`] seen as a
//! [`ByteSource`], and the separation test the matcher's fuzz target applies to generated
//! minutiae.

use vstd::prelude::*;

use arbitrary::Unstructured;

use crate::bytes::ByteSource;

verus! {

/// The fuzzer's unstructured input.
#[verifier::external_type_specification]
#[verifier::external_body]
pub struct ExUnstructured<'a>(Unstructured<'a>);

/// The bytes an [`Unstructured`] has not yet handed out.
pub uninterp spec fn unstructured_data(u: Unstructured<'_>) -> Seq<u8>;

/// How many bytes a fill of `len` takes from `data`: all it asks for, or what is left.
pub open spec fn taken(len: int, data: Seq<u8>) -> int {
    if len <= data.len() {
        len
    } else {
        data.len() as int
    }
}

/// `arbitrary::Unstructured::fill_buffer`: copies the next bytes of the input into `buf`,
/// zero-padding once the input runs out, and consumes what it copied. It never fails (its
/// `Result` is always `Ok`, and is dropped here).
#[verifier::external_body]
fn fill_buffer_from(u: &mut Unstructured<'_>, buf: &mut [u8])
    ensures
        final(buf)@.len() == old(buf)@.len(),
        forall|k: int|
            0 <= k < taken(old(buf)@.len() as int, unstructured_data(*old(u))) ==> #[trigger] final(buf)@[k]
                == unstructured_data(*old(u))[k],
        forall|k: int|
            taken(old(buf)@.len() as int, unstructured_data(*old(u))) <= k < old(buf)@.len()
                ==> #[trigger] final(buf)@[k] == 0,
        unstructured_data(*final(u)) == unstructured_data(*old(u)).skip(
            taken(old(buf)@.len() as int, unstructured_data(*old(u))),
        ),
{
    let _ = u.fill_buffer(buf);
}

/// An [`Unstructured`] seen as a [`ByteSource`]: it pads with zeros once the input runs out, so
/// a generator's shape never depends on how much input is left.
pub struct Bytes<'a, 'u>(pub &'a mut Unstructured<'u>);

impl<'a, 'u> ByteSource for Bytes<'a, 'u> {
    /// The bytes of the input not yet handed out.
    type Cursor = Seq<u8>;

    open spec fn cursor(&self) -> Seq<u8> {
        unstructured_data(*self.0)
    }

    /// The input's next bytes, then zeros once it runs out.
    open spec fn drawn(c: Seq<u8>, n: nat) -> Seq<u8> {
        Seq::new(n, |k: int| if k < c.len() { c[k] } else { 0u8 })
    }

    /// What is left once a fill has taken what it asked for, or all there was.
    open spec fn after(c: Seq<u8>, n: nat) -> Seq<u8> {
        c.skip(taken(n as int, c))
    }

    fn fill(&mut self, buf: &mut [u8]) {
        fill_buffer_from(self.0, buf);
        assert(buf@ =~= Self::drawn(old(self).cursor(), old(buf)@.len() as nat));
    }
}

/// The smallest distance two generated minutiae may lie apart.
pub const MIN_SEPARATION: i32 = 8;

/// Minutiae `a` and `b` lie at least [`MIN_SEPARATION`] apart.
pub open spec fn apart(a: (i32, i32, i32), b: (i32, i32, i32)) -> bool {
    (a.0 - b.0) * (a.0 - b.0) + (a.1 - b.1) * (a.1 - b.1) >= MIN_SEPARATION * MIN_SEPARATION
}

/// Coordinates small enough that squared distances fit an `i32`.
pub open spec fn coords_small(m: Seq<(i32, i32, i32)>) -> bool {
    forall|k: int| 0 <= k < m.len() ==> 0 <= (#[trigger] m[k]).0 <= 0x4000 && 0 <= m[k].1 <= 0x4000
}

/// Whether every pair of `m` is at least [`MIN_SEPARATION`] apart.
pub fn well_separated(m: &[(i32, i32, i32)]) -> (r: bool)
    requires
        coords_small(m@),
    ensures
        r == forall|i: int, j: int| 0 <= j < i < m@.len() ==> #[trigger] apart(m@[i], m@[j]),
{
    let n = m.len();
    let mut i: usize = 0;
    while i < n
        invariant
            n == m@.len(),
            coords_small(m@),
            i <= n,
            forall|a: int, b: int| 0 <= b < a < i ==> #[trigger] apart(m@[a], m@[b]),
        decreases n - i,
    {
        let (ax, ay, _) = m[i];
        let mut j: usize = 0;
        while j < i
            invariant
                n == m@.len(),
                coords_small(m@),
                i < n,
                j <= i,
                ax == m@[i as int].0 && ay == m@[i as int].1,
                forall|a: int, b: int| 0 <= b < a < i ==> #[trigger] apart(m@[a], m@[b]),
                forall|b: int| 0 <= b < j ==> #[trigger] apart(m@[i as int], m@[b]),
            decreases i - j,
        {
            let (bx, by, _) = m[j];
            proof {
                assert(0 <= m@[j as int].0 <= 0x4000 && 0 <= m@[j as int].1 <= 0x4000);
                assert(0 <= m@[i as int].0 <= 0x4000 && 0 <= m@[i as int].1 <= 0x4000);
                assert((ax - bx) * (ax - bx) <= 0x4000 * 0x4000) by (nonlinear_arith)
                    requires
                        -0x4000 <= ax - bx <= 0x4000,
                ;
                assert((ay - by) * (ay - by) <= 0x4000 * 0x4000) by (nonlinear_arith)
                    requires
                        -0x4000 <= ay - by <= 0x4000,
                ;
                assert(0 <= (ax - bx) * (ax - bx)) by (nonlinear_arith);
                assert(0 <= (ay - by) * (ay - by)) by (nonlinear_arith);
            }
            let dx = ax - bx;
            let dy = ay - by;
            if dx * dx + dy * dy < MIN_SEPARATION * MIN_SEPARATION {
                assert(!apart(m@[i as int], m@[j as int]));
                return false;
            }
            j += 1;
        }
        i += 1;
    }
    true
}

} // verus!
