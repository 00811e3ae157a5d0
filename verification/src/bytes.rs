//! A byte source, and the seeded generator that drives it for reproducible test inputs.

use vstd::prelude::*;

verus! {

/// A drawn word folded onto a range of `span` values.
pub open spec fn fold_word(w: u32, span: int) -> int {
    (w as int) % span
}

/// Whether a drawn word, modulo `d`, falls below `n`.
pub open spec fn draw_below(w: u32, n: u32, d: u32) -> bool {
    (w % d) < n
}

/// The word four bytes make, little-endian.
pub open spec fn le_word(b: Seq<u8>) -> u32 {
    (b[0] as int + b[1] as int * 0x100 + b[2] as int * 0x1_0000 + b[3] as int * 0x100_0000) as u32
}

/// A stream of bytes a generator draws from. One required method, so an adapter over another
/// stream (a fuzzer's input, say) is a few lines.
pub trait ByteSource {
    /// What a source's position in its stream is recorded as.
    type Cursor;

    /// Where this source stands in its stream: everything it hands out from here on depends on
    /// this alone.
    spec fn cursor(&self) -> Self::Cursor;

    /// The `n` bytes a fill of `n` hands out from `c`.
    spec fn drawn(c: Self::Cursor, n: nat) -> Seq<u8>;

    /// Where the source stands after a fill of `n` from `c`.
    spec fn after(c: Self::Cursor, n: nat) -> Self::Cursor;

    /// Fill `buf` completely with the next bytes of the stream. A finite source repeats, pads or
    /// wraps; it may not leave `buf` short.
    fn fill(&mut self, buf: &mut [u8])
        ensures
            final(buf)@.len() == old(buf)@.len(),
            final(buf)@ == Self::drawn(old(self).cursor(), old(buf)@.len() as nat),
            final(self).cursor() == Self::after(old(self).cursor(), old(buf)@.len() as nat),
    ;

    /// One byte.
    fn u8(&mut self) -> (r: u8)
        ensures
            r == Self::drawn(old(self).cursor(), 1)[0],
            final(self).cursor() == Self::after(old(self).cursor(), 1),
    {
        let mut b: Vec<u8> = vec![0u8; 1];
        self.fill(b.as_mut_slice());
        b[0]
    }

    /// Four bytes, little-endian.
    fn u32(&mut self) -> (r: u32)
        ensures
            r == le_word(Self::drawn(old(self).cursor(), 4)),
            final(self).cursor() == Self::after(old(self).cursor(), 4),
    {
        let mut b: Vec<u8> = vec![0u8; 4];
        self.fill(b.as_mut_slice());
        (b[0] as u32) + (b[1] as u32) * 0x100 + (b[2] as u32) * 0x1_0000 + (b[3] as u32)
            * 0x100_0000
    }

    /// A value in `lo..=hi` (`lo` must not exceed `hi`): `lo` plus four drawn bytes modulo the
    /// width of the range. Modulo-biased on purpose: how many bytes are drawn never depends on
    /// their values.
    fn in_range(&mut self, lo: i32, hi: i32) -> (r: i32)
        requires
            lo <= hi,
        ensures
            lo <= r <= hi,
            r == lo + fold_word(le_word(Self::drawn(old(self).cursor(), 4)), hi - lo + 1),
            final(self).cursor() == Self::after(old(self).cursor(), 4),
    {
        let span: i64 = (hi as i64) - (lo as i64) + 1;
        let w = self.u32();
        let offset: i64 = ((w as u64) % (span as u64)) as i64;
        proof {
            assert(offset == fold_word(w, hi - lo + 1));
        }
        ((lo as i64) + offset) as i32
    }

    /// True with probability about `n / d` (`d` must not be zero): four drawn bytes modulo `d`
    /// fall below `n`. So `n == 0` never fires and `n >= d` always does.
    fn ratio(&mut self, n: u32, d: u32) -> (r: bool)
        requires
            d > 0,
        ensures
            r == draw_below(le_word(Self::drawn(old(self).cursor(), 4)), n, d),
            final(self).cursor() == Self::after(old(self).cursor(), 4),
            n == 0 ==> !r,
            n >= d ==> r,
    {
        let w = self.u32();
        let r = w % d < n;
        assert(r == draw_below(w, n, d));
        r
    }
}

/// The word the next four bytes from `c` make, little-endian.
pub open spec fn word_at<S: ByteSource + ?Sized>(c: S::Cursor) -> u32 {
    le_word(S::drawn(c, 4))
}

/// Where a source stands after `k` four-byte draws from `c`.
pub open spec fn after_words<S: ByteSource + ?Sized>(c: S::Cursor, k: nat) -> S::Cursor
    decreases k,
{
    if k == 0 {
        c
    } else {
        S::after(after_words::<S>(c, (k - 1) as nat), 4)
    }
}

/// The `k`-th four-byte word drawn from `c` (counting from zero).
pub open spec fn nth_word<S: ByteSource + ?Sized>(c: S::Cursor, k: nat) -> u32 {
    word_at::<S>(after_words::<S>(c, k))
}

/// The multiplier of the generator.
pub const LCG_MUL: u64 = 6_364_136_223_846_793_005;

/// The increment of the generator.
pub const LCG_INC: u64 = 1_442_695_040_888_963_407;

/// One step of the generator: `state * LCG_MUL + LCG_INC` modulo `2^64`.
pub open spec fn lcg_step(s: u64) -> u64 {
    s.wrapping_mul(LCG_MUL).wrapping_add(LCG_INC)
}

/// The state after `n` steps from `s`.
pub open spec fn lcg_nth(s: u64, n: nat) -> u64
    decreases n,
{
    if n == 0 {
        s
    } else {
        lcg_step(lcg_nth(s, (n - 1) as nat))
    }
}

/// Byte `j` (little-endian) of the word `w`.
pub open spec fn word_byte(w: u64, j: u64) -> u8 {
    (w >> (8 * j)) as u8
}

/// A seeded linear congruential generator: reproducible bytes from a `u64` on any machine.
pub struct Lcg {
    seed: u64,
    state: u64,
}

impl Lcg {
    /// The seed the generator was built from.
    pub closed spec fn seed_of(&self) -> u64 {
        self.seed
    }

    /// The generator's current state.
    pub closed spec fn state_of(&self) -> u64 {
        self.state
    }

    /// A generator for `seed`.
    pub fn new(seed: u64) -> (g: Lcg)
        ensures
            g.seed_of() == seed,
            g.state_of() == seed,
    {
        Lcg { seed, state: seed }
    }

    /// The seed this was built from, for a failure message.
    pub fn seed(&self) -> (s: u64)
        ensures
            s == self.seed_of(),
    {
        self.seed
    }

    /// Advance one step and return the new state.
    fn next(&mut self) -> (w: u64)
        ensures
            w == lcg_step(old(self).state_of()),
            final(self).state_of() == w,
            final(self).seed_of() == old(self).seed_of(),
    {
        self.state = self.state.wrapping_mul(LCG_MUL).wrapping_add(LCG_INC);
        self.state
    }
}

impl ByteSource for Lcg {
    /// The generator's state.
    type Cursor = u64;

    open spec fn cursor(&self) -> u64 {
        self.state_of()
    }

    /// Byte `k` comes from the state `k / 8 + 1` steps ahead, little-endian within its word.
    open spec fn drawn(c: u64, n: nat) -> Seq<u8> {
        Seq::new(n, |k: int| word_byte(lcg_nth(c, (k / 8 + 1) as nat), (k % 8) as u64))
    }

    /// One step per eight bytes, a last partial word included.
    open spec fn after(c: u64, n: nat) -> u64 {
        lcg_nth(c, ((n + 7) / 8) as nat)
    }

    /// Fill `buf` eight bytes at a time, each eight from the next state, little-endian; the last
    /// word is cut to the bytes left.
    fn fill(&mut self, buf: &mut [u8])
        ensures
            forall|k: int|
                0 <= k < old(buf)@.len() ==> #[trigger] final(buf)@[k] == word_byte(
                    lcg_nth(old(self).state_of(), (k / 8 + 1) as nat),
                    (k % 8) as u64,
                ),
            final(self).state_of() == lcg_nth(old(self).state_of(), ((old(buf)@.len() + 7) / 8) as nat),
            final(self).seed_of() == old(self).seed_of(),
    {
        let ghost s0 = self.state_of();
        let n = buf.len();
        let mut k: usize = 0;
        let ghost mut c: nat = 0;
        while k < n
            invariant
                n == buf@.len() && n == old(buf)@.len(),
                k <= n,
                k < n ==> k == 8 * c,
                k == n ==> c == ((n + 7) / 8) as nat,
                self.state_of() == lcg_nth(s0, c),
                self.seed_of() == old(self).seed_of(),
                s0 == old(self).state_of(),
                forall|j: int| 0 <= j < k ==> #[trigger] buf@[j] == word_byte(
                    lcg_nth(s0, (j / 8 + 1) as nat),
                    (j % 8) as u64,
                ),
            decreases n - k,
        {
            let word = self.next();
            let take: usize = if n - k < 8 {
                n - k
            } else {
                8
            };
            let mut j: usize = 0;
            while j < take
                invariant
                    n == buf@.len(),
                    k == 8 * c,
                    k < n,
                    1 <= take <= 8,
                    k + take <= n,
                    j <= take,
                    word == lcg_nth(s0, c + 1),
                    forall|q: int| 0 <= q < k + j ==> #[trigger] buf@[q] == word_byte(
                        lcg_nth(s0, (q / 8 + 1) as nat),
                        (q % 8) as u64,
                    ),
                decreases take - j,
            {
                proof {
                    vstd::arithmetic::div_mod::lemma_fundamental_div_mod_converse(
                        (k + j) as int,
                        8,
                        c as int,
                        j as int,
                    );
                }
                buf[k + j] = (word >> (8 * (j as u64))) as u8;
                j += 1;
            }
            proof {
                if k + take == n {
                    vstd::arithmetic::div_mod::lemma_fundamental_div_mod_converse(
                        (n + 7) as int,
                        8,
                        (c + 1) as int,
                        (take - 1) as int,
                    );
                }
                c = c + 1;
            }
            k += take;
        }
        assert(buf@ =~= Self::drawn(old(self).state_of(), n as nat));
    }
}

} // verus!
