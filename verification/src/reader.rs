//! A cursor-based reader over a borrowed byte slice, offering fixed-width
//! little-endian integer reads, relative skips, and power-of-two alignment.
//! It knows nothing of the meaning of the bytes it walks.

use vstd::arithmetic::div_mod::lemma_fundamental_div_mod;
use vstd::arithmetic::div_mod::lemma_mod_bound;
use vstd::arithmetic::div_mod::lemma_mod_multiples_basic;
use vstd::arithmetic::power::lemma_pow_positive;
use vstd::arithmetic::power2::is_pow2;
use vstd::arithmetic::power2::is_pow2_equiv;
use vstd::arithmetic::power2::lemma_pow2_strictly_increases;
use vstd::arithmetic::power2::pow2;
use vstd::bits::lemma_usize_low_bits_mask_is_mod;
use vstd::bits::low_bits_mask;
use vstd::layout::unsigned_int_max_values;
use vstd::prelude::*;

verus! {

/// The value of the `n` bytes of `s` starting at `pos`, read as a
/// little-endian integer: the byte at `pos` is the least significant.
pub open spec fn le_int(s: Seq<u8>, pos: int, n: nat) -> int
    decreases n,
{
    if n == 0 {
        0
    } else {
        s[pos] + 256 * le_int(s, pos + 1, (n - 1) as nat)
    }
}

/// `256^n`, the exclusive upper bound of an `n`-byte little-endian value.
pub open spec fn pow256(n: nat) -> int
    decreases n,
{
    if n == 0 {
        1
    } else {
        256 * pow256((n - 1) as nat)
    }
}

/// An `n`-byte little-endian value lies in `[0, 256^n)`.
pub proof fn lemma_le_int_bound(s: Seq<u8>, pos: int, n: nat)
    ensures
        0 <= le_int(s, pos, n) < pow256(n),
    decreases n,
{
    if n > 0 {
        lemma_le_int_bound(s, pos + 1, (n - 1) as nat);
    }
}

/// An 8-byte little-endian value is the 4-byte value at `pos` plus
/// `2^32` times the 4-byte value at `pos + 4`.
pub proof fn lemma_le_int_8_split(s: Seq<u8>, pos: int)
    ensures
        le_int(s, pos, 8) == le_int(s, pos, 4) + 0x1_0000_0000 * le_int(s, pos + 4, 4),
{
    reveal_with_fuel(le_int, 9);
}

/// The smallest multiple of `a` that is at least `x`.
pub open spec fn align_up(x: int, a: int) -> int {
    ((x + a - 1) / a) * a
}

/// `align_up(x, a)` is the multiple of `a` in the window `[x, x + a)`.
pub proof fn lemma_align_up(x: int, a: int)
    requires
        0 <= x,
        0 < a,
    ensures
        align_up(x, a) % a == 0,
        x <= align_up(x, a) < x + a,
{
    let n = x + a - 1;
    let q = n / a;
    lemma_fundamental_div_mod(n, a);
    lemma_mod_bound(n, a);
    lemma_mod_multiples_basic(q, a);
    assert(q * a == a * q) by (nonlinear_arith);
}

/// Any multiple of `a` in the window `[x, x + a)` is `align_up(x, a)`:
/// the window holds exactly one multiple.
pub proof fn lemma_align_up_unique(x: int, a: int, r: int)
    requires
        0 <= x,
        0 < a,
        r % a == 0,
        x <= r < x + a,
    ensures
        r == align_up(x, a),
{
    lemma_align_up(x, a);
    let u = align_up(x, a);
    let qr = r / a;
    let qu = u / a;
    lemma_fundamental_div_mod(r, a);
    lemma_fundamental_div_mod(u, a);
    assert(qr == qu) by (nonlinear_arith)
        requires
            a > 0,
            a * qr < a * qu + a,
            a * qu < a * qr + a,
    ;
}

/// A power of two `a` that fits a `usize` is `pow2(n)` for an exponent
/// below the word width.
proof fn lemma_pow2_exponent(a: usize)
    requires
        is_pow2(a as int),
    ensures
        a >= 1,
        exists|n: nat| n < usize::BITS && a as nat == pow2(n),
{
    is_pow2_equiv(a as int);
    let i = choose|i: nat| vstd::arithmetic::power::pow(2, i) == a as int;
    lemma_pow_positive(2, i);
    unsigned_int_max_values();
    if i >= usize::BITS {
        if i > usize::BITS {
            lemma_pow2_strictly_increases(usize::BITS as nat, i);
        }
        assert(false);
    }
    assert(i < usize::BITS && a as nat == pow2(i));
}

/// A position-tracking view over a byte slice. Reads and skips advance the
/// cursor; nothing here re-validates the slice against any declared size,
/// so every operation states its own bounds as a precondition.
pub struct ByteReader<'a> {
    buf: &'a [u8],
    cursor: usize,
}

impl<'a> ByteReader<'a> {
    /// The bytes the reader walks.
    pub closed spec fn bytes(self) -> Seq<u8> {
        self.buf@
    }

    /// The cursor: an offset into `bytes()`.
    pub closed spec fn pos(self) -> int {
        self.cursor as int
    }

    /// Returns a new byte reader positioned at the start of `buf`.
    pub fn new(buf: &'a [u8]) -> (r: ByteReader<'a>)
        ensures
            r.bytes() == buf@,
            r.pos() == 0,
    {
        ByteReader { buf, cursor: 0 }
    }

    /// The bytes are a slice, so their length fits a `usize`.
    pub proof fn lemma_bytes_fit(self)
        ensures
            self.bytes().len() <= usize::MAX,
    {
        vstd::slice::axiom_spec_len(self.buf);
    }

    /// Returns the cursor's current offset into the bytes.
    pub fn position(&self) -> (r: usize)
        ensures
            r == self.pos(),
    {
        self.cursor
    }

    /// Moves the cursor forward by `amount` bytes without reading.
    pub fn skip(&mut self, amount: usize)
        requires
            old(self).pos() + amount <= usize::MAX,
        ensures
            final(self).bytes() == old(self).bytes(),
            final(self).pos() == old(self).pos() + amount,
    {
        self.cursor = self.cursor + amount;
    }

    /// Aligns the cursor to the next byte boundary of the given size, which
    /// must be a power of two; a no-op if the cursor is already aligned.
    /// Computed as `(cursor + align - 1) & !(align - 1)`.
    pub fn align(&mut self, align: usize)
        requires
            is_pow2(align as int),
            old(self).pos() + align - 1 <= usize::MAX,
        ensures
            final(self).bytes() == old(self).bytes(),
            final(self).pos() == align_up(old(self).pos(), align as int),
    {
        proof {
            lemma_pow2_exponent(align);
        }
        let sum: usize = self.cursor + (align - 1);
        let aligned: usize = sum & !(align - 1);
        proof {
            let n = choose|n: nat| n < usize::BITS && align as nat == pow2(n);
            let m = (align - 1) as usize;
            lemma_usize_low_bits_mask_is_mod(sum, n);
            assert(low_bits_mask(n) as usize == m);
            assert((sum & !m) + (sum & m) == sum && sum & m <= sum) by (bit_vector);
            let a = align as int;
            let si = sum as int;
            lemma_fundamental_div_mod(si, a);
            lemma_mod_multiples_basic(si / a, a);
            lemma_mod_bound(si, a);
            lemma_align_up_unique(self.cursor as int, a, aligned as int);
        }
        self.cursor = aligned;
    }

    /// Reads the byte at the cursor and advances the cursor by 1.
    pub fn read_u8(&mut self) -> (r: u8)
        requires
            old(self).pos() + 1 <= old(self).bytes().len(),
        ensures
            final(self).bytes() == old(self).bytes(),
            final(self).pos() == old(self).pos() + 1,
            r == old(self).bytes()[old(self).pos()],
    {
        let b = self.buf[self.cursor];
        self.cursor = self.cursor + 1;
        b
    }

    /// Reads a little-endian `u32` at the cursor and advances the cursor
    /// by 4 bytes.
    pub fn read_u32(&mut self) -> (r: u32)
        requires
            old(self).pos() + 4 <= old(self).bytes().len(),
        ensures
            final(self).bytes() == old(self).bytes(),
            final(self).pos() == old(self).pos() + 4,
            r == le_int(old(self).bytes(), old(self).pos(), 4),
    {
        let b0 = self.read_u8();
        let b1 = self.read_u8();
        let b2 = self.read_u8();
        let b3 = self.read_u8();
        let r = b0 as u32 + b1 as u32 * 0x100 + b2 as u32 * 0x1_0000 + b3 as u32 * 0x100_0000;
        proof {
            reveal_with_fuel(le_int, 5);
        }
        r
    }

    /// Reads a little-endian `u64` at the cursor and advances the cursor
    /// by 8 bytes.
    pub fn read_u64(&mut self) -> (r: u64)
        requires
            old(self).pos() + 8 <= old(self).bytes().len(),
        ensures
            final(self).bytes() == old(self).bytes(),
            final(self).pos() == old(self).pos() + 8,
            r == le_int(old(self).bytes(), old(self).pos(), 8),
    {
        let lo = self.read_u32();
        let hi = self.read_u32();
        proof {
            lemma_le_int_8_split(self.bytes(), old(self).pos());
            lemma_le_int_bound(self.bytes(), old(self).pos(), 8);
        }
        lo as u64 + hi as u64 * 0x1_0000_0000
    }
}

} // verus!
