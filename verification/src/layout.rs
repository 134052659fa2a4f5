//! Size-and-alignment arithmetic for instance storage.
//!
//! A [`Layout`] is a byte size together with a power-of-two alignment. Layouts
//! are laid end to end with [`Layout::extend`], which pads the running size up
//! to the next segment's alignment and reports the offset it gave the segment.
use vstd::arithmetic::div_mod::{lemma_fundamental_div_mod, lemma_mod_multiples_basic};
use vstd::arithmetic::power2::is_pow2;
use vstd::prelude::*;

verus! {

/// A size in bytes and an alignment in bytes.
#[derive(Clone, Copy, Debug, PartialEq, Eq, Structural)]
pub struct Layout {
    pub size: usize,
    pub align: usize,
}

/// Whether `size` bytes at a power-of-two alignment `align` can be addressed:
/// the size, padded up to the alignment, must not pass `isize::MAX`.
pub open spec fn layout_fits(size: int, align: int) -> bool {
    &&& is_pow2(align)
    &&& align <= usize::MAX
    &&& 0 <= size <= isize::MAX - ((isize::MAX as int) % align)
}

/// `offset` is the least multiple of `align` that is not below `size`.
pub open spec fn is_padded_offset(offset: int, size: int, align: int) -> bool {
    &&& offset % align == 0
    &&& size <= offset < size + align
}

/// The least multiple of `align` that is not below `size`, for `align > 0`.
pub open spec fn round_up(size: int, align: int) -> int {
    if size % align == 0 {
        size
    } else {
        size + (align - size % align)
    }
}

/// `round_up` gives a multiple of the alignment, at or above the size and less
/// than one alignment above it.
pub proof fn lemma_round_up_is_padded(size: int, align: int)
    requires
        0 <= size,
        0 < align,
    ensures
        is_padded_offset(round_up(size, align), size, align),
{
    let q = size / align;
    lemma_fundamental_div_mod(size, align);
    if size % align != 0 {
        assert(round_up(size, align) == (q + 1) * align) by (nonlinear_arith)
            requires
                size == align * q + size % align,
                round_up(size, align) == size + (align - size % align),
        ;
        lemma_mod_multiples_basic(q + 1, align);
    }
}

/// No multiple of the alignment lies at or above the size and below `round_up`:
/// a padded offset is the least one, and so it is `round_up`.
pub proof fn lemma_padded_offset_is_round_up(offset: int, size: int, align: int)
    requires
        0 <= size,
        0 < align,
        is_padded_offset(offset, size, align),
    ensures
        offset == round_up(size, align),
{
    lemma_round_up_is_padded(size, align);
    let r = round_up(size, align);
    lemma_fundamental_div_mod(offset, align);
    lemma_fundamental_div_mod(r, align);
    let a = offset / align;
    let b = r / align;
    // two multiples of `align` less than `align` apart are equal
    assert(a == b) by (nonlinear_arith)
        requires
            0 < align,
            offset == align * a,
            r == align * b,
            offset - r < align,
            r - offset < align,
    ;
}

/// `round_up` is the least multiple of the alignment at or above the size: no
/// multiple of the alignment that is at or above the size lies below it.
pub proof fn lemma_round_up_is_least(size: int, align: int, multiple: int)
    requires
        0 <= size,
        0 < align,
        multiple % align == 0,
        size <= multiple,
    ensures
        round_up(size, align) <= multiple,
{
    lemma_round_up_is_padded(size, align);
    let r = round_up(size, align);
    lemma_fundamental_div_mod(multiple, align);
    lemma_fundamental_div_mod(r, align);
    let a = multiple / align;
    let b = r / align;
    if multiple < r {
        // size <= multiple < r < size + align, so r - multiple is a multiple
        // of align strictly between 0 and align
        assert(false) by (nonlinear_arith)
            requires
                0 < align,
                multiple == align * a,
                r == align * b,
                0 < r - multiple < align,
        ;
    }
}

/// Whether `n` is a power of two.
pub fn is_power_of_two(n: usize) -> (r: bool)
    ensures
        r == is_pow2(n as int),
{
    let mut m: usize = n;
    while m > 1 && m % 2 == 0
        invariant
            is_pow2(n as int) == is_pow2(m as int),
        decreases m,
    {
        proof {
            reveal(is_pow2);
        }
        m = m / 2;
    }
    proof {
        reveal(is_pow2);
    }
    m == 1
}

impl Layout {
    /// A layout is well formed when its size fits at its alignment.
    pub open spec fn wf(&self) -> bool {
        layout_fits(self.size as int, self.align as int)
    }

    /// The layout of nothing: no bytes, byte alignment.
    pub open spec fn empty() -> Layout {
        Layout { size: 0, align: 1 }
    }

    /// What [`Layout::extend`] computes: this layout followed by `next`, and the
    /// offset of `next` in it, or `None` where the result would not fit.
    pub open spec fn extend_spec(self, next: Layout) -> Option<(Layout, usize)> {
        let offset = round_up(self.size as int, next.align as int);
        let size = offset + next.size;
        let align = if self.align >= next.align {
            self.align
        } else {
            next.align
        };
        if layout_fits(size, align as int) {
            Some((Layout { size: size as usize, align }, offset as usize))
        } else {
            None
        }
    }

    /// Builds a layout, or `None` where `align` is no power of two or `size`
    /// does not fit at that alignment.
    pub fn from_size_align(size: usize, align: usize) -> (r: Option<Layout>)
        ensures
            r == (if layout_fits(size as int, align as int) {
                Some(Layout { size, align })
            } else {
                None
            }),
    {
        if !is_power_of_two(align) {
            return None;
        }
        proof {
            lemma_pow2_positive(align as int);
            lemma_pow2_mod_max(align as int);
        }
        let limit: usize = (isize::MAX as usize) - (isize::MAX as usize) % align;
        if size > limit {
            return None;
        }
        Some(Layout { size, align })
    }

    /// The layout of no bytes at byte alignment.
    pub fn new_empty() -> (r: Layout)
        ensures
            r == Layout::empty(),
            r.wf(),
    {
        proof {
            reveal(is_pow2);
        }
        Layout { size: 0, align: 1 }
    }

    pub fn size(&self) -> (r: usize)
        ensures
            r == self.size,
    {
        self.size
    }

    pub fn align(&self) -> (r: usize)
        ensures
            r == self.align,
    {
        self.align
    }

    /// Lays `next` out after this layout. The offset given to `next` is the
    /// least multiple of its alignment at or above this layout's size; the new
    /// size ends where `next` ends, and the new alignment is the larger of the
    /// two. `None` where the sum does not fit.
    pub fn extend(&self, next: &Layout) -> (r: Option<(Layout, usize)>)
        requires
            self.wf(),
            next.wf(),
        ensures
            r == self.extend_spec(*next),
            r matches Some((whole, offset)) ==> {
                &&& whole.wf()
                &&& is_padded_offset(offset as int, self.size as int, next.align as int)
                &&& whole.size == offset + next.size
                &&& whole.align >= self.align
                &&& whole.align >= next.align
                &&& (whole.align == self.align || whole.align == next.align)
            },
    {
        proof {
            lemma_pow2_positive(self.align as int);
            lemma_pow2_positive(next.align as int);
            lemma_round_up_is_padded(self.size as int, next.align as int);
            lemma_pow2_mod_max(next.align as int);
            lemma_pow2_mod_max(self.align as int);
        }
        let rem: usize = self.size % next.align;
        let offset: usize = if rem == 0 {
            self.size
        } else {
            self.size + (next.align - rem)
        };
        let align: usize = if self.align >= next.align {
            self.align
        } else {
            next.align
        };
        let limit: usize = (isize::MAX as usize) - (isize::MAX as usize) % align;
        if offset > limit {
            return None;
        }
        if next.size > limit - offset {
            return None;
        }
        Some((Layout { size: offset + next.size, align }, offset))
    }
}

/// A power of two is positive.
pub proof fn lemma_pow2_positive(n: int)
    requires
        is_pow2(n),
    ensures
        n > 0,
{
    reveal(is_pow2);
}

/// For a power of two that a `usize` holds, `isize::MAX` leaves the remainder
/// `align - 1`, so a size that fits at `align` stays at least `align - 1` below
/// `isize::MAX`.
pub proof fn lemma_pow2_mod_max(align: int)
    requires
        is_pow2(align),
        align <= usize::MAX,
    ensures
        (isize::MAX as int) % align == align - 1,
        align <= isize::MAX + 1,
{
    let big = isize::MAX + 1;
    lemma_pow2_positive(align);
    assert(is_pow2(big)) by {
        vstd::arithmetic::power2::lemma2_to64();
        vstd::arithmetic::power2::lemma2_to64_rest();
        assert(big == 0x8000_0000 || big == 0x8000_0000_0000_0000);
        vstd::arithmetic::power::lemma_pow_positive(2, 31);
        vstd::arithmetic::power::lemma_pow_positive(2, 63);
        assert(vstd::arithmetic::power2::pow2(31) == 0x8000_0000);
        assert(vstd::arithmetic::power2::pow2(63) == 0x8000_0000_0000_0000);
        assert(vstd::arithmetic::power::pow(2, 31) == 0x8000_0000);
        assert(vstd::arithmetic::power::pow(2, 63) == 0x8000_0000_0000_0000);
        assert(vstd::arithmetic::power2::is_pow2_exists(big));
        vstd::arithmetic::power2::is_pow2_equiv(big);
    }
    assert(usize::MAX == 2 * big - 1);
    if big < align {
        lemma_pow2_gap(align, big);
    }
    lemma_pow2_divides(align, big);
    let k = big / align;
    lemma_fundamental_div_mod(big, align);
    assert(big == align * k);
    assert(k >= 1) by (nonlinear_arith)
        requires
            big == align * k,
            big > 0,
            align > 0,
    ;
    assert(big - 1 == align * (k - 1) + (align - 1)) by (nonlinear_arith)
        requires
            big == align * k,
    ;
    vstd::arithmetic::div_mod::lemma_fundamental_div_mod_converse(
        big - 1,
        align,
        k - 1,
        align - 1,
    );
}

/// Of two powers of two, the smaller divides the larger.
pub proof fn lemma_pow2_divides(small: int, large: int)
    requires
        is_pow2(small),
        is_pow2(large),
        small <= large,
    ensures
        large % small == 0,
    decreases large,
{
    reveal(is_pow2);
    if small == large {
        vstd::arithmetic::div_mod::lemma_mod_self_0(small);
    } else {
        lemma_pow2_gap(large, small);
        assert(large % 2 == 0 && is_pow2(large / 2));
        lemma_pow2_divides(small, large / 2);
        let h = large / 2;
        lemma_fundamental_div_mod(h, small);
        let k = h / small;
        assert(h == small * k);
        assert(large == (2 * k) * small) by (nonlinear_arith)
            requires
                large == 2 * h,
                h == small * k,
        ;
        lemma_mod_multiples_basic(2 * k, small);
    }
}

/// A power of two above another one is at least its double.
pub proof fn lemma_pow2_gap(p: int, q: int)
    requires
        is_pow2(p),
        is_pow2(q),
        q < p,
    ensures
        2 * q <= p,
    decreases p,
{
    reveal(is_pow2);
    if q == 1 {
    } else {
        assert(p % 2 == 0 && is_pow2(p / 2));
        assert(q % 2 == 0 && is_pow2(q / 2));
        lemma_pow2_gap(p / 2, q / 2);
    }
}

} // verus!
