//! Allocation requests and the blocks that satisfy them.

use vstd::arithmetic::div_mod::{
    lemma_fundamental_div_mod, lemma_mod_bound, lemma_mod_multiples_basic,
};
use vstd::prelude::*;

verus! {

/// Error value reported when an allocation, growth or shrink request cannot
/// be satisfied within the managed segment.
#[derive(Clone, Copy, PartialEq, Eq, Structural, Debug)]
pub struct AllocError;

/// An allocation request: a byte size together with a power-of-two
/// alignment.
#[derive(Clone, Copy, PartialEq, Eq, Structural, Debug)]
pub struct Layout {
    pub size: usize,
    pub align: usize,
}

/// A block handed out by an allocator: the offset of its first byte within
/// the managed segment, and its size in bytes.
#[derive(Clone, Copy, PartialEq, Eq, Structural, Debug)]
pub struct Block {
    pub start: usize,
    pub size: usize,
}

/// Holds exactly for the powers of two.
pub open spec fn is_pow2(n: int) -> bool
    decreases n,
{
    if n <= 0 {
        false
    } else if n == 1 {
        true
    } else {
        n % 2 == 0 && is_pow2(n / 2)
    }
}

/// The least multiple of `a` that is at least `n`.
pub open spec fn align_up(n: int, a: int) -> int {
    if n % a == 0 {
        n
    } else {
        n + (a - n % a)
    }
}

/// `align_up(n, a)` is aligned, and lies within `a` bytes above `n`.
pub proof fn lemma_align_up(n: int, a: int)
    requires
        0 <= n,
        0 < a,
    ensures
        align_up(n, a) % a == 0,
        n <= align_up(n, a) < n + a,
{
    lemma_mod_bound(n, a);
    if n % a != 0 {
        lemma_fundamental_div_mod(n, a);
        assert(n + (a - n % a) == a * (n / a) + a);
        assert(a * (n / a) + a == (n / a + 1) * a) by (nonlinear_arith);
        lemma_mod_multiples_basic(n / a + 1, a);
    }
}

impl Layout {
    /// A request this crate can act on: the alignment is a power of two and
    /// rounding the size up to it cannot exceed the address range.
    pub open spec fn wf(&self) -> bool {
        is_pow2(self.align as int) && self.size + self.align - 1 <= isize::MAX
    }

    /// Builds a layout, rejecting a zero or non-power-of-two alignment and
    /// a size so large that rounding up to the alignment could overflow.
    pub fn from_size_align(size: usize, align: usize) -> (r: Option<Layout>)
        ensures
            r matches Some(l) ==> l.size == size && l.align == align && l.wf(),
            r is None ==> !(Layout { size, align }).wf(),
    {
        if !is_power_of_two(align) {
            return None;
        }
        assert(align >= 1);
        if align - 1 > isize::MAX as usize {
            return None;
        }
        if size > isize::MAX as usize - (align - 1) {
            return None;
        }
        Some(Layout { size, align })
    }

    /// The layout of a byte array of length `len`: alignment one.
    pub fn array_u8(len: usize) -> (r: Option<Layout>)
        ensures
            r matches Some(l) ==> l.size == len && l.align == 1 && l.wf(),
            r is None ==> len > isize::MAX,
    {
        Layout::from_size_align(len, 1)
    }
}

/// Decides whether `n` is a power of two by stripping factors of two.
pub fn is_power_of_two(n: usize) -> (b: bool)
    ensures
        b == is_pow2(n as int),
{
    if n == 0 {
        return false;
    }
    let mut m: usize = n;
    while m % 2 == 0
        invariant
            1 <= m <= n,
            is_pow2(m as int) == is_pow2(n as int),
        decreases m,
    {
        m = m / 2;
    }
    m == 1
}

} // verus!
