//! Relative pointers: offsets measured from their own storage location.
//!
//! A relative pointer stores the signed distance from the offset it is
//! written at to the offset of its pointee.  Dereferencing recomputes the
//! absolute position as `own_position + offset` at access time, so the
//! link stays valid when the pointer and its pointee move together —
//! whether the whole region is relocated or the structure is shifted
//! inside it (see [`lemma_rel_ptr_translation`]).

use vstd::prelude::*;

verus! {

/// A signed offset from the pointer's own storage location to its
/// pointee.
#[derive(Clone, Copy, PartialEq, Eq, Structural, Debug)]
pub struct RelPtr {
    offset: i64,
}

/// The offset that links location `from` to location `to`.
pub open spec fn spec_offset_between(from: int, to: int) -> int {
    to - from
}

/// The location that `offset` reaches from location `from`.
pub open spec fn spec_resolve(offset: int, from: int) -> int {
    from + offset
}

/// Linking two locations and resolving from the first gives back the
/// second.
pub proof fn lemma_rel_ptr_round_trip(from: int, to: int)
    ensures
        spec_resolve(spec_offset_between(from, to), from) == to,
{
}

/// A relative pointer is translation-invariant: moving the pointer's own
/// location by some distance moves the resolved location by exactly that
/// distance.  This is why a structure linked by relative pointers stays
/// intact when its bytes move as one unit.
pub proof fn lemma_rel_ptr_translation(offset: int, from: int, d: int)
    ensures
        spec_resolve(offset, from + d) == spec_resolve(offset, from) + d,
{
}

impl RelPtr {
    /// The stored offset.
    pub closed spec fn offset_spec(&self) -> int {
        self.offset as int
    }

    /// Writes the pointer that, stored at `from`, points to `to`.
    pub fn emplace_between(from: usize, to: usize) -> (r: RelPtr)
        requires
            i64::MIN < to - from <= i64::MAX,
        ensures
            r.offset_spec() == spec_offset_between(from as int, to as int),
    {
        if to >= from {
            RelPtr { offset: (to - from) as i64 }
        } else {
            RelPtr { offset: -((from - to) as i64) }
        }
    }

    /// The absolute location of the pointee, recomputed from the
    /// pointer's own location.
    pub fn resolve(&self, from: usize) -> (r: usize)
        requires
            0 <= from + self.offset_spec() <= usize::MAX,
        ensures
            r == spec_resolve(self.offset_spec(), from as int),
    {
        if self.offset >= 0 {
            from + (self.offset as usize)
        } else {
            let back: u64 = (-(self.offset as i128)) as u64;
            from - (back as usize)
        }
    }

    /// The pointer's persisted form: the offset's two's-complement bits.
    pub fn to_bits(&self) -> (w: u64)
        ensures
            w == self.offset_spec() as u64,
    {
        self.offset as u64
    }

    /// The pointer read back from its persisted form.
    pub fn from_bits(w: u64) -> (r: RelPtr)
        ensures
            r.offset_spec() == w as i64,
    {
        RelPtr { offset: w as i64 }
    }
}

/// Persisting a relative pointer and reading it back preserves it.
pub proof fn lemma_rel_ptr_bits_round_trip(p: RelPtr)
    ensures
        (p.offset_spec() as u64) as i64 == p.offset_spec(),
{
    let x = p.offset;
    assert((x as u64) as i64 == x) by (bit_vector);
}

} // verus!
