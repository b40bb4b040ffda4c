//! The memory segment an allocator is authorized to partition.
//!
//! A segment owns the managed bytes and remembers the model address at which
//! they sit, so contracts can speak about the alignment of allocated blocks
//! without touching machine pointers.  All returned allocation blocks are
//! sub-ranges of the segment, addressed by offset from its first byte.

use vstd::bytes::{spec_u64_from_le_bytes, spec_u64_to_le_bytes, u64_from_le_bytes, u64_to_le_bytes};
use vstd::prelude::*;

verus! {

/// `bytes` with the range starting at `at` replaced by `data`.
///
/// Meaningful when `0 <= at` and `at + data.len() <= bytes.len()`.
pub open spec fn spec_write_range(bytes: Seq<u8>, at: int, data: Seq<u8>) -> Seq<u8> {
    bytes.subrange(0, at) + data + bytes.subrange(at + data.len(), bytes.len() as int)
}

/// A sequence of `n` zero bytes.
pub open spec fn spec_zeros(n: int) -> Seq<u8> {
    Seq::new(n as nat, |i: int| 0u8)
}

/// Writing a range changes no byte outside it, and the range reads back
/// exactly what was written.
///
/// This is what makes the default growth path observably a move: the
/// grown block's first bytes are the old block's bytes, byte for byte.
pub proof fn lemma_write_range_reads_back(bytes: Seq<u8>, at: int, data: Seq<u8>)
    requires
        0 <= at,
        at + data.len() <= bytes.len(),
    ensures
        spec_write_range(bytes, at, data).len() == bytes.len(),
        spec_write_range(bytes, at, data).subrange(at, at + data.len() as int) == data,
        forall|i: int|
            0 <= i < bytes.len() && !(at <= i < at + data.len()) ==> spec_write_range(
                bytes,
                at,
                data,
            )[i] == bytes[i],
{
    assert(spec_write_range(bytes, at, data).subrange(at, at + data.len() as int) =~= data);
}

/// A contiguous range of bytes at a known model address.
///
/// The address `base` is the number the segment's first byte is considered
/// to live at; alignment of allocations is judged against it.  The whole
/// segment fits in the address range: `base + len <= usize::MAX`.
pub struct Segment {
    base: usize,
    bytes: Vec<u8>,
}

impl View for Segment {
    type V = Seq<u8>;

    closed spec fn view(&self) -> Seq<u8> {
        self.bytes@
    }
}

impl Segment {
    /// The model address of the segment's first byte.
    pub closed spec fn base_spec(&self) -> int {
        self.base as int
    }

    /// The whole segment fits in the address range.
    ///
    /// Constructors establish this and every operation preserves it; it is
    /// what lets `base + offset` arithmetic stay within `usize`.
    pub open spec fn wf(&self) -> bool {
        0 <= self.base_spec() && self.base_spec() + self@.len() <= usize::MAX
    }

    /// A zero-filled segment of `len` bytes at model address `base`.
    pub fn new(base: usize, len: usize) -> (s: Segment)
        requires
            base + len <= usize::MAX,
        ensures
            s.base_spec() == base,
            s@ == spec_zeros(len as int),
            s.wf(),
    {
        let mut bytes: Vec<u8> = Vec::new();
        let mut i: usize = 0;
        while i < len
            invariant
                i <= len,
                bytes@ == spec_zeros(i as int),
            decreases len - i,
        {
            bytes.push(0);
            assert(bytes@ =~= spec_zeros(i + 1));
            i = i + 1;
        }
        Segment { base, bytes }
    }

    /// Wraps caller-supplied bytes as a segment at model address `base`.
    pub fn from_vec(base: usize, bytes: Vec<u8>) -> (s: Segment)
        requires
            base + bytes@.len() <= usize::MAX,
        ensures
            s.base_spec() == base,
            s@ == bytes@,
            s.wf(),
    {
        Segment { base, bytes }
    }

    /// Releases the managed bytes back to the caller.
    pub fn into_vec(self) -> (r: Vec<u8>)
        ensures
            r@ == self@,
    {
        self.bytes
    }

    pub fn base(&self) -> (b: usize)
        ensures
            b == self.base_spec(),
    {
        self.base
    }

    pub fn len(&self) -> (n: usize)
        ensures
            n == self@.len(),
    {
        self.bytes.len()
    }

    pub fn read_byte(&self, i: usize) -> (b: u8)
        requires
            i < self@.len(),
        ensures
            b == self@[i as int],
    {
        self.bytes[i]
    }

    pub fn write_byte(&mut self, i: usize, v: u8)
        requires
            i < old(self)@.len(),
        ensures
            final(self)@ == old(self)@.update(i as int, v),
            final(self).base_spec() == old(self).base_spec(),
    {
        self.bytes.set(i, v);
    }

    /// Copies the range `[start, start + n)` out of the segment.
    pub fn read_range(&self, start: usize, n: usize) -> (r: Vec<u8>)
        requires
            start + n <= self@.len(),
        ensures
            r@ == self@.subrange(start as int, start + n),
    {
        let total: usize = self.bytes.len();
        let mut r: Vec<u8> = Vec::new();
        let mut i: usize = 0;
        while i < n
            invariant
                i <= n,
                start + n <= total,
                total == self@.len(),
                r@ == self@.subrange(start as int, start + i),
            decreases n - i,
        {
            r.push(self.bytes[start + i]);
            assert(r@ =~= self@.subrange(start as int, start + i + 1));
            i = i + 1;
        }
        r
    }

    /// Overwrites the range starting at `start` with `data`.
    pub fn write_range(&mut self, start: usize, data: &[u8])
        requires
            start + data@.len() <= old(self)@.len(),
        ensures
            final(self)@ == spec_write_range(old(self)@, start as int, data@),
            final(self).base_spec() == old(self).base_spec(),
    {
        let n: usize = data.len();
        let total: usize = self.bytes.len();
        let mut i: usize = 0;
        while i < n
            invariant
                i <= n,
                n == data@.len(),
                start + n <= total,
                total == self@.len(),
                self@.len() == old(self)@.len(),
                self.base_spec() == old(self).base_spec(),
                self@ == spec_write_range(old(self)@, start as int, data@.subrange(0, i as int)),
            decreases n - i,
        {
            self.bytes.set(start + i, data[i]);
            assert(self@ =~= spec_write_range(old(self)@, start as int, data@.subrange(0, i + 1)));
            i = i + 1;
        }
        assert(data@.subrange(0, n as int) =~= data@);
    }

    /// Fills the range `[start, start + n)` with the byte `v`.
    pub fn fill_range(&mut self, start: usize, n: usize, v: u8)
        requires
            start + n <= old(self)@.len(),
        ensures
            final(self)@ == spec_write_range(old(self)@, start as int, Seq::new(n as nat, |i: int| v)),
            final(self).base_spec() == old(self).base_spec(),
    {
        let total: usize = self.bytes.len();
        let mut i: usize = 0;
        while i < n
            invariant
                i <= n,
                start + n <= total,
                total == self@.len(),
                self@.len() == old(self)@.len(),
                self.base_spec() == old(self).base_spec(),
                self@ == spec_write_range(old(self)@, start as int, Seq::new(i as nat, |j: int| v)),
            decreases n - i,
        {
            self.bytes.set(start + i, v);
            assert(self@ =~= spec_write_range(old(self)@, start as int, Seq::new((i + 1) as nat, |j: int| v)));
            i = i + 1;
        }
    }

    /// Reads the little-endian 64-bit word stored at `start`.
    pub fn read_u64_le(&self, start: usize) -> (w: u64)
        requires
            start + 8 <= self@.len(),
        ensures
            w == spec_u64_from_le_bytes(self@.subrange(start as int, start + 8)),
    {
        let buf = self.read_range(start, 8);
        u64_from_le_bytes(buf.as_slice())
    }

    /// Stores `w` at `start` as a little-endian 64-bit word.
    pub fn write_u64_le(&mut self, start: usize, w: u64)
        requires
            start + 8 <= old(self)@.len(),
        ensures
            final(self)@ == spec_write_range(old(self)@, start as int, spec_u64_to_le_bytes(w)),
            final(self).base_spec() == old(self).base_spec(),
    {
        let buf = u64_to_le_bytes(w);
        self.write_range(start, buf.as_slice());
    }
}

} // verus!
