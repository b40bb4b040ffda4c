//! A string with an optimization for short contents, emplaced in a region.
//!
//! The string stores its bytes in one of two representations keyed off a
//! single capacity field, with no explicit tag bit:
//!
//! * **inline** — `cap <= INLINE_CAPACITY`: the bytes live directly in the
//!   structure's own fixed-size storage, and `cap` doubles as the logical
//!   length;
//! * **spilled** — `cap > INLINE_CAPACITY`: the structure holds the offset
//!   and length of a separately allocated buffer inside the region, and
//!   `cap` holds the true backing capacity.
//!
//! Corrupting `cap` corrupts the interpretation of the rest, so the
//! comparison against the threshold is centralized in one place
//! ([`RelShortString::is_inline`]) and every public operation's contract
//! is stated over it.

use crate::allocator::ContiguousAllocator;
use crate::layout::{AllocError, Block, Layout};
use crate::rel_ptr::{lemma_rel_ptr_bits_round_trip, spec_resolve, RelPtr};
use crate::segment::lemma_write_range_reads_back;
use vstd::bytes::{
    lemma_auto_spec_u64_to_from_le_bytes, spec_u64_from_le_bytes, spec_u64_to_le_bytes,
    u64_from_le_bytes, u64_to_le_bytes,
};
use vstd::pervasive::unreached;
use vstd::prelude::*;

verus! {

/// The byte size of the out-of-line record (an offset word and a length
/// word): contents up to this long are stored inline.
pub const INLINE_CAPACITY: usize = 16;

/// The layout of the out-of-line buffer backing contents of length `n`:
/// a byte array, alignment one.
pub open spec fn spec_payload_layout(n: int) -> Layout {
    Layout { size: n as usize, align: 1 }
}

/// A relative counterpart to `String`, with inline storage for short
/// contents.
pub struct RelShortString {
    inline: Vec<u8>,
    ptr: usize,
    len: usize,
    cap: usize,
}

impl RelShortString {
    /// Whether the contents are stored inline.
    pub open spec fn is_inline_spec(&self) -> bool {
        self.cap_field() <= INLINE_CAPACITY
    }

    /// The capacity field, which discriminates the two representations.
    pub closed spec fn cap_field(&self) -> int {
        self.cap as int
    }

    /// The offset of the spilled buffer (meaningful when spilled).
    pub closed spec fn ptr_field(&self) -> int {
        self.ptr as int
    }

    /// The length of the spilled contents (meaningful when spilled).
    pub closed spec fn len_field(&self) -> int {
        self.len as int
    }

    /// The inline storage (meaningful when inline).
    pub closed spec fn inline_field(&self) -> Seq<u8> {
        self.inline@
    }

    /// Structural consistency: the inline storage has its fixed size,
    /// and a spilled string's length never exceeds its backing capacity,
    /// which is a capacity an allocation can have had.
    pub open spec fn wf(&self) -> bool {
        &&& self.inline_field().len() == INLINE_CAPACITY
        &&& !self.is_inline_spec() ==> self.len_field() <= self.cap_field() <= isize::MAX
    }

    /// The spilled backing buffer — all `cap` bytes of it — lies in the
    /// usable window `[lo, cap)` of the region the string was emplaced
    /// in.  Inline strings touch no region byte, so the condition is
    /// vacuous for them.
    pub open spec fn in_region(&self, lo: int, cap: int) -> bool {
        !self.is_inline_spec() ==> lo <= self.ptr_field() && self.ptr_field() + self.cap_field()
            <= cap
    }

    /// The logical length, in bytes.
    pub open spec fn spec_len(&self) -> int {
        if self.is_inline_spec() {
            self.cap_field()
        } else {
            self.len_field()
        }
    }

    /// The capacity, in bytes: at least the inline storage's size.
    pub open spec fn spec_capacity(&self) -> int {
        if self.cap_field() > INLINE_CAPACITY {
            self.cap_field()
        } else {
            INLINE_CAPACITY as int
        }
    }

    /// The string's contents, given the bytes of the region it was
    /// emplaced in.
    pub open spec fn contents(&self, region: Seq<u8>) -> Seq<u8> {
        if self.is_inline_spec() {
            self.inline_field().subrange(0, self.cap_field())
        } else {
            region.subrange(self.ptr_field(), self.ptr_field() + self.len_field())
        }
    }

    /// The out-of-line block backing a spilled string: its offset and
    /// its full capacity.
    pub open spec fn backing_block(&self) -> Block {
        Block { start: self.ptr_field() as usize, size: self.cap_field() as usize }
    }

    /// The string after `clear`: empty, same representation, same
    /// capacity.
    pub closed spec fn clear_spec(&self) -> RelShortString {
        if self.is_inline_spec() {
            RelShortString { cap: 0, ..*self }
        } else {
            RelShortString { len: 0, ..*self }
        }
    }

    /// Whether the contents are stored inline, decided — as everywhere —
    /// by comparing the capacity field against the threshold.
    fn is_inline(&self) -> (b: bool)
        ensures
            b == self.is_inline_spec(),
    {
        self.cap <= INLINE_CAPACITY
    }

    /// Builds a string holding `data`'s bytes, allocating an out-of-line
    /// buffer from `alloc` exactly when the contents do not fit inline.
    ///
    /// Contents of at most [`INLINE_CAPACITY`] bytes are always accepted
    /// and never allocate; longer contents perform exactly one allocation
    /// of their own size, and fail exactly when that allocation fails.
    pub fn emplace_clone<A: ContiguousAllocator>(alloc: &mut A, data: &[u8]) -> (r: Result<
        RelShortString,
        AllocError,
    >)
        requires
            old(alloc).wf(),
        ensures
            final(alloc).wf(),
            final(alloc).base() == old(alloc).base(),
            final(alloc).lo() == old(alloc).lo(),
            final(alloc).cap() == old(alloc).cap(),
            data@.len() <= INLINE_CAPACITY ==> r is Ok && *final(alloc) == *old(alloc),
            data@.len() > INLINE_CAPACITY && spec_payload_layout(data@.len() as int).wf() && old(
                alloc,
            ).alloc_transition(spec_payload_layout(data@.len() as int)).1 is Ok ==> r is Ok,
            r matches Ok(s) ==> {
                &&& s.wf()
                &&& s.spec_len() == data@.len()
                &&& s.is_inline_spec() == (data@.len() <= INLINE_CAPACITY)
                &&& s.in_region(final(alloc).lo(), final(alloc).cap())
                &&& s.contents(final(alloc).region()) == data@
                &&& data@.len() <= INLINE_CAPACITY ==> s.spec_capacity() == INLINE_CAPACITY
                &&& data@.len() > INLINE_CAPACITY ==> {
                    &&& final(alloc).allocs() == old(alloc).allocs() + 1
                    &&& s.spec_capacity() == data@.len()
                    &&& s.spec_capacity() > INLINE_CAPACITY
                    &&& old(alloc).used() <= s.ptr_field()
                    &&& s.ptr_field() + s.cap_field() <= final(alloc).used()
                    &&& final(alloc).used() == old(alloc).alloc_transition(
                        spec_payload_layout(data@.len() as int),
                    ).0.used()
                    &&& old(alloc).alloc_transition(spec_payload_layout(data@.len() as int)).1
                        matches Ok(b) ==> s.ptr_field() == b.start
                    &&& final(alloc).released() == old(alloc).released()
                }
            },
            r is Ok ==> forall|i: int|
                0 <= i < old(alloc).cap() && !(old(alloc).used() <= i < final(alloc).used())
                    ==> final(alloc).region()[i] == old(alloc).region()[i],
            r is Err ==> {
                &&& data@.len() > INLINE_CAPACITY
                &&& final(alloc).region() == old(alloc).region()
                &&& final(alloc).allocs() == old(alloc).allocs()
                &&& spec_payload_layout(data@.len() as int).wf() ==> {
                    &&& old(alloc).alloc_transition(spec_payload_layout(data@.len() as int)).1
                        is Err
                    &&& *final(alloc) == old(alloc).alloc_transition(
                        spec_payload_layout(data@.len() as int),
                    ).0
                }
                &&& !spec_payload_layout(data@.len() as int).wf() ==> *final(alloc) == *old(alloc)
            },
    {
        let n = data.len();
        if n <= INLINE_CAPACITY {
            let mut inline: Vec<u8> = Vec::new();
            let mut i: usize = 0;
            while i < n
                invariant
                    i <= n <= INLINE_CAPACITY,
                    n == data@.len(),
                    inline@ == data@.subrange(0, i as int),
                decreases n - i,
            {
                inline.push(data[i]);
                assert(inline@ =~= data@.subrange(0, i + 1));
                i = i + 1;
            }
            assert(inline@ =~= data@);
            while i < INLINE_CAPACITY
                invariant
                    n <= i <= INLINE_CAPACITY,
                    n == data@.len(),
                    inline@.len() == i,
                    inline@.subrange(0, n as int) == data@,
                decreases INLINE_CAPACITY - i,
            {
                inline.push(0);
                assert(inline@.subrange(0, n as int) =~= data@);
                i = i + 1;
            }
            let s = RelShortString { inline, ptr: 0, len: 0, cap: n };
            assert(s.contents(final(alloc).region()) =~= data@);
            Ok(s)
        } else {
            let layout = match Layout::array_u8(n) {
                Some(l) => l,
                None => {
                    return Err(AllocError);
                },
            };
            assert(layout == spec_payload_layout(data@.len() as int));
            let block = match alloc.allocate(layout) {
                Ok(b) => b,
                Err(_) => {
                    return Err(AllocError);
                },
            };
            proof {
                alloc.lemma_wf();
            }
            let ghost region0 = alloc.region();
            alloc.region_write(block.start, data);
            proof {
                lemma_write_range_reads_back(region0, block.start as int, data@);
            }
            let mut inline: Vec<u8> = Vec::new();
            let mut i: usize = 0;
            while i < INLINE_CAPACITY
                invariant
                    i <= INLINE_CAPACITY,
                    inline@.len() == i,
                decreases INLINE_CAPACITY - i,
            {
                inline.push(0);
                i = i + 1;
            }
            let s = RelShortString { inline, ptr: block.start, len: n, cap: n };
            assert(s.contents(final(alloc).region()) =~= data@);
            Ok(s)
        }
    }

    /// Copies the string's contents out of the region.
    pub fn as_bytes<A: ContiguousAllocator>(&self, alloc: &A) -> (r: Vec<u8>)
        requires
            self.wf(),
            alloc.wf(),
            self.in_region(alloc.lo(), alloc.cap()),
        ensures
            r@ == self.contents(alloc.region()),
    {
        if self.is_inline() {
            let mut r: Vec<u8> = Vec::new();
            let mut i: usize = 0;
            while i < self.cap
                invariant
                    self.wf(),
                    self.is_inline_spec(),
                    i <= self.cap_field(),
                    r@ == self.inline_field().subrange(0, i as int),
                decreases self.cap - i,
            {
                r.push(self.inline[i]);
                assert(r@ =~= self.inline_field().subrange(0, i + 1));
                i = i + 1;
            }
            r
        } else {
            proof {
                alloc.lemma_wf();
            }
            alloc.region_read(self.ptr, self.len)
        }
    }

    /// The length of the contents, in bytes.
    pub fn len(&self) -> (n: usize)
        ensures
            n == self.spec_len(),
    {
        if self.is_inline() {
            self.cap
        } else {
            self.len
        }
    }

    /// Whether the string is empty.
    pub fn is_empty(&self) -> (b: bool)
        ensures
            b == (self.spec_len() == 0),
    {
        self.len() == 0
    }

    /// The string's capacity, in bytes.
    pub fn capacity(&self) -> (n: usize)
        ensures
            n == self.spec_capacity(),
    {
        if self.cap > INLINE_CAPACITY {
            self.cap
        } else {
            INLINE_CAPACITY
        }
    }

    /// Tears the string down, releasing the spilled backing buffer — if
    /// any — back to the allocator it came from.  An inline string owns
    /// no external resource, so there is nothing else to do.
    pub fn dispose<A: ContiguousAllocator>(self, alloc: &mut A)
        requires
            old(alloc).wf(),
            self.wf(),
            self.in_region(old(alloc).lo(), old(alloc).cap()),
        ensures
            final(alloc).wf(),
            final(alloc).base() == old(alloc).base(),
            final(alloc).lo() == old(alloc).lo(),
            final(alloc).cap() == old(alloc).cap(),
            final(alloc).region() == old(alloc).region(),
            final(alloc).allocs() == old(alloc).allocs(),
            self.is_inline_spec() ==> *final(alloc) == *old(alloc),
            !self.is_inline_spec() ==> {
                &&& final(alloc).released() == old(alloc).released().push(self.backing_block())
                &&& *final(alloc) == old(alloc).dealloc_transition(
                    self.backing_block(),
                    spec_payload_layout(self.cap_field()),
                )
            },
    {
        if !self.is_inline() {
            let layout = match Layout::array_u8(self.cap) {
                Some(l) => l,
                None => {
                    return unreached();
                },
            };
            assert(layout == spec_payload_layout(self.cap_field()));
            proof {
                alloc.lemma_wf();
            }
            let block = Block { start: self.ptr, size: self.cap };
            assert(block == self.backing_block());
            alloc.deallocate(block, layout);
        }
    }

    /// Overwrites the byte at index `i` of the string's contents.
    pub fn set_byte<A: ContiguousAllocator>(&mut self, alloc: &mut A, i: usize, v: u8)
        requires
            old(self).wf(),
            old(alloc).wf(),
            old(self).in_region(old(alloc).lo(), old(alloc).cap()),
            i < old(self).spec_len(),
        ensures
            final(self).wf(),
            final(self).spec_len() == old(self).spec_len(),
            final(self).spec_capacity() == old(self).spec_capacity(),
            final(self).is_inline_spec() == old(self).is_inline_spec(),
            final(self).in_region(final(alloc).lo(), final(alloc).cap()),
            final(self).contents(final(alloc).region()) == old(self).contents(
                old(alloc).region(),
            ).update(i as int, v),
            final(alloc).wf(),
            final(alloc).base() == old(alloc).base(),
            final(alloc).lo() == old(alloc).lo(),
            final(alloc).cap() == old(alloc).cap(),
            final(alloc).allocs() == old(alloc).allocs(),
            final(alloc).used() == old(alloc).used(),
            final(alloc).released() == old(alloc).released(),
            old(self).is_inline_spec() ==> *final(alloc) == *old(alloc),
            !old(self).is_inline_spec() ==> *final(self) == *old(self),
    {
        if self.is_inline() {
            self.inline.set(i, v);
            assert(final(self).contents(final(alloc).region()) =~= old(self).contents(
                old(alloc).region(),
            ).update(i as int, v));
        } else {
            proof {
                alloc.lemma_wf();
            }
            let buf: [u8; 1] = [v];
            alloc.region_write(self.ptr + i, buf.as_slice());
            assert(final(self).contents(final(alloc).region()) =~= old(self).contents(
                old(alloc).region(),
            ).update(i as int, v));
        }
    }

    /// Truncates the string, removing all contents.
    ///
    /// The string will have a length of zero, but its capacity is not
    /// affected.
    pub fn clear(&mut self)
        ensures
            *final(self) == old(self).clear_spec(),
            final(self).spec_len() == 0,
            final(self).spec_capacity() == old(self).spec_capacity(),
            final(self).is_inline_spec() == old(self).is_inline_spec(),
    {
        if self.is_inline() {
            self.cap = 0;
        } else {
            self.len = 0;
        }
    }
}

/// The size of a string record emplaced into a region: the
/// [`INLINE_CAPACITY`]-byte representation field, then the capacity field
/// as a little-endian 64-bit word.
pub const RECORD_SIZE: usize = 24;

/// The capacity field of the record at `slot`.
pub open spec fn spec_record_cap(region: Seq<u8>, slot: int) -> int {
    spec_u64_from_le_bytes(region.subrange(slot + 16, slot + 24)) as int
}

/// The position of the record's spilled payload: the relative word at
/// the record's start, taken as a signed offset from the record's own
/// position (meaningful when the record is spilled).
pub open spec fn spec_record_target(region: Seq<u8>, slot: int) -> int {
    spec_resolve((spec_u64_from_le_bytes(region.subrange(slot, slot + 8)) as i64) as int, slot)
}

/// The length of the record's contents.
pub open spec fn spec_record_len(region: Seq<u8>, slot: int) -> int {
    if spec_record_cap(region, slot) <= INLINE_CAPACITY {
        spec_record_cap(region, slot)
    } else {
        spec_u64_from_le_bytes(region.subrange(slot + 8, slot + 16)) as int
    }
}

/// The contents of the record at `slot`: the inline bytes, or the bytes
/// the relative pointer links to.
pub open spec fn spec_record_contents(region: Seq<u8>, slot: int) -> Seq<u8> {
    if spec_record_cap(region, slot) <= INLINE_CAPACITY {
        region.subrange(slot, slot + spec_record_cap(region, slot))
    } else {
        region.subrange(
            spec_record_target(region, slot),
            spec_record_target(region, slot) + spec_record_len(region, slot),
        )
    }
}

/// The record at `slot` is fully initialized and self-contained inside
/// the usable window `[lo, region.len())`.
pub open spec fn spec_record_wf(region: Seq<u8>, lo: int, slot: int) -> bool {
    &&& 0 <= lo <= slot
    &&& slot + RECORD_SIZE <= region.len()
    &&& spec_record_cap(region, slot) > INLINE_CAPACITY ==> {
        &&& lo <= spec_record_target(region, slot)
        &&& spec_record_target(region, slot) + spec_record_len(region, slot) <= region.len()
        &&& spec_record_len(region, slot) <= spec_record_cap(region, slot)
    }
}

impl RelShortString {
    /// Writes a complete, fully initialized string record for `data`
    /// into the slot of [`RECORD_SIZE`] bytes at offset `slot`.
    ///
    /// Short contents are written into the record itself; longer ones go
    /// to a freshly allocated out-of-line block, and the record's first
    /// word is wired to the signed offset between the record and that
    /// block, so the pair stays linked when the bytes move as one unit
    /// (see [`lemma_record_relocation`]).  On failure nothing is
    /// written: the destination slot is never left partly initialized.
    pub fn emplace_at<A: ContiguousAllocator>(alloc: &mut A, slot: usize, data: &[u8]) -> (r:
        Result<(), AllocError>)
        requires
            old(alloc).wf(),
            old(alloc).lo() <= slot,
            slot + RECORD_SIZE <= old(alloc).used(),
            old(alloc).cap() <= i64::MAX,
        ensures
            final(alloc).wf(),
            final(alloc).base() == old(alloc).base(),
            final(alloc).lo() == old(alloc).lo(),
            final(alloc).cap() == old(alloc).cap(),
            data@.len() <= INLINE_CAPACITY ==> r is Ok && final(alloc).allocs() == old(
                alloc,
            ).allocs() && final(alloc).used() == old(alloc).used() && final(alloc).released()
                == old(alloc).released(),
            data@.len() > INLINE_CAPACITY && spec_payload_layout(data@.len() as int).wf() && old(
                alloc,
            ).alloc_transition(spec_payload_layout(data@.len() as int)).1 is Ok ==> r is Ok,
            r is Ok ==> {
                &&& spec_record_wf(final(alloc).region(), final(alloc).lo(), slot as int)
                &&& spec_record_cap(final(alloc).region(), slot as int) == data@.len()
                &&& spec_record_contents(final(alloc).region(), slot as int) == data@
                &&& data@.len() > INLINE_CAPACITY ==> {
                    &&& final(alloc).allocs() == old(alloc).allocs() + 1
                    &&& old(alloc).used() <= spec_record_target(final(alloc).region(), slot as int)
                    &&& spec_record_target(final(alloc).region(), slot as int) + data@.len()
                        <= final(alloc).used()
                    &&& final(alloc).used() == old(alloc).alloc_transition(
                        spec_payload_layout(data@.len() as int),
                    ).0.used()
                    &&& old(alloc).alloc_transition(spec_payload_layout(data@.len() as int)).1
                        matches Ok(b) ==> spec_record_target(final(alloc).region(), slot as int)
                        == b.start
                    &&& final(alloc).released() == old(alloc).released()
                }
            },
            r is Ok ==> forall|i: int|
                0 <= i < old(alloc).cap() && !(slot <= i < slot + RECORD_SIZE) && !(old(
                    alloc,
                ).used() <= i < final(alloc).used()) ==> final(alloc).region()[i] == old(
                    alloc,
                ).region()[i],
            r is Err ==> {
                &&& data@.len() > INLINE_CAPACITY
                &&& final(alloc).region() == old(alloc).region()
                &&& final(alloc).allocs() == old(alloc).allocs()
                &&& spec_payload_layout(data@.len() as int).wf() ==> {
                    &&& old(alloc).alloc_transition(spec_payload_layout(data@.len() as int)).1
                        is Err
                    &&& *final(alloc) == old(alloc).alloc_transition(
                        spec_payload_layout(data@.len() as int),
                    ).0
                }
                &&& !spec_payload_layout(data@.len() as int).wf() ==> *final(alloc) == *old(alloc)
            },
    {
        proof {
            lemma_auto_spec_u64_to_from_le_bytes();
            alloc.lemma_wf();
        }
        let n = data.len();
        if n <= INLINE_CAPACITY {
            let ghost region0 = alloc.region();
            alloc.region_write(slot, data);
            let mut pad: Vec<u8> = Vec::new();
            let mut i: usize = 0;
            while i < INLINE_CAPACITY - n
                invariant
                    i <= INLINE_CAPACITY - n,
                    pad@ == Seq::new(i as nat, |j: int| 0u8),
                decreases INLINE_CAPACITY - n - i,
            {
                pad.push(0);
                assert(pad@ =~= Seq::new((i + 1) as nat, |j: int| 0u8));
                i = i + 1;
            }
            let ghost region1 = alloc.region();
            alloc.region_write(slot + n, pad.as_slice());
            let ghost region2 = alloc.region();
            let cap_word = u64_to_le_bytes(n as u64);
            alloc.region_write(slot + 16, cap_word.as_slice());
            proof {
                lemma_write_range_reads_back(region0, slot as int, data@);
                lemma_write_range_reads_back(region1, slot + n, pad@);
                lemma_write_range_reads_back(region2, slot + 16, spec_u64_to_le_bytes(n as u64));
            }
            assert(final(alloc).region().subrange(slot + 16, slot + 24) =~= spec_u64_to_le_bytes(
                n as u64,
            ));
            assert(spec_record_contents(final(alloc).region(), slot as int) =~= data@);
            Ok(())
        } else {
            let layout = match Layout::array_u8(n) {
                Some(l) => l,
                None => {
                    return Err(AllocError);
                },
            };
            assert(layout == spec_payload_layout(data@.len() as int));
            let block = match alloc.allocate(layout) {
                Ok(b) => b,
                Err(_) => {
                    return Err(AllocError);
                },
            };
            let ghost region0 = alloc.region();
            alloc.region_write(block.start, data);
            let ptr = RelPtr::emplace_between(slot, block.start);
            proof {
                lemma_rel_ptr_bits_round_trip(ptr);
            }
            let ghost region1 = alloc.region();
            let ptr_word = u64_to_le_bytes(ptr.to_bits());
            alloc.region_write(slot, ptr_word.as_slice());
            let ghost region2 = alloc.region();
            let len_word = u64_to_le_bytes(n as u64);
            alloc.region_write(slot + 8, len_word.as_slice());
            let ghost region3 = alloc.region();
            let cap_word = u64_to_le_bytes(n as u64);
            alloc.region_write(slot + 16, cap_word.as_slice());
            proof {
                lemma_write_range_reads_back(region0, block.start as int, data@);
                lemma_write_range_reads_back(
                    region1,
                    slot as int,
                    spec_u64_to_le_bytes(ptr.offset_spec() as u64),
                );
                lemma_write_range_reads_back(region2, slot + 8, spec_u64_to_le_bytes(n as u64));
                lemma_write_range_reads_back(region3, slot + 16, spec_u64_to_le_bytes(n as u64));
            }
            assert(final(alloc).region().subrange(slot as int, slot + 8) =~= spec_u64_to_le_bytes(
                ptr.offset_spec() as u64,
            ));
            assert(final(alloc).region().subrange(slot + 8, slot + 16) =~= spec_u64_to_le_bytes(
                n as u64,
            ));
            assert(final(alloc).region().subrange(slot + 16, slot + 24) =~= spec_u64_to_le_bytes(
                n as u64,
            ));
            assert(spec_record_target(final(alloc).region(), slot as int) == block.start);
            assert(spec_record_contents(final(alloc).region(), slot as int) =~= data@);
            Ok(())
        }
    }

    /// Reads the contents of the record at `slot` back out of the
    /// region, dispatching on the record's capacity field.
    pub fn read_at<A: ContiguousAllocator>(alloc: &A, slot: usize) -> (r: Vec<u8>)
        requires
            alloc.wf(),
            spec_record_wf(alloc.region(), alloc.lo(), slot as int),
        ensures
            r@ == spec_record_contents(alloc.region(), slot as int),
    {
        proof {
            lemma_auto_spec_u64_to_from_le_bytes();
            alloc.lemma_wf();
        }
        let cap_bytes = alloc.region_read(slot + 16, 8);
        let cap_word = u64_from_le_bytes(cap_bytes.as_slice());
        if cap_word <= INLINE_CAPACITY as u64 {
            alloc.region_read(slot, cap_word as usize)
        } else {
            let ptr_bytes = alloc.region_read(slot, 8);
            let ptr = RelPtr::from_bits(u64_from_le_bytes(ptr_bytes.as_slice()));
            let len_bytes = alloc.region_read(slot + 8, 8);
            let len_word = u64_from_le_bytes(len_bytes.as_slice());
            let target = ptr.resolve(slot);
            alloc.region_read(target, len_word as usize)
        }
    }
}

/// Moving an emplaced record and its payload by one common distance —
/// relocating the containing bytes as a unit — preserves the record's
/// well-formedness and its contents exactly: every link in the record is
/// a relative offset, so not a byte of the moved range needs to change.
pub proof fn lemma_record_relocation(
    region1: Seq<u8>,
    lo1: int,
    slot: int,
    region2: Seq<u8>,
    lo2: int,
    d: int,
)
    requires
        spec_record_wf(region1, lo1, slot),
        0 <= lo2 <= slot + d,
        slot + d + RECORD_SIZE <= region2.len(),
        region2.subrange(slot + d, slot + d + RECORD_SIZE) == region1.subrange(
            slot,
            slot + RECORD_SIZE,
        ),
        spec_record_cap(region1, slot) > INLINE_CAPACITY ==> {
            let t = spec_record_target(region1, slot);
            let n = spec_record_len(region1, slot);
            &&& lo2 <= t + d
            &&& t + d + n <= region2.len()
            &&& region2.subrange(t + d, t + d + n) == region1.subrange(t, t + n)
        },
    ensures
        spec_record_wf(region2, lo2, slot + d),
        spec_record_contents(region2, slot + d) == spec_record_contents(region1, slot),
{
    let rec1 = region1.subrange(slot, slot + RECORD_SIZE);
    let rec2 = region2.subrange(slot + d, slot + d + RECORD_SIZE);
    assert(region2.subrange(slot + d, slot + d + 8) =~= region1.subrange(slot, slot + 8)) by {
        assert forall|k: int| 0 <= k < 8 implies #[trigger] region2.subrange(
            slot + d,
            slot + d + 8,
        )[k] == region1.subrange(slot, slot + 8)[k] by {
            assert(rec2[k] == rec1[k]);
        }
    }
    assert(region2.subrange(slot + d + 8, slot + d + 16) =~= region1.subrange(
        slot + 8,
        slot + 16,
    )) by {
        assert forall|k: int| 0 <= k < 8 implies #[trigger] region2.subrange(
            slot + d + 8,
            slot + d + 16,
        )[k] == region1.subrange(slot + 8, slot + 16)[k] by {
            assert(rec2[k + 8] == rec1[k + 8]);
        }
    }
    assert(region2.subrange(slot + d + 16, slot + d + 24) =~= region1.subrange(
        slot + 16,
        slot + 24,
    )) by {
        assert forall|k: int| 0 <= k < 8 implies #[trigger] region2.subrange(
            slot + d + 16,
            slot + d + 24,
        )[k] == region1.subrange(slot + 16, slot + 24)[k] by {
            assert(rec2[k + 16] == rec1[k + 16]);
        }
    }
    if spec_record_cap(region1, slot) <= INLINE_CAPACITY {
        assert(spec_record_contents(region2, slot + d) =~= spec_record_contents(region1, slot));
    } else {
        assert(spec_record_target(region2, slot + d) == spec_record_target(region1, slot) + d);
        assert(spec_record_contents(region2, slot + d) =~= spec_record_contents(region1, slot));
    }
}

/// Clearing empties the string without touching its capacity or its
/// placement: for inline and spilled strings alike, the cleared string is
/// well formed, reports length zero (so `is_empty` returns true), keeps
/// its capacity, and still lies in the region window it was emplaced in.
pub proof fn lemma_clear_preserves_capacity(s: RelShortString, lo: int, cap: int)
    requires
        s.wf(),
        s.in_region(lo, cap),
    ensures
        s.clear_spec().wf(),
        s.clear_spec().spec_len() == 0,
        s.clear_spec().spec_capacity() == s.spec_capacity(),
        s.clear_spec().in_region(lo, cap),
{
}

} // verus!
