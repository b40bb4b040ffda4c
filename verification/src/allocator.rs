//! Allocator traits: region identity and the contiguous allocator contract.
//!
//! A region is a compile-time identity for a distinct address range; blocks
//! and offsets are only meaningful relative to one region.  A contiguous
//! allocator hands out blocks from a single region and also mediates all
//! reads and writes of the region's bytes, so that contracts can relate a
//! structure's offsets to the bytes they address.

use crate::layout::{AllocError, Block, Layout};
use crate::segment::{spec_write_range, spec_zeros};
use vstd::prelude::*;

verus! {

/// A compile-time identity for a distinct address range.
///
/// Two offsets may only be compared or dereferenced against the same
/// region; the type system enforces this by threading a `Region` type
/// through allocators and the structures emplaced by them.
pub trait Region {
}

/// An allocator that hands out blocks from one contiguous region.
///
/// The model exposes the region's address (`base`), its first usable
/// offset (`lo`), its total length (`cap`), its byte contents (`region`)
/// and the number of allocations performed (`allocs`).  Every block handed
/// out lies in `[lo, cap)`; offsets below `lo` belong to the allocator's
/// own bookkeeping and are never handed out.
pub trait ContiguousAllocator: Sized {
    /// The allocator's state is internally consistent.
    spec fn wf(&self) -> bool;

    /// The model address of the region's first byte.
    spec fn base(&self) -> int;

    /// The first offset that allocations may be placed at.
    spec fn lo(&self) -> int;

    /// The total length of the region in bytes.
    spec fn cap(&self) -> int;

    /// The region's byte contents.
    spec fn region(&self) -> Seq<u8>;

    /// How many allocations this allocator has performed.
    spec fn allocs(&self) -> nat;

    /// The watermark: the offset below which every block handed out so
    /// far lies.  Blocks are always carved out of fresh memory at or
    /// above the watermark, and releasing a block never moves it; the
    /// allocators of this crate never reuse a released range.
    spec fn used(&self) -> int;

    /// The blocks released so far, in release order.
    spec fn released(&self) -> Seq<Block>;

    /// The allocator after one allocation request, and that request's
    /// outcome.  Allocation is deterministic: `allocate` is pinned to
    /// this transition.
    spec fn alloc_transition(&self, layout: Layout) -> (Self, Result<Block, AllocError>);

    /// The allocator after releasing one block.
    spec fn dealloc_transition(&self, block: Block, layout: Layout) -> Self;

    /// The outcome of one growth request (zero-filling does not change
    /// which block a growth lands on).
    spec fn grow_result(&self, block: Block, old_layout: Layout, new_layout: Layout) -> Result<
        Block,
        AllocError,
    >;

    /// The outcome of one shrink request.
    spec fn shrink_result(&self, block: Block, old_layout: Layout, new_layout: Layout) -> Result<
        Block,
        AllocError,
    >;

    /// The model values of a consistent allocator are in range.
    proof fn lemma_wf(&self)
        requires
            self.wf(),
        ensures
            0 <= self.base(),
            0 <= self.lo() <= self.cap(),
            self.lo() <= self.used() <= self.cap(),
            self.region().len() == self.cap(),
            self.base() + self.cap() <= usize::MAX,
    ;

    /// Attempts to allocate a block of memory.
    fn allocate(&mut self, layout: Layout) -> (r: Result<Block, AllocError>)
        requires
            old(self).wf(),
            layout.wf(),
        ensures
            final(self).wf(),
            final(self).base() == old(self).base(),
            final(self).lo() == old(self).lo(),
            final(self).cap() == old(self).cap(),
            final(self).region() == old(self).region(),
            final(self).used() >= old(self).used(),
            r matches Ok(b) ==> {
                &&& final(self).allocs() == old(self).allocs() + 1
                &&& old(self).lo() <= b.start
                &&& b.start + b.size <= old(self).cap()
                &&& b.size == layout.size
                &&& (old(self).base() + b.start) % (layout.align as int) == 0
                &&& old(self).used() <= b.start
                &&& b.start + b.size <= final(self).used()
            },
            r is Err ==> final(self).allocs() == old(self).allocs() && final(self).used() == old(
                self,
            ).used(),
            final(self).released() == old(self).released(),
            ({
                let (a2, r2) = old(self).alloc_transition(layout);
                *final(self) == a2 && r == r2
            }),
    ;

    /// Releases a block.  The block must have been returned by this
    /// allocator and `layout` must fit it.
    fn deallocate(&mut self, block: Block, layout: Layout)
        requires
            old(self).wf(),
            layout.wf(),
            old(self).lo() <= block.start,
            block.start + block.size <= old(self).cap(),
            block.size == layout.size,
        ensures
            final(self).wf(),
            final(self).base() == old(self).base(),
            final(self).lo() == old(self).lo(),
            final(self).cap() == old(self).cap(),
            final(self).region() == old(self).region(),
            final(self).allocs() == old(self).allocs(),
            final(self).used() == old(self).used(),
            final(self).released() == old(self).released().push(block),
            *final(self) == old(self).dealloc_transition(block, layout),
    ;

    /// Behaves like `allocate`, but also zero-fills the returned block.
    fn allocate_zeroed(&mut self, layout: Layout) -> (r: Result<Block, AllocError>)
        requires
            old(self).wf(),
            layout.wf(),
        ensures
            final(self).wf(),
            final(self).base() == old(self).base(),
            final(self).lo() == old(self).lo(),
            final(self).cap() == old(self).cap(),
            final(self).used() >= old(self).used(),
            r matches Ok(b) ==> {
                &&& final(self).allocs() == old(self).allocs() + 1
                &&& old(self).lo() <= b.start
                &&& b.start + b.size <= old(self).cap()
                &&& b.size == layout.size
                &&& (old(self).base() + b.start) % (layout.align as int) == 0
                &&& old(self).used() <= b.start
                &&& b.start + b.size <= final(self).used()
                &&& final(self).region() == spec_write_range(
                    old(self).region(),
                    b.start as int,
                    spec_zeros(b.size as int),
                )
            },
            r is Err ==> final(self).allocs() == old(self).allocs() && final(self).region()
                == old(self).region() && final(self).used() == old(self).used(),
            final(self).released() == old(self).released(),
            r == old(self).alloc_transition(layout).1,
            final(self).allocs() == old(self).alloc_transition(layout).0.allocs(),
            final(self).used() == old(self).alloc_transition(layout).0.used(),
    ;

    /// Attempts to extend a block, preserving its first
    /// `old_layout.size` bytes; on success the returned block holds
    /// exactly the old block's bytes followed by unspecified ones.
    fn grow(&mut self, block: Block, old_layout: Layout, new_layout: Layout) -> (r: Result<
        Block,
        AllocError,
    >)
        requires
            old(self).wf(),
            old_layout.wf(),
            new_layout.wf(),
            old(self).lo() <= block.start,
            block.start + block.size <= old(self).cap(),
            block.size == old_layout.size,
            new_layout.size >= old_layout.size,
        ensures
            final(self).wf(),
            final(self).base() == old(self).base(),
            final(self).lo() == old(self).lo(),
            final(self).cap() == old(self).cap(),
            final(self).used() >= old(self).used(),
            r matches Ok(b) ==> {
                &&& old(self).lo() <= b.start
                &&& b.start + b.size <= old(self).cap()
                &&& b.size == new_layout.size
                &&& (old(self).base() + b.start) % (new_layout.align as int) == 0
                &&& final(self).region() == spec_write_range(
                    old(self).region(),
                    b.start as int,
                    old(self).region().subrange(block.start as int, block.start + old_layout.size),
                )
            },
            r is Err ==> final(self).region() == old(self).region(),
            r == old(self).grow_result(block, old_layout, new_layout),
    ;

    /// Behaves like `grow`, but zero-fills the bytes past the copied old
    /// contents.
    fn grow_zeroed(&mut self, block: Block, old_layout: Layout, new_layout: Layout) -> (r: Result<
        Block,
        AllocError,
    >)
        requires
            old(self).wf(),
            old_layout.wf(),
            new_layout.wf(),
            old(self).lo() <= block.start,
            block.start + block.size <= old(self).cap(),
            block.size == old_layout.size,
            new_layout.size >= old_layout.size,
        ensures
            final(self).wf(),
            final(self).base() == old(self).base(),
            final(self).lo() == old(self).lo(),
            final(self).cap() == old(self).cap(),
            final(self).used() >= old(self).used(),
            r matches Ok(b) ==> {
                &&& old(self).lo() <= b.start
                &&& b.start + b.size <= old(self).cap()
                &&& b.size == new_layout.size
                &&& (old(self).base() + b.start) % (new_layout.align as int) == 0
                &&& final(self).region() == spec_write_range(
                    spec_write_range(
                        old(self).region(),
                        b.start as int,
                        old(self).region().subrange(
                            block.start as int,
                            block.start + old_layout.size,
                        ),
                    ),
                    b.start + old_layout.size,
                    spec_zeros(new_layout.size - old_layout.size),
                )
            },
            r is Err ==> final(self).region() == old(self).region(),
            r == old(self).grow_result(block, old_layout, new_layout),
    ;

    /// Behaves like `grow`, but fails instead of moving the block.
    fn grow_in_place(&mut self, block: Block, old_layout: Layout, new_layout: Layout) -> (r: Result<
        Block,
        AllocError,
    >)
        requires
            old(self).wf(),
            old_layout.wf(),
            new_layout.wf(),
            old(self).lo() <= block.start,
            block.start + block.size <= old(self).cap(),
            block.size == old_layout.size,
            new_layout.size >= old_layout.size,
        ensures
            final(self).wf(),
            final(self).base() == old(self).base(),
            final(self).lo() == old(self).lo(),
            final(self).cap() == old(self).cap(),
            final(self).used() >= old(self).used(),
            final(self).region() == old(self).region(),
            r matches Ok(b) ==> {
                &&& b.start == block.start
                &&& b.size == new_layout.size
                &&& b.start + b.size <= old(self).cap()
                &&& (old(self).base() + b.start) % (new_layout.align as int) == 0
            },
    ;

    /// Behaves like `grow_zeroed`, but fails instead of moving the block.
    fn grow_zeroed_in_place(&mut self, block: Block, old_layout: Layout, new_layout: Layout) -> (r:
        Result<Block, AllocError>)
        requires
            old(self).wf(),
            old_layout.wf(),
            new_layout.wf(),
            old(self).lo() <= block.start,
            block.start + block.size <= old(self).cap(),
            block.size == old_layout.size,
            new_layout.size >= old_layout.size,
        ensures
            final(self).wf(),
            final(self).base() == old(self).base(),
            final(self).lo() == old(self).lo(),
            final(self).cap() == old(self).cap(),
            final(self).used() >= old(self).used(),
            r matches Ok(b) ==> {
                &&& b.start == block.start
                &&& b.size == new_layout.size
                &&& b.start + b.size <= old(self).cap()
                &&& (old(self).base() + b.start) % (new_layout.align as int) == 0
                &&& final(self).region() == spec_write_range(
                    old(self).region(),
                    block.start + old_layout.size,
                    spec_zeros(new_layout.size - old_layout.size),
                )
            },
            r is Err ==> final(self).region() == old(self).region(),
    ;

    /// Attempts to shrink a block, preserving its first
    /// `new_layout.size` bytes.
    fn shrink(&mut self, block: Block, old_layout: Layout, new_layout: Layout) -> (r: Result<
        Block,
        AllocError,
    >)
        requires
            old(self).wf(),
            old_layout.wf(),
            new_layout.wf(),
            old(self).lo() <= block.start,
            block.start + block.size <= old(self).cap(),
            block.size == old_layout.size,
            new_layout.size <= old_layout.size,
        ensures
            final(self).wf(),
            final(self).base() == old(self).base(),
            final(self).lo() == old(self).lo(),
            final(self).cap() == old(self).cap(),
            final(self).used() >= old(self).used(),
            r matches Ok(b) ==> {
                &&& old(self).lo() <= b.start
                &&& b.start + b.size <= old(self).cap()
                &&& b.size == new_layout.size
                &&& (old(self).base() + b.start) % (new_layout.align as int) == 0
                &&& final(self).region() == spec_write_range(
                    old(self).region(),
                    b.start as int,
                    old(self).region().subrange(block.start as int, block.start + new_layout.size),
                )
            },
            r is Err ==> final(self).region() == old(self).region(),
            r == old(self).shrink_result(block, old_layout, new_layout),
    ;

    /// Behaves like `shrink`, but fails instead of moving the block.
    fn shrink_in_place(&mut self, block: Block, old_layout: Layout, new_layout: Layout) -> (r:
        Result<Block, AllocError>)
        requires
            old(self).wf(),
            old_layout.wf(),
            new_layout.wf(),
            old(self).lo() <= block.start,
            block.start + block.size <= old(self).cap(),
            block.size == old_layout.size,
            new_layout.size <= old_layout.size,
        ensures
            final(self).wf(),
            final(self).base() == old(self).base(),
            final(self).lo() == old(self).lo(),
            final(self).cap() == old(self).cap(),
            final(self).used() >= old(self).used(),
            final(self).region() == old(self).region(),
            r matches Ok(b) ==> {
                &&& b.start == block.start
                &&& b.size == new_layout.size
                &&& b.start + b.size <= old(self).cap()
                &&& (old(self).base() + b.start) % (new_layout.align as int) == 0
            },
    ;

    /// Copies `n` bytes starting at offset `start` out of the region.
    fn region_read(&self, start: usize, n: usize) -> (r: Vec<u8>)
        requires
            self.wf(),
            self.lo() <= start,
            start + n <= self.cap(),
        ensures
            r@ == self.region().subrange(start as int, start + n),
    ;

    /// Overwrites the region's bytes starting at offset `start`.
    fn region_write(&mut self, start: usize, data: &[u8])
        requires
            old(self).wf(),
            old(self).lo() <= start,
            start + data@.len() <= old(self).cap(),
        ensures
            final(self).wf(),
            final(self).base() == old(self).base(),
            final(self).lo() == old(self).lo(),
            final(self).cap() == old(self).cap(),
            final(self).allocs() == old(self).allocs(),
            final(self).used() == old(self).used(),
            final(self).released() == old(self).released(),
            final(self).region() == spec_write_range(old(self).region(), start as int, data@),
    ;
}

/// A contiguous allocator whose region is anonymous.
///
/// Unlike [`RawRegionalAllocator`], the region an implementation draws
/// from carries no type-level name.
pub trait RawContiguousAllocator: ContiguousAllocator {
}

/// A contiguous allocator bound to a named region.
///
/// Every block such an allocator hands out lies in its associated
/// [`Region`].
pub trait RawRegionalAllocator: ContiguousAllocator {
    /// The region type for this allocator.
    type Region: Region;
}

/// An allocator suitable for building relative structures inside the
/// region `R`: the blocks it returns, and the offsets derived from them,
/// are all relative to that one region.
pub trait RelAllocator<R: Region>: ContiguousAllocator {
}

} // verus!
