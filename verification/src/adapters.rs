//! Adapters that let an allocator handle be used as an allocator.
//!
//! A `DerefAdapter` lifts a handle to an allocator into an allocator
//! itself by forwarding every operation through the handle, so a wrapped
//! or borrowed allocator can be used exactly like an owned one.

use crate::allocator::ContiguousAllocator;
use crate::layout::{AllocError, Block, Layout};
use vstd::prelude::*;

verus! {

/// Forwards every allocator operation through the wrapped handle.
pub struct DerefAdapter<P> {
    ptr: P,
}

impl<P> DerefAdapter<P> {
    /// The wrapped handle.
    pub closed spec fn ptr_spec(&self) -> P {
        self.ptr
    }

    /// Wraps the handle.
    pub fn new(ptr: P) -> (r: DerefAdapter<P>)
        ensures
            r.ptr_spec() == ptr,
    {
        DerefAdapter { ptr }
    }
}

impl<P: ContiguousAllocator> ContiguousAllocator for DerefAdapter<P> {
    closed spec fn wf(&self) -> bool {
        self.ptr.wf()
    }

    closed spec fn base(&self) -> int {
        self.ptr.base()
    }

    closed spec fn lo(&self) -> int {
        self.ptr.lo()
    }

    closed spec fn cap(&self) -> int {
        self.ptr.cap()
    }

    closed spec fn region(&self) -> Seq<u8> {
        self.ptr.region()
    }

    closed spec fn allocs(&self) -> nat {
        self.ptr.allocs()
    }

    closed spec fn used(&self) -> int {
        self.ptr.used()
    }

    closed spec fn released(&self) -> Seq<Block> {
        self.ptr.released()
    }

    closed spec fn alloc_transition(&self, layout: Layout) -> (DerefAdapter<P>, Result<
        Block,
        AllocError,
    >) {
        let (p2, r) = self.ptr.alloc_transition(layout);
        (DerefAdapter { ptr: p2 }, r)
    }

    closed spec fn dealloc_transition(&self, block: Block, layout: Layout) -> DerefAdapter<P> {
        DerefAdapter { ptr: self.ptr.dealloc_transition(block, layout) }
    }

    closed spec fn grow_result(&self, block: Block, old_layout: Layout, new_layout: Layout) -> Result<
        Block,
        AllocError,
    > {
        self.ptr.grow_result(block, old_layout, new_layout)
    }

    closed spec fn shrink_result(&self, block: Block, old_layout: Layout, new_layout: Layout) -> Result<
        Block,
        AllocError,
    > {
        self.ptr.shrink_result(block, old_layout, new_layout)
    }

    proof fn lemma_wf(&self) {
        self.ptr.lemma_wf();
    }

    fn allocate(&mut self, layout: Layout) -> (r: Result<Block, AllocError>) {
        self.ptr.allocate(layout)
    }

    fn deallocate(&mut self, block: Block, layout: Layout) {
        self.ptr.deallocate(block, layout)
    }

    fn allocate_zeroed(&mut self, layout: Layout) -> (r: Result<Block, AllocError>) {
        self.ptr.allocate_zeroed(layout)
    }

    fn grow(&mut self, block: Block, old_layout: Layout, new_layout: Layout) -> (r: Result<
        Block,
        AllocError,
    >) {
        self.ptr.grow(block, old_layout, new_layout)
    }

    fn grow_zeroed(&mut self, block: Block, old_layout: Layout, new_layout: Layout) -> (r: Result<
        Block,
        AllocError,
    >) {
        self.ptr.grow_zeroed(block, old_layout, new_layout)
    }

    fn grow_in_place(&mut self, block: Block, old_layout: Layout, new_layout: Layout) -> (r: Result<
        Block,
        AllocError,
    >) {
        self.ptr.grow_in_place(block, old_layout, new_layout)
    }

    fn grow_zeroed_in_place(&mut self, block: Block, old_layout: Layout, new_layout: Layout) -> (r:
        Result<Block, AllocError>) {
        self.ptr.grow_zeroed_in_place(block, old_layout, new_layout)
    }

    fn shrink(&mut self, block: Block, old_layout: Layout, new_layout: Layout) -> (r: Result<
        Block,
        AllocError,
    >) {
        self.ptr.shrink(block, old_layout, new_layout)
    }

    fn shrink_in_place(&mut self, block: Block, old_layout: Layout, new_layout: Layout) -> (r:
        Result<Block, AllocError>) {
        self.ptr.shrink_in_place(block, old_layout, new_layout)
    }

    fn region_read(&self, start: usize, n: usize) -> (r: Vec<u8>) {
        self.ptr.region_read(start, n)
    }

    fn region_write(&mut self, start: usize, data: &[u8]) {
        self.ptr.region_write(start, data)
    }
}

/// An adapter is a transparent wrapper: its allocator model and its
/// transitions are exactly its handle's.
pub proof fn lemma_deref_adapter_delegates<P: ContiguousAllocator>(a: DerefAdapter<P>)
    ensures
        a.wf() == a.ptr_spec().wf(),
        a.base() == a.ptr_spec().base(),
        a.lo() == a.ptr_spec().lo(),
        a.cap() == a.ptr_spec().cap(),
        a.region() == a.ptr_spec().region(),
        a.allocs() == a.ptr_spec().allocs(),
        a.used() == a.ptr_spec().used(),
        a.released() == a.ptr_spec().released(),
        forall|l: Layout| (#[trigger] a.alloc_transition(l)).1 == a.ptr_spec().alloc_transition(
            l,
        ).1,
        forall|l: Layout| (#[trigger] a.alloc_transition(l)).0.ptr_spec() == a.ptr_spec(
        ).alloc_transition(l).0,
        forall|blk: Block, l: Layout| (#[trigger] a.dealloc_transition(blk, l)).ptr_spec()
            == a.ptr_spec().dealloc_transition(blk, l),
        forall|blk: Block, ol: Layout, nl: Layout| #[trigger] a.grow_result(blk, ol, nl)
            == a.ptr_spec().grow_result(blk, ol, nl),
        forall|blk: Block, ol: Layout, nl: Layout| #[trigger] a.shrink_result(blk, ol, nl)
            == a.ptr_spec().shrink_result(blk, ol, nl),
{
}

} // verus!
