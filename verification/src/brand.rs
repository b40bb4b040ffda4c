//! Branding: binding an allocator to a named region.
//!
//! A brand pairs an allocator with a phantom region tag, asserting that
//! every block the allocator returns lies in that region.  The binding is
//! obtained by surrendering a unique value: whoever holds the unique
//! borrow is the only party that can have named the region, so at most
//! one allocator is ever bound to it.

use crate::allocator::{
    ContiguousAllocator, RawContiguousAllocator, RawRegionalAllocator, RelAllocator, Region,
};
use crate::layout::{AllocError, Block, Layout};
use crate::unique::Unique;
use crate::unique_region::UniqueRegion;
use core::marker::PhantomData;
use vstd::prelude::*;

verus! {

/// An allocator bound to the region `R`.
pub struct Brand<A, R> {
    alloc: A,
    region: PhantomData<R>,
}

impl<A, R> Brand<A, R> {
    /// The wrapped allocator.
    pub closed spec fn inner_spec(&self) -> A {
        self.alloc
    }

    /// Returns a reference to the wrapped allocator.
    pub fn inner(&self) -> (r: &A)
        ensures
            *r == self.inner_spec(),
    {
        &self.alloc
    }
}

impl<'a, A, U: Unique> Brand<A, UniqueRegion<'a, U>> {
    /// Binds `alloc` to the region named by the unique borrow.
    pub fn new(alloc: A, _unique: &'a mut U) -> (r: Brand<A, UniqueRegion<'a, U>>)
        ensures
            r.inner_spec() == alloc,
    {
        Brand { alloc, region: PhantomData }
    }
}

impl<A: ContiguousAllocator, R> ContiguousAllocator for Brand<A, R> {
    closed spec fn wf(&self) -> bool {
        self.alloc.wf()
    }

    closed spec fn base(&self) -> int {
        self.alloc.base()
    }

    closed spec fn lo(&self) -> int {
        self.alloc.lo()
    }

    closed spec fn cap(&self) -> int {
        self.alloc.cap()
    }

    closed spec fn region(&self) -> Seq<u8> {
        self.alloc.region()
    }

    closed spec fn allocs(&self) -> nat {
        self.alloc.allocs()
    }

    closed spec fn used(&self) -> int {
        self.alloc.used()
    }

    closed spec fn released(&self) -> Seq<Block> {
        self.alloc.released()
    }

    closed spec fn alloc_transition(&self, layout: Layout) -> (Brand<A, R>, Result<
        Block,
        AllocError,
    >) {
        let (a2, r) = self.alloc.alloc_transition(layout);
        (Brand { alloc: a2, region: PhantomData }, r)
    }

    closed spec fn dealloc_transition(&self, block: Block, layout: Layout) -> Brand<A, R> {
        Brand { alloc: self.alloc.dealloc_transition(block, layout), region: PhantomData }
    }

    closed spec fn grow_result(&self, block: Block, old_layout: Layout, new_layout: Layout) -> Result<
        Block,
        AllocError,
    > {
        self.alloc.grow_result(block, old_layout, new_layout)
    }

    closed spec fn shrink_result(&self, block: Block, old_layout: Layout, new_layout: Layout) -> Result<
        Block,
        AllocError,
    > {
        self.alloc.shrink_result(block, old_layout, new_layout)
    }

    proof fn lemma_wf(&self) {
        self.alloc.lemma_wf();
    }

    fn allocate(&mut self, layout: Layout) -> (r: Result<Block, AllocError>) {
        self.alloc.allocate(layout)
    }

    fn deallocate(&mut self, block: Block, layout: Layout) {
        self.alloc.deallocate(block, layout)
    }

    fn allocate_zeroed(&mut self, layout: Layout) -> (r: Result<Block, AllocError>) {
        self.alloc.allocate_zeroed(layout)
    }

    fn grow(&mut self, block: Block, old_layout: Layout, new_layout: Layout) -> (r: Result<
        Block,
        AllocError,
    >) {
        self.alloc.grow(block, old_layout, new_layout)
    }

    fn grow_zeroed(&mut self, block: Block, old_layout: Layout, new_layout: Layout) -> (r: Result<
        Block,
        AllocError,
    >) {
        self.alloc.grow_zeroed(block, old_layout, new_layout)
    }

    fn grow_in_place(&mut self, block: Block, old_layout: Layout, new_layout: Layout) -> (r: Result<
        Block,
        AllocError,
    >) {
        self.alloc.grow_in_place(block, old_layout, new_layout)
    }

    fn grow_zeroed_in_place(&mut self, block: Block, old_layout: Layout, new_layout: Layout) -> (r:
        Result<Block, AllocError>) {
        self.alloc.grow_zeroed_in_place(block, old_layout, new_layout)
    }

    fn shrink(&mut self, block: Block, old_layout: Layout, new_layout: Layout) -> (r: Result<
        Block,
        AllocError,
    >) {
        self.alloc.shrink(block, old_layout, new_layout)
    }

    fn shrink_in_place(&mut self, block: Block, old_layout: Layout, new_layout: Layout) -> (r:
        Result<Block, AllocError>) {
        self.alloc.shrink_in_place(block, old_layout, new_layout)
    }

    fn region_read(&self, start: usize, n: usize) -> (r: Vec<u8>) {
        self.alloc.region_read(start, n)
    }

    fn region_write(&mut self, start: usize, data: &[u8]) {
        self.alloc.region_write(start, data)
    }
}

/// A brand is a transparent wrapper: its allocator model is exactly its
/// inner allocator's.
pub proof fn lemma_brand_delegates<A: ContiguousAllocator, R>(b: Brand<A, R>)
    ensures
        b.wf() == b.inner_spec().wf(),
        b.base() == b.inner_spec().base(),
        b.lo() == b.inner_spec().lo(),
        b.cap() == b.inner_spec().cap(),
        b.region() == b.inner_spec().region(),
        b.allocs() == b.inner_spec().allocs(),
        b.used() == b.inner_spec().used(),
        b.released() == b.inner_spec().released(),
        forall|l: Layout| (#[trigger] b.alloc_transition(l)).1 == b.inner_spec().alloc_transition(
            l,
        ).1,
        forall|l: Layout| (#[trigger] b.alloc_transition(l)).0.inner_spec() == b.inner_spec(
        ).alloc_transition(l).0,
        forall|blk: Block, l: Layout| (#[trigger] b.dealloc_transition(blk, l)).inner_spec()
            == b.inner_spec().dealloc_transition(blk, l),
        forall|blk: Block, ol: Layout, nl: Layout| #[trigger] b.grow_result(blk, ol, nl)
            == b.inner_spec().grow_result(blk, ol, nl),
        forall|blk: Block, ol: Layout, nl: Layout| #[trigger] b.shrink_result(blk, ol, nl)
            == b.inner_spec().shrink_result(blk, ol, nl),
{
}

impl<A: ContiguousAllocator, R> RawContiguousAllocator for Brand<A, R> {
}

impl<A: ContiguousAllocator, R: Region> RawRegionalAllocator for Brand<A, R> {
    type Region = R;
}

impl<A: ContiguousAllocator, R: Region> RelAllocator<R> for Brand<A, R> {
}

} // verus!
