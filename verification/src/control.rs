//! The control structure of an allocator.
//!
//! A control is the algorithmic core of an allocator: the state and logic
//! that partitions a memory segment into blocks.  A control manages the
//! window `[lo, hi)` of a [`Segment`]; every block it hands out is a
//! sub-range of that window, addressed by offset into the segment.
//!
//! Each implementation gives its behaviour as a deterministic transition
//! function (`alloc_spec`, `dealloc_spec`), and the provided methods build
//! the default growth and shrink algorithms on top of it: try the
//! implementation's in-place fast path, and on failure allocate a fresh
//! block, copy the surviving bytes, and release the old block.

use crate::layout::{AllocError, Block, Layout};
use crate::segment::{spec_write_range, spec_zeros, Segment};
use vstd::prelude::*;

verus! {

/// The allocation state machine driving an allocator.
///
/// A control is always used together with a segment window: `base` is the
/// segment's model address, and `[lo, hi)` the range of offsets the control
/// may hand out.  A control never reads or writes segment bytes on plain
/// allocation; only the provided growth and shrink operations move bytes.
///
/// A control's state can be persisted as a single 64-bit word (`encode` /
/// `decode`), which is how the prefix allocator stores it inside the very
/// segment it manages.
pub trait Control: Sized {
    /// The control's state is consistent with a window of `[lo, hi)`.
    spec fn wf(&self, lo: int, hi: int) -> bool;

    /// The persisted form of the state.
    spec fn encoded(&self) -> u64;

    /// The state read back from a persisted word.
    spec fn decode_spec(w: u64) -> Self;

    /// The state of a fresh control over the window `[lo, hi)`.
    spec fn new_spec(lo: int, hi: int) -> Self;

    /// The state transition and outcome of one allocation request.
    spec fn alloc_spec(&self, base: int, lo: int, hi: int, layout: Layout) -> (Self, Result<
        Block,
        AllocError,
    >);

    /// The state transition of releasing one block.
    spec fn dealloc_spec(&self, base: int, lo: int, hi: int, block: Block, layout: Layout) -> Self;

    /// The watermark: the window offset below which every block handed
    /// out so far lies.
    ///
    /// Blocks are always carved out of fresh memory: an allocation hands
    /// out a block at or above the watermark and raises the watermark
    /// past it, and releasing a block never moves the watermark.
    /// Released ranges are reused only under policies a specific control
    /// defines; the controls of this crate never reuse them.
    spec fn used(&self, lo: int, hi: int) -> int;

    /// The watermark of a consistent control lies inside its window.
    proof fn lemma_used_bounds(&self, lo: int, hi: int)
        requires
            self.wf(lo, hi),
            0 <= lo <= hi,
        ensures
            lo <= self.used(lo, hi) <= hi,
    ;

    /// The in-place growth policy: the state transition and outcome of
    /// one attempt to extend a block without moving it.
    spec fn grow_in_place_spec(
        &self,
        base: int,
        lo: int,
        hi: int,
        block: Block,
        old_layout: Layout,
        new_layout: Layout,
    ) -> (Self, Result<Block, AllocError>);

    /// The in-place shrink policy.
    spec fn shrink_in_place_spec(
        &self,
        base: int,
        lo: int,
        hi: int,
        block: Block,
        old_layout: Layout,
        new_layout: Layout,
    ) -> (Self, Result<Block, AllocError>);

    /// The in-place growth policy preserves consistency and the
    /// watermark bound; on success the block keeps its offset and takes
    /// the new size; on failure nothing changes.
    proof fn lemma_grow_in_place_spec(
        &self,
        base: int,
        lo: int,
        hi: int,
        block: Block,
        old_layout: Layout,
        new_layout: Layout,
    )
        requires
            self.wf(lo, hi),
            old_layout.wf(),
            new_layout.wf(),
            0 <= base,
            0 <= lo <= hi,
            base + hi <= usize::MAX,
            lo <= block.start,
            block.start + block.size <= hi,
            block.size == old_layout.size,
            new_layout.size >= old_layout.size,
        ensures
            ({
                let (c, r) = self.grow_in_place_spec(base, lo, hi, block, old_layout, new_layout);
                &&& c.wf(lo, hi)
                &&& c.used(lo, hi) >= self.used(lo, hi)
                &&& r matches Ok(b) ==> b.start == block.start && b.size == new_layout.size
                    && b.start + b.size <= hi && (base + b.start) % (new_layout.align as int) == 0
                &&& r is Err ==> c == *self
            }),
    ;

    /// The in-place shrink policy preserves consistency and the
    /// watermark; on success the block keeps its offset and takes the
    /// new size; on failure nothing changes.
    proof fn lemma_shrink_in_place_spec(
        &self,
        base: int,
        lo: int,
        hi: int,
        block: Block,
        old_layout: Layout,
        new_layout: Layout,
    )
        requires
            self.wf(lo, hi),
            old_layout.wf(),
            new_layout.wf(),
            0 <= base,
            0 <= lo <= hi,
            base + hi <= usize::MAX,
            lo <= block.start,
            block.start + block.size <= hi,
            block.size == old_layout.size,
            new_layout.size <= old_layout.size,
        ensures
            ({
                let (c, r) = self.shrink_in_place_spec(base, lo, hi, block, old_layout, new_layout);
                &&& c.wf(lo, hi)
                &&& c.used(lo, hi) >= self.used(lo, hi)
                &&& r matches Ok(b) ==> b.start == block.start && b.size == new_layout.size
                    && b.start + b.size <= hi && (base + b.start) % (new_layout.align as int) == 0
                &&& r is Err ==> c == *self
            }),
    ;

    /// A fresh control is consistent with its window, and has handed
    /// nothing out yet.
    proof fn lemma_new_wf(lo: int, hi: int)
        requires
            0 <= lo <= hi,
        ensures
            Self::new_spec(lo, hi).wf(lo, hi),
            Self::new_spec(lo, hi).used(lo, hi) == lo,
    ;

    /// Persisting and re-reading the state gives the state back.
    proof fn lemma_codec(&self)
        ensures
            Self::decode_spec(self.encoded()) == *self,
    ;

    /// Allocation preserves consistency, and every block handed out is a
    /// sub-range of the window with the requested size and alignment.
    proof fn lemma_alloc_spec(&self, base: int, lo: int, hi: int, layout: Layout)
        requires
            self.wf(lo, hi),
            layout.wf(),
            0 <= base,
            0 <= lo <= hi,
            base + hi <= usize::MAX,
        ensures
            ({
                let (c, r) = self.alloc_spec(base, lo, hi, layout);
                &&& c.wf(lo, hi)
                &&& c.used(lo, hi) >= self.used(lo, hi)
                &&& r matches Ok(b) ==> lo <= b.start && b.start + b.size <= hi && b.size
                    == layout.size && (base + b.start) % (layout.align as int) == 0 && self.used(
                    lo,
                    hi,
                ) <= b.start && b.start + b.size <= c.used(lo, hi)
                &&& r is Err ==> c.used(lo, hi) == self.used(lo, hi)
            }),
    ;

    /// Releasing a block preserves consistency and the watermark.
    proof fn lemma_dealloc_spec(&self, base: int, lo: int, hi: int, block: Block, layout: Layout)
        requires
            self.wf(lo, hi),
            0 <= lo <= hi,
        ensures
            self.dealloc_spec(base, lo, hi, block, layout).wf(lo, hi),
            self.dealloc_spec(base, lo, hi, block, layout).used(lo, hi) == self.used(lo, hi),
    ;

    /// A fresh control for the window `[lo, hi)`.
    fn new(lo: usize, hi: usize) -> (c: Self)
        requires
            lo <= hi,
        ensures
            c == Self::new_spec(lo as int, hi as int),
    ;

    /// The state as a persistable 64-bit word.
    fn encode(&self) -> (w: u64)
        ensures
            w == self.encoded(),
    ;

    /// The state read back from a persisted word.
    fn decode(w: u64) -> (c: Self)
        ensures
            c == Self::decode_spec(w),
    ;

    /// Decides whether the state is consistent with the window `[lo, hi)`.
    ///
    /// Used when re-opening a persisted segment whose header bytes are not
    /// trusted to be well formed.
    fn is_valid_for(&self, lo: usize, hi: usize) -> (b: bool)
        requires
            lo <= hi,
        ensures
            b == self.wf(lo as int, hi as int),
    ;

    /// Attempts to allocate a block of memory from the window.
    fn allocate(&mut self, seg: &Segment, lo: usize, hi: usize, layout: Layout) -> (r: Result<
        Block,
        AllocError,
    >)
        requires
            old(self).wf(lo as int, hi as int),
            layout.wf(),
            lo <= hi <= seg@.len(),
            seg.wf(),
        ensures
            ({
                let (c, r2) = old(self).alloc_spec(
                    seg.base_spec(),
                    lo as int,
                    hi as int,
                    layout,
                );
                *final(self) == c && r == r2
            }),
    ;

    /// Releases the block.  The block must have been returned by this
    /// control over this window and `layout` must fit it.
    fn deallocate(&mut self, seg: &Segment, lo: usize, hi: usize, block: Block, layout: Layout)
        requires
            old(self).wf(lo as int, hi as int),
            layout.wf(),
            lo <= hi <= seg@.len(),
            seg.wf(),
            lo <= block.start,
            block.start + block.size <= hi,
            block.size == layout.size,
        ensures
            *final(self) == old(self).dealloc_spec(
                seg.base_spec(),
                lo as int,
                hi as int,
                block,
                layout,
            ),
    ;

    /// Behaves like `allocate`, but also zero-fills the returned block.
    fn allocate_zeroed(&mut self, seg: &mut Segment, lo: usize, hi: usize, layout: Layout) -> (r:
        Result<Block, AllocError>)
        requires
            old(self).wf(lo as int, hi as int),
            layout.wf(),
            lo <= hi <= old(seg)@.len(),
            old(seg).wf(),
        ensures
            final(seg).base_spec() == old(seg).base_spec(),
            final(seg)@.len() == old(seg)@.len(),
            final(seg).wf(),
            ({
                let (c, r2) = old(self).alloc_spec(
                    old(seg).base_spec(),
                    lo as int,
                    hi as int,
                    layout,
                );
                &&& *final(self) == c
                &&& r == r2
                &&& r2 matches Ok(b) ==> final(seg)@ == spec_write_range(
                    old(seg)@,
                    b.start as int,
                    spec_zeros(b.size as int),
                )
                &&& r2 is Err ==> final(seg)@ == old(seg)@
            }),
    {
        let ghost self0 = *self;
        let r = self.allocate(&*seg, lo, hi, layout);
        match r {
            Ok(b) => {
                proof {
                    self0.lemma_alloc_spec(seg.base_spec(), lo as int, hi as int, layout);
                }
                seg.fill_range(b.start, b.size, 0);
                assert(Seq::new(b.size as nat, |i: int| 0u8) =~= spec_zeros(b.size as int));
                Ok(b)
            },
            Err(e) => Err(e),
        }
    }

    /// Attempts to extend the block in place, without moving its bytes.
    ///
    /// The outcome is the implementation's own in-place policy
    /// (`grow_in_place_spec`); the controls of this crate never extend in
    /// place, so their policy always fails.  In place means in place: no
    /// byte of the segment moves either way.
    fn grow_in_place(
        &mut self,
        seg: &mut Segment,
        lo: usize,
        hi: usize,
        block: Block,
        old_layout: Layout,
        new_layout: Layout,
    ) -> (r: Result<Block, AllocError>)
        requires
            old(self).wf(lo as int, hi as int),
            old_layout.wf(),
            new_layout.wf(),
            lo <= hi <= old(seg)@.len(),
            old(seg).wf(),
            lo <= block.start,
            block.start + block.size <= hi,
            block.size == old_layout.size,
            new_layout.size >= old_layout.size,
        ensures
            final(seg).base_spec() == old(seg).base_spec(),
            final(seg)@ == old(seg)@,
            final(seg).wf(),
            final(self).wf(lo as int, hi as int),
            final(self).used(lo as int, hi as int) >= old(self).used(lo as int, hi as int),
            ({
                let (c2, r2) = old(self).grow_in_place_spec(
                    old(seg).base_spec(),
                    lo as int,
                    hi as int,
                    block,
                    old_layout,
                    new_layout,
                );
                *final(self) == c2 && r == r2
            }),
            r matches Ok(b) ==> {
                &&& b.start == block.start
                &&& b.size == new_layout.size
                &&& b.start + b.size <= hi
                &&& (old(seg).base_spec() + b.start) % (new_layout.align as int) == 0
            },
            r is Err ==> *final(self) == *old(self),
    ;

    /// Behaves like `grow_in_place`, but zero-fills the bytes the block
    /// gained.
    fn grow_zeroed_in_place(
        &mut self,
        seg: &mut Segment,
        lo: usize,
        hi: usize,
        block: Block,
        old_layout: Layout,
        new_layout: Layout,
    ) -> (r: Result<Block, AllocError>)
        requires
            old(self).wf(lo as int, hi as int),
            old_layout.wf(),
            new_layout.wf(),
            lo <= hi <= old(seg)@.len(),
            old(seg).wf(),
            lo <= block.start,
            block.start + block.size <= hi,
            block.size == old_layout.size,
            new_layout.size >= old_layout.size,
        ensures
            final(seg).base_spec() == old(seg).base_spec(),
            final(seg)@.len() == old(seg)@.len(),
            final(seg).wf(),
            final(self).wf(lo as int, hi as int),
            final(self).used(lo as int, hi as int) >= old(self).used(lo as int, hi as int),
            ({
                let (c2, r2) = old(self).grow_in_place_spec(
                    old(seg).base_spec(),
                    lo as int,
                    hi as int,
                    block,
                    old_layout,
                    new_layout,
                );
                *final(self) == c2 && r == r2
            }),
            r matches Ok(b) ==> {
                &&& b.start == block.start
                &&& b.size == new_layout.size
                &&& b.start + b.size <= hi
                &&& (old(seg).base_spec() + b.start) % (new_layout.align as int) == 0
                &&& final(seg)@ == spec_write_range(
                    old(seg)@,
                    block.start + old_layout.size,
                    spec_zeros(new_layout.size - old_layout.size),
                )
            },
            r is Err ==> *final(self) == *old(self) && final(seg)@ == old(seg)@,
    {
        match self.grow_in_place(seg, lo, hi, block, old_layout, new_layout) {
            Ok(b) => {
                seg.fill_range(block.start + old_layout.size, new_layout.size - old_layout.size, 0);
                assert(Seq::new((new_layout.size - old_layout.size) as nat, |i: int| 0u8)
                    =~= spec_zeros(new_layout.size - old_layout.size));
                Ok(b)
            },
            Err(e) => Err(e),
        }
    }

    /// Attempts to extend the block.
    ///
    /// First tries the in-place fast path; on failure it allocates a block
    /// of the new size, copies the old contents forward, and releases the
    /// old block.  Either way, on success the first `old_layout.size` bytes
    /// of the returned block hold exactly the old block's bytes.  The
    /// request fails only if the in-place path failed and a fresh
    /// allocation of `new_layout` fails.
    fn grow(
        &mut self,
        seg: &mut Segment,
        lo: usize,
        hi: usize,
        block: Block,
        old_layout: Layout,
        new_layout: Layout,
    ) -> (r: Result<Block, AllocError>)
        requires
            old(self).wf(lo as int, hi as int),
            old_layout.wf(),
            new_layout.wf(),
            lo <= hi <= old(seg)@.len(),
            old(seg).wf(),
            lo <= block.start,
            block.start + block.size <= hi,
            block.size == old_layout.size,
            new_layout.size >= old_layout.size,
        ensures
            final(seg).base_spec() == old(seg).base_spec(),
            final(seg)@.len() == old(seg)@.len(),
            final(seg).wf(),
            final(self).wf(lo as int, hi as int),
            final(self).used(lo as int, hi as int) >= old(self).used(lo as int, hi as int),
            ({
                let (cp, rp) = old(self).grow_in_place_spec(
                    old(seg).base_spec(),
                    lo as int,
                    hi as int,
                    block,
                    old_layout,
                    new_layout,
                );
                let (ca, ra) = old(self).alloc_spec(
                    old(seg).base_spec(),
                    lo as int,
                    hi as int,
                    new_layout,
                );
                &&& rp is Ok ==> r == rp && *final(self) == cp && final(seg)@ == old(seg)@
                &&& rp is Err && ra is Ok ==> r == ra && *final(self) == ca.dealloc_spec(
                    old(seg).base_spec(),
                    lo as int,
                    hi as int,
                    block,
                    old_layout,
                )
                &&& rp is Err && ra is Err ==> r is Err && *final(self) == ca
            }),
            r matches Ok(b) ==> {
                &&& lo <= b.start
                &&& b.start + b.size <= hi
                &&& b.size == new_layout.size
                &&& (old(seg).base_spec() + b.start) % (new_layout.align as int) == 0
                &&& final(seg)@ == spec_write_range(
                    old(seg)@,
                    b.start as int,
                    old(seg)@.subrange(block.start as int, block.start + old_layout.size),
                )
            },
            r is Err ==> {
                &&& final(seg)@ == old(seg)@
                &&& *final(self) == old(self).alloc_spec(
                    old(seg).base_spec(),
                    lo as int,
                    hi as int,
                    new_layout,
                ).0
                &&& old(self).alloc_spec(old(seg).base_spec(), lo as int, hi as int, new_layout).1
                    is Err
            },
    {
        let ghost self0 = *self;
        let ghost bytes0 = seg@;
        match self.grow_in_place(seg, lo, hi, block, old_layout, new_layout) {
            Ok(b) => {
                assert(spec_write_range(
                    bytes0,
                    b.start as int,
                    bytes0.subrange(block.start as int, block.start + old_layout.size),
                ) =~= bytes0);
                Ok(b)
            },
            Err(_) => {
                let tmp = seg.read_range(block.start, old_layout.size);
                let r = self.allocate(&*seg, lo, hi, new_layout);
                proof {
                    self0.lemma_alloc_spec(seg.base_spec(), lo as int, hi as int, new_layout);
                }
                match r {
                    Ok(b) => {
                        let ghost self1 = *self;
                        seg.write_range(b.start, tmp.as_slice());
                        self.deallocate(&*seg, lo, hi, block, old_layout);
                        proof {
                            self1.lemma_dealloc_spec(
                                seg.base_spec(),
                                lo as int,
                                hi as int,
                                block,
                                old_layout,
                            );
                        }
                        Ok(b)
                    },
                    Err(e) => Err(e),
                }
            },
        }
    }

    /// Behaves like `grow`, but also zero-fills the bytes past the copied
    /// old contents before returning.
    fn grow_zeroed(
        &mut self,
        seg: &mut Segment,
        lo: usize,
        hi: usize,
        block: Block,
        old_layout: Layout,
        new_layout: Layout,
    ) -> (r: Result<Block, AllocError>)
        requires
            old(self).wf(lo as int, hi as int),
            old_layout.wf(),
            new_layout.wf(),
            lo <= hi <= old(seg)@.len(),
            old(seg).wf(),
            lo <= block.start,
            block.start + block.size <= hi,
            block.size == old_layout.size,
            new_layout.size >= old_layout.size,
        ensures
            final(seg).base_spec() == old(seg).base_spec(),
            final(seg)@.len() == old(seg)@.len(),
            final(seg).wf(),
            final(self).wf(lo as int, hi as int),
            final(self).used(lo as int, hi as int) >= old(self).used(lo as int, hi as int),
            ({
                let (cp, rp) = old(self).grow_in_place_spec(
                    old(seg).base_spec(),
                    lo as int,
                    hi as int,
                    block,
                    old_layout,
                    new_layout,
                );
                let (ca, ra) = old(self).alloc_spec(
                    old(seg).base_spec(),
                    lo as int,
                    hi as int,
                    new_layout,
                );
                &&& rp is Ok ==> r == rp && *final(self) == cp && final(seg)@
                    == spec_write_range(
                    old(seg)@,
                    block.start + old_layout.size,
                    spec_zeros(new_layout.size - old_layout.size),
                )
                &&& rp is Err && ra is Ok ==> r == ra && *final(self) == ca.dealloc_spec(
                    old(seg).base_spec(),
                    lo as int,
                    hi as int,
                    block,
                    old_layout,
                )
                &&& rp is Err && ra is Err ==> r is Err && *final(self) == ca
            }),
            r matches Ok(b) ==> {
                &&& lo <= b.start
                &&& b.start + b.size <= hi
                &&& b.size == new_layout.size
                &&& (old(seg).base_spec() + b.start) % (new_layout.align as int) == 0
                &&& final(seg)@ == spec_write_range(
                    spec_write_range(
                        old(seg)@,
                        b.start as int,
                        old(seg)@.subrange(block.start as int, block.start + old_layout.size),
                    ),
                    b.start + old_layout.size,
                    spec_zeros(new_layout.size - old_layout.size),
                )
            },
            r is Err ==> {
                &&& final(seg)@ == old(seg)@
                &&& *final(self) == old(self).alloc_spec(
                    old(seg).base_spec(),
                    lo as int,
                    hi as int,
                    new_layout,
                ).0
                &&& old(self).alloc_spec(old(seg).base_spec(), lo as int, hi as int, new_layout).1
                    is Err
            },
    {
        let ghost self0 = *self;
        let ghost bytes0 = seg@;
        match self.grow_zeroed_in_place(seg, lo, hi, block, old_layout, new_layout) {
            Ok(b) => {
                assert(spec_write_range(
                    bytes0,
                    b.start as int,
                    bytes0.subrange(block.start as int, block.start + old_layout.size),
                ) =~= bytes0);
                Ok(b)
            },
            Err(_) => {
                let tmp = seg.read_range(block.start, old_layout.size);
                let r = self.allocate(&*seg, lo, hi, new_layout);
                proof {
                    self0.lemma_alloc_spec(seg.base_spec(), lo as int, hi as int, new_layout);
                }
                match r {
                    Ok(b) => {
                        let ghost self1 = *self;
                        seg.write_range(b.start, tmp.as_slice());
                        seg.fill_range(
                            b.start + old_layout.size,
                            new_layout.size - old_layout.size,
                            0,
                        );
                        assert(Seq::new((new_layout.size - old_layout.size) as nat, |i: int| 0u8)
                            =~= spec_zeros(new_layout.size - old_layout.size));
                        self.deallocate(&*seg, lo, hi, block, old_layout);
                        proof {
                            self1.lemma_dealloc_spec(
                                seg.base_spec(),
                                lo as int,
                                hi as int,
                                block,
                                old_layout,
                            );
                        }
                        Ok(b)
                    },
                    Err(e) => Err(e),
                }
            },
        }
    }

    /// Attempts to shrink the block in place.
    ///
    /// The outcome is the implementation's own in-place policy
    /// (`shrink_in_place_spec`); the controls of this crate never shrink
    /// in place, so their policy always fails.  No byte of the segment
    /// moves either way.
    fn shrink_in_place(
        &mut self,
        seg: &mut Segment,
        lo: usize,
        hi: usize,
        block: Block,
        old_layout: Layout,
        new_layout: Layout,
    ) -> (r: Result<Block, AllocError>)
        requires
            old(self).wf(lo as int, hi as int),
            old_layout.wf(),
            new_layout.wf(),
            lo <= hi <= old(seg)@.len(),
            old(seg).wf(),
            lo <= block.start,
            block.start + block.size <= hi,
            block.size == old_layout.size,
            new_layout.size <= old_layout.size,
        ensures
            final(seg).base_spec() == old(seg).base_spec(),
            final(seg)@ == old(seg)@,
            final(seg).wf(),
            final(self).wf(lo as int, hi as int),
            final(self).used(lo as int, hi as int) >= old(self).used(lo as int, hi as int),
            ({
                let (c2, r2) = old(self).shrink_in_place_spec(
                    old(seg).base_spec(),
                    lo as int,
                    hi as int,
                    block,
                    old_layout,
                    new_layout,
                );
                *final(self) == c2 && r == r2
            }),
            r matches Ok(b) ==> {
                &&& b.start == block.start
                &&& b.size == new_layout.size
                &&& b.start + b.size <= hi
                &&& (old(seg).base_spec() + b.start) % (new_layout.align as int) == 0
            },
            r is Err ==> *final(self) == *old(self),
    ;

    /// Attempts to shrink the block.
    ///
    /// First tries the in-place fast path; on failure it allocates a block
    /// of the new size, copies the surviving `new_layout.size` bytes, and
    /// releases the old block.
    fn shrink(
        &mut self,
        seg: &mut Segment,
        lo: usize,
        hi: usize,
        block: Block,
        old_layout: Layout,
        new_layout: Layout,
    ) -> (r: Result<Block, AllocError>)
        requires
            old(self).wf(lo as int, hi as int),
            old_layout.wf(),
            new_layout.wf(),
            lo <= hi <= old(seg)@.len(),
            old(seg).wf(),
            lo <= block.start,
            block.start + block.size <= hi,
            block.size == old_layout.size,
            new_layout.size <= old_layout.size,
        ensures
            final(seg).base_spec() == old(seg).base_spec(),
            final(seg)@.len() == old(seg)@.len(),
            final(seg).wf(),
            final(self).wf(lo as int, hi as int),
            final(self).used(lo as int, hi as int) >= old(self).used(lo as int, hi as int),
            ({
                let (cp, rp) = old(self).shrink_in_place_spec(
                    old(seg).base_spec(),
                    lo as int,
                    hi as int,
                    block,
                    old_layout,
                    new_layout,
                );
                let (ca, ra) = old(self).alloc_spec(
                    old(seg).base_spec(),
                    lo as int,
                    hi as int,
                    new_layout,
                );
                &&& rp is Ok ==> r == rp && *final(self) == cp && final(seg)@ == old(seg)@
                &&& rp is Err && ra is Ok ==> r == ra && *final(self) == ca.dealloc_spec(
                    old(seg).base_spec(),
                    lo as int,
                    hi as int,
                    block,
                    old_layout,
                )
                &&& rp is Err && ra is Err ==> r is Err && *final(self) == ca
            }),
            r matches Ok(b) ==> {
                &&& lo <= b.start
                &&& b.start + b.size <= hi
                &&& b.size == new_layout.size
                &&& (old(seg).base_spec() + b.start) % (new_layout.align as int) == 0
                &&& final(seg)@ == spec_write_range(
                    old(seg)@,
                    b.start as int,
                    old(seg)@.subrange(block.start as int, block.start + new_layout.size),
                )
            },
            r is Err ==> {
                &&& final(seg)@ == old(seg)@
                &&& *final(self) == old(self).alloc_spec(
                    old(seg).base_spec(),
                    lo as int,
                    hi as int,
                    new_layout,
                ).0
                &&& old(self).alloc_spec(old(seg).base_spec(), lo as int, hi as int, new_layout).1
                    is Err
            },
    {
        let ghost self0 = *self;
        let ghost bytes0 = seg@;
        match self.shrink_in_place(seg, lo, hi, block, old_layout, new_layout) {
            Ok(b) => {
                assert(spec_write_range(
                    bytes0,
                    b.start as int,
                    bytes0.subrange(block.start as int, block.start + new_layout.size),
                ) =~= bytes0);
                Ok(b)
            },
            Err(_) => {
                let tmp = seg.read_range(block.start, new_layout.size);
                let r = self.allocate(&*seg, lo, hi, new_layout);
                proof {
                    self0.lemma_alloc_spec(seg.base_spec(), lo as int, hi as int, new_layout);
                }
                match r {
                    Ok(b) => {
                        let ghost self1 = *self;
                        seg.write_range(b.start, tmp.as_slice());
                        self.deallocate(&*seg, lo, hi, block, old_layout);
                        proof {
                            self1.lemma_dealloc_spec(
                                seg.base_spec(),
                                lo as int,
                                hi as int,
                                block,
                                old_layout,
                            );
                        }
                        Ok(b)
                    },
                    Err(e) => Err(e),
                }
            },
        }
    }
}

} // verus!
