//! The external allocator: caller-supplied memory, out-of-band control.
//!
//! Wraps a caller-supplied segment together with a freshly constructed
//! control over the *entire* segment — no header carve-out.  Used when the
//! control state must not consume segment bytes, e.g. when it is tracked
//! outside the region.

use crate::allocator::{ContiguousAllocator, RawContiguousAllocator};
use crate::control::Control;
use crate::layout::{AllocError, Block, Layout};
use crate::segment::Segment;
use vstd::prelude::*;

verus! {

/// The minimum model alignment demanded of the supplied memory.
pub const MIN_ALIGN: usize = 16;

/// Error reported when the supplied memory is not aligned to
/// [`MIN_ALIGN`].
#[derive(Clone, Copy, PartialEq, Eq, Structural, Debug)]
pub struct ExternalError;

/// An allocator over a caller-supplied segment, with the control state
/// held beside the segment rather than inside it.
pub struct External<C> {
    seg: Segment,
    control: C,
    count: Ghost<nat>,
    freed: Ghost<Seq<Block>>,
}

impl<C: Control> External<C> {
    /// The control state driving this allocator.
    pub closed spec fn control_spec(&self) -> C {
        self.control
    }

    /// Returns a reference to the control structure.
    pub fn control(&self) -> (r: &C)
        ensures
            *r == self.control_spec(),
    {
        &self.control
    }

    /// Wraps `seg` with a fresh control over all of it.
    ///
    /// Fails, handing the segment back untouched, exactly when the
    /// segment's model address is not aligned to [`MIN_ALIGN`].
    pub fn new(seg: Segment) -> (r: Result<External<C>, (ExternalError, Segment)>)
        requires
            seg.wf(),
        ensures
            r matches Ok(a) ==> {
                &&& seg.base_spec() % (MIN_ALIGN as int) == 0
                &&& a.wf()
                &&& a.base() == seg.base_spec()
                &&& a.lo() == 0
                &&& a.cap() == seg@.len()
                &&& a.region() == seg@
                &&& a.allocs() == 0
                &&& a.used() == 0
                &&& a.released() == Seq::<Block>::empty()
                &&& a.control_spec() == C::new_spec(0, seg@.len() as int)
            },
            r matches Err(e) ==> {
                &&& seg.base_spec() % (MIN_ALIGN as int) != 0
                &&& e.1 == seg
            },
    {
        let base = seg.base();
        if base % MIN_ALIGN != 0 {
            return Err((ExternalError, seg));
        }
        let hi = seg.len();
        let control = C::new(0, hi);
        proof {
            C::lemma_new_wf(0, hi as int);
        }
        Ok(External { seg, control, count: Ghost(0), freed: Ghost(Seq::empty()) })
    }

    /// Hands the managed segment back to the caller.
    pub fn into_segment(self) -> (r: Segment)
        ensures
            r@ == self.region(),
            r.base_spec() == self.base(),
            self.wf() ==> r.wf(),
    {
        self.seg
    }
}

impl<C: Control> ContiguousAllocator for External<C> {
    closed spec fn wf(&self) -> bool {
        &&& self.seg.wf()
        &&& self.control.wf(0, self.seg@.len() as int)
    }

    closed spec fn base(&self) -> int {
        self.seg.base_spec()
    }

    closed spec fn lo(&self) -> int {
        0
    }

    closed spec fn cap(&self) -> int {
        self.seg@.len() as int
    }

    closed spec fn region(&self) -> Seq<u8> {
        self.seg@
    }

    closed spec fn allocs(&self) -> nat {
        self.count@
    }

    closed spec fn used(&self) -> int {
        self.control.used(0, self.seg@.len() as int)
    }

    closed spec fn released(&self) -> Seq<Block> {
        self.freed@
    }

    closed spec fn alloc_transition(&self, layout: Layout) -> (External<C>, Result<
        Block,
        AllocError,
    >) {
        let (c2, r) = self.control.alloc_spec(
            self.seg.base_spec(),
            0,
            self.seg@.len() as int,
            layout,
        );
        (
            External {
                seg: self.seg,
                control: c2,
                count: if r is Ok {
                    Ghost((self.count@ + 1) as nat)
                } else {
                    self.count
                },
                freed: self.freed,
            },
            r,
        )
    }

    closed spec fn dealloc_transition(&self, block: Block, layout: Layout) -> External<C> {
        External {
            seg: self.seg,
            control: self.control.dealloc_spec(
                self.seg.base_spec(),
                0,
                self.seg@.len() as int,
                block,
                layout,
            ),
            count: self.count,
            freed: Ghost(self.freed@.push(block)),
        }
    }

    closed spec fn grow_result(&self, block: Block, old_layout: Layout, new_layout: Layout) -> Result<
        Block,
        AllocError,
    > {
        let (cp, rp) = self.control.grow_in_place_spec(
            self.seg.base_spec(),
            0,
            self.seg@.len() as int,
            block,
            old_layout,
            new_layout,
        );
        if rp is Ok {
            rp
        } else {
            self.control.alloc_spec(self.seg.base_spec(), 0, self.seg@.len() as int, new_layout).1
        }
    }

    closed spec fn shrink_result(&self, block: Block, old_layout: Layout, new_layout: Layout) -> Result<
        Block,
        AllocError,
    > {
        let (cp, rp) = self.control.shrink_in_place_spec(
            self.seg.base_spec(),
            0,
            self.seg@.len() as int,
            block,
            old_layout,
            new_layout,
        );
        if rp is Ok {
            rp
        } else {
            self.control.alloc_spec(self.seg.base_spec(), 0, self.seg@.len() as int, new_layout).1
        }
    }

    proof fn lemma_wf(&self) {
        self.control.lemma_used_bounds(0, self.seg@.len() as int);
    }

    fn allocate(&mut self, layout: Layout) -> (r: Result<Block, AllocError>) {
        let ghost c0 = self.control;
        let hi = self.seg.len();
        let r = self.control.allocate(&self.seg, 0, hi, layout);
        proof {
            c0.lemma_alloc_spec(self.seg.base_spec(), 0, hi as int, layout);
        }
        if r.is_ok() {
            self.count = Ghost(self.count@ + 1);
        }
        r
    }

    fn deallocate(&mut self, block: Block, layout: Layout) {
        let ghost c0 = self.control;
        let hi = self.seg.len();
        self.control.deallocate(&self.seg, 0, hi, block, layout);
        self.freed = Ghost(self.freed@.push(block));
        proof {
            c0.lemma_dealloc_spec(self.seg.base_spec(), 0, hi as int, block, layout);
        }
    }

    fn allocate_zeroed(&mut self, layout: Layout) -> (r: Result<Block, AllocError>) {
        let ghost c0 = self.control;
        let hi = self.seg.len();
        let r = self.control.allocate_zeroed(&mut self.seg, 0, hi, layout);
        proof {
            c0.lemma_alloc_spec(self.seg.base_spec(), 0, hi as int, layout);
        }
        if r.is_ok() {
            self.count = Ghost(self.count@ + 1);
        }
        r
    }

    fn grow(&mut self, block: Block, old_layout: Layout, new_layout: Layout) -> (r: Result<
        Block,
        AllocError,
    >) {
        let ghost self0 = *self;
        let hi = self.seg.len();
        let r = self.control.grow(&mut self.seg, 0, hi, block, old_layout, new_layout);
        proof {
            let (cp, rp) = self0.control.grow_in_place_spec(
                self0.seg.base_spec(),
                0 as int,
                self0.seg@.len() as int,
                block,
                old_layout,
                new_layout,
            );
            let (ca, ra) = self0.control.alloc_spec(
                self0.seg.base_spec(),
                0 as int,
                self0.seg@.len() as int,
                new_layout,
            );
            let gr = self0.grow_result(block, old_layout, new_layout);
            match r {
                Ok(b) => {
                    assert(r == Ok::<Block, AllocError>(b));
                    assert(gr == Ok::<Block, AllocError>(b));
                },
                Err(e) => {
                    assert(e == AllocError);
                    assert(r == Err::<Block, AllocError>(AllocError));
                    assert(gr is Err);
                    assert(gr == Err::<Block, AllocError>(gr->Err_0));
                    assert(gr->Err_0 == AllocError);
                },
            }
            assert(r == gr);
        }
        r
    }

    fn grow_zeroed(&mut self, block: Block, old_layout: Layout, new_layout: Layout) -> (r: Result<
        Block,
        AllocError,
    >) {
        let ghost self0 = *self;
        let hi = self.seg.len();
        let r = self.control.grow_zeroed(&mut self.seg, 0, hi, block, old_layout, new_layout);
        proof {
            let (cp, rp) = self0.control.grow_in_place_spec(
                self0.seg.base_spec(),
                0 as int,
                self0.seg@.len() as int,
                block,
                old_layout,
                new_layout,
            );
            let (ca, ra) = self0.control.alloc_spec(
                self0.seg.base_spec(),
                0 as int,
                self0.seg@.len() as int,
                new_layout,
            );
            let gr = self0.grow_result(block, old_layout, new_layout);
            match r {
                Ok(b) => {
                    assert(r == Ok::<Block, AllocError>(b));
                    assert(gr == Ok::<Block, AllocError>(b));
                },
                Err(e) => {
                    assert(e == AllocError);
                    assert(r == Err::<Block, AllocError>(AllocError));
                    assert(gr is Err);
                    assert(gr == Err::<Block, AllocError>(gr->Err_0));
                    assert(gr->Err_0 == AllocError);
                },
            }
            assert(r == gr);
        }
        r
    }

    fn grow_in_place(&mut self, block: Block, old_layout: Layout, new_layout: Layout) -> (r: Result<
        Block,
        AllocError,
    >) {
        let hi = self.seg.len();
        self.control.grow_in_place(&mut self.seg, 0, hi, block, old_layout, new_layout)
    }

    fn grow_zeroed_in_place(&mut self, block: Block, old_layout: Layout, new_layout: Layout) -> (r:
        Result<Block, AllocError>) {
        let hi = self.seg.len();
        self.control.grow_zeroed_in_place(&mut self.seg, 0, hi, block, old_layout, new_layout)
    }

    fn shrink(&mut self, block: Block, old_layout: Layout, new_layout: Layout) -> (r: Result<
        Block,
        AllocError,
    >) {
        let ghost self0 = *self;
        let hi = self.seg.len();
        let r = self.control.shrink(&mut self.seg, 0, hi, block, old_layout, new_layout);
        proof {
            let (cp, rp) = self0.control.shrink_in_place_spec(
                self0.seg.base_spec(),
                0 as int,
                self0.seg@.len() as int,
                block,
                old_layout,
                new_layout,
            );
            let (ca, ra) = self0.control.alloc_spec(
                self0.seg.base_spec(),
                0 as int,
                self0.seg@.len() as int,
                new_layout,
            );
            let gr = self0.shrink_result(block, old_layout, new_layout);
            match r {
                Ok(b) => {
                    assert(r == Ok::<Block, AllocError>(b));
                    assert(gr == Ok::<Block, AllocError>(b));
                },
                Err(e) => {
                    assert(e == AllocError);
                    assert(r == Err::<Block, AllocError>(AllocError));
                    assert(gr is Err);
                    assert(gr == Err::<Block, AllocError>(gr->Err_0));
                    assert(gr->Err_0 == AllocError);
                },
            }
            assert(r == gr);
        }
        r
    }

    fn shrink_in_place(&mut self, block: Block, old_layout: Layout, new_layout: Layout) -> (r:
        Result<Block, AllocError>) {
        let hi = self.seg.len();
        self.control.shrink_in_place(&mut self.seg, 0, hi, block, old_layout, new_layout)
    }

    fn region_read(&self, start: usize, n: usize) -> (r: Vec<u8>) {
        self.seg.read_range(start, n)
    }

    fn region_write(&mut self, start: usize, data: &[u8]) {
        self.seg.write_range(start, data);
    }
}

/// The external allocator's model, published: it manages its whole
/// segment (`lo == 0`), its watermark is its control's, and its
/// transitions and outcomes are its control's transitions over the whole
/// segment, with the allocation and release logs carried along.
pub proof fn lemma_external_model<C: Control>(a: External<C>)
    ensures
        a.lo() == 0,
        a.used() == a.control_spec().used(0, a.cap()),
        a.wf() ==> a.control_spec().wf(0, a.cap()),
        forall|l: Layout|
            {
                let (a2, r) = #[trigger] a.alloc_transition(l);
                let (c2, r2) = a.control_spec().alloc_spec(a.base(), 0, a.cap(), l);
                &&& a2.control_spec() == c2
                &&& r == r2
                &&& a2.base() == a.base()
                &&& a2.lo() == 0
                &&& a2.cap() == a.cap()
                &&& a2.region() == a.region()
                &&& a2.used() == c2.used(0, a.cap())
                &&& a2.released() == a.released()
                &&& a2.allocs() == if r2 is Ok {
                    a.allocs() + 1
                } else {
                    a.allocs()
                }
            },
        forall|blk: Block, l: Layout|
            {
                let a2 = #[trigger] a.dealloc_transition(blk, l);
                &&& a2.control_spec() == a.control_spec().dealloc_spec(a.base(), 0, a.cap(), blk, l)
                &&& a2.base() == a.base()
                &&& a2.lo() == 0
                &&& a2.cap() == a.cap()
                &&& a2.region() == a.region()
                &&& a2.allocs() == a.allocs()
                &&& a2.released() == a.released().push(blk)
            },
        forall|blk: Block, ol: Layout, nl: Layout| #[trigger] a.grow_result(blk, ol, nl) == ({
            let (cp, rp) = a.control_spec().grow_in_place_spec(a.base(), 0, a.cap(), blk, ol, nl);
            if rp is Ok {
                rp
            } else {
                a.control_spec().alloc_spec(a.base(), 0, a.cap(), nl).1
            }
        }),
        forall|blk: Block, ol: Layout, nl: Layout| #[trigger] a.shrink_result(blk, ol, nl) == ({
            let (cp, rp) = a.control_spec().shrink_in_place_spec(a.base(), 0, a.cap(), blk, ol, nl);
            if rp is Ok {
                rp
            } else {
                a.control_spec().alloc_spec(a.base(), 0, a.cap(), nl).1
            }
        }),
{
}

impl<C: Control> RawContiguousAllocator for External<C> {
}

} // verus!
