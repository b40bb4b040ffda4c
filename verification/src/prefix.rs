//! The prefix allocator: control state stored at the head of its segment.
//!
//! The first [`HEADER_SIZE`] bytes of the segment form the header: the
//! segment's total capacity, then the control's persisted state, each as a
//! little-endian 64-bit word.  The usable bytes are everything after the
//! header.  Because the header lives inside the managed bytes, a segment
//! written out by [`Prefix::into_segment`] can be reopened later with
//! [`Prefix::try_from_bytes`] without re-running initialization.

use crate::allocator::{ContiguousAllocator, RawContiguousAllocator, Region};
use crate::brand::{lemma_brand_delegates, Brand};
use crate::control::Control;
use crate::layout::{AllocError, Block, Layout};
use crate::segment::{spec_write_range, Segment};
use crate::unique::Unique;
use crate::unique_region::UniqueRegion;
use core::marker::PhantomData;
use vstd::bytes::{lemma_auto_spec_u64_to_from_le_bytes, spec_u64_from_le_bytes, spec_u64_to_le_bytes};
use vstd::prelude::*;

verus! {

/// The size in bytes of the header record at the start of the segment:
/// one capacity word and one control word.
pub const HEADER_SIZE: usize = 16;

/// The model alignment the header demands of its segment.
pub const HEADER_ALIGN: usize = 16;

/// Error reported when a segment is too small for the header, misaligned,
/// or holds a header that does not describe it.
#[derive(Clone, Copy, PartialEq, Eq, Structural, Debug)]
pub struct PrefixError;

/// An allocator whose control state is kept at the head of the very
/// segment it manages.
pub struct Prefix<C> {
    seg: Segment,
    control: C,
    count: Ghost<nat>,
    freed: Ghost<Seq<Block>>,
}

/// The bytes of a prefix allocator's segment with the header brought up
/// to date: capacity word, control word, then the usable bytes as they
/// are.
pub open spec fn spec_persisted<C: Control>(cap: int, control: C, bytes: Seq<u8>) -> Seq<u8> {
    spec_write_range(
        spec_write_range(bytes, 0, spec_u64_to_le_bytes(cap as u64)),
        8,
        spec_u64_to_le_bytes(control.encoded()),
    )
}

/// Whether `bytes` at model address `base` form a segment that
/// [`Prefix::try_from_bytes`] accepts: room for the header, aligned
/// start, a capacity word equal to the segment's length, and a control
/// word that round-trips and is consistent with the usable window.
pub open spec fn spec_header_ok<C: Control>(base: int, bytes: Seq<u8>) -> bool {
    let cw = spec_u64_from_le_bytes(bytes.subrange(0, 8));
    let w = spec_u64_from_le_bytes(bytes.subrange(8, 16));
    let c = C::decode_spec(w);
    &&& bytes.len() >= HEADER_SIZE
    &&& base % (HEADER_ALIGN as int) == 0
    &&& cw == bytes.len() as u64
    &&& c.encoded() == w
    &&& c.wf(HEADER_SIZE as int, bytes.len() as int)
}

impl<C: Control> Prefix<C> {
    /// The control state driving this allocator.
    pub closed spec fn control_spec(&self) -> C {
        self.control
    }

    /// Returns a reference to the control structure.
    pub fn control(&self) -> (r: &C)
        ensures
            *r == self.control_spec(),
    {
        &self.control
    }

    /// The capacity recorded in the header: the full segment length,
    /// header included.
    pub fn capacity(&self) -> (n: usize)
        ensures
            n == self.cap(),
    {
        self.seg.len()
    }

    /// Initializes a prefix allocator over `seg`, writing the header.
    ///
    /// Fails, handing the segment back untouched, exactly when the
    /// segment is smaller than the header or its model address is not
    /// aligned to [`HEADER_ALIGN`].
    pub fn try_new_in(seg: Segment) -> (r: Result<Prefix<C>, (PrefixError, Segment)>)
        requires
            seg.wf(),
        ensures
            r matches Ok(p) ==> {
                &&& seg@.len() >= HEADER_SIZE
                &&& seg.base_spec() % (HEADER_ALIGN as int) == 0
                &&& p.wf()
                &&& p.base() == seg.base_spec()
                &&& p.lo() == HEADER_SIZE
                &&& p.cap() == seg@.len()
                &&& p.allocs() == 0
                &&& p.used() == HEADER_SIZE
                &&& p.released() == Seq::<Block>::empty()
                &&& p.control_spec() == C::new_spec(HEADER_SIZE as int, seg@.len() as int)
                &&& p.region() == spec_persisted(seg@.len() as int, p.control_spec(), seg@)
            },
            r matches Err(e) ==> {
                &&& !(seg@.len() >= HEADER_SIZE && seg.base_spec() % (HEADER_ALIGN as int) == 0)
                &&& e.1 == seg
            },
    {
        let len = seg.len();
        let base = seg.base();
        if len < HEADER_SIZE || base % HEADER_ALIGN != 0 {
            return Err((PrefixError, seg));
        }
        let control = C::new(HEADER_SIZE, len);
        proof {
            C::lemma_new_wf(HEADER_SIZE as int, len as int);
            lemma_auto_spec_u64_to_from_le_bytes();
        }
        let mut seg = seg;
        seg.write_u64_le(0, len as u64);
        seg.write_u64_le(8, control.encode());
        Ok(Prefix { seg, control, count: Ghost(0), freed: Ghost(Seq::empty()) })
    }

    /// Reopens a segment previously written out by a prefix allocator.
    ///
    /// No byte is written: the header is read, checked, and its control
    /// word decoded.  Fails, handing the segment back untouched, exactly
    /// when the header does not describe the segment
    /// (see [`spec_header_ok`]).
    pub fn try_from_bytes(seg: Segment) -> (r: Result<Prefix<C>, (PrefixError, Segment)>)
        requires
            seg.wf(),
        ensures
            r matches Ok(p) ==> {
                &&& spec_header_ok::<C>(seg.base_spec(), seg@)
                &&& p.wf()
                &&& p.base() == seg.base_spec()
                &&& p.lo() == HEADER_SIZE
                &&& p.cap() == seg@.len()
                &&& p.allocs() == 0
                &&& p.control_spec() == C::decode_spec(
                    spec_u64_from_le_bytes(seg@.subrange(8, 16)),
                )
                &&& p.region() == seg@
            },
            r matches Err(e) ==> {
                &&& !spec_header_ok::<C>(seg.base_spec(), seg@)
                &&& e.1 == seg
            },
    {
        let len = seg.len();
        let base = seg.base();
        if len < HEADER_SIZE || base % HEADER_ALIGN != 0 {
            return Err((PrefixError, seg));
        }
        let cap_word = seg.read_u64_le(0);
        if cap_word != len as u64 {
            return Err((PrefixError, seg));
        }
        let w = seg.read_u64_le(8);
        let control = C::decode(w);
        if control.encode() != w {
            return Err((PrefixError, seg));
        }
        if !control.is_valid_for(HEADER_SIZE, len) {
            return Err((PrefixError, seg));
        }
        Ok(Prefix { seg, control, count: Ghost(0), freed: Ghost(Seq::empty()) })
    }

    /// Initializes a prefix allocator over `seg` and binds it to the
    /// region named by the unique borrow.
    pub fn try_new_in_region<'a, U: Unique>(seg: Segment, unique: &'a mut U) -> (r: Result<
        Brand<Prefix<C>, UniqueRegion<'a, U>>,
        (PrefixError, Segment),
    >)
        requires
            seg.wf(),
        ensures
            r matches Ok(p) ==> {
                &&& seg@.len() >= HEADER_SIZE
                &&& seg.base_spec() % (HEADER_ALIGN as int) == 0
                &&& p.wf()
                &&& p.base() == seg.base_spec()
                &&& p.lo() == HEADER_SIZE
                &&& p.cap() == seg@.len()
                &&& p.allocs() == 0
                &&& p.used() == HEADER_SIZE
                &&& p.released() == Seq::<Block>::empty()
                &&& p.inner_spec().control_spec() == C::new_spec(
                    HEADER_SIZE as int,
                    seg@.len() as int,
                )
                &&& p.region() == spec_persisted(
                    seg@.len() as int,
                    p.inner_spec().control_spec(),
                    seg@,
                )
            },
            r matches Err(e) ==> {
                &&& !(seg@.len() >= HEADER_SIZE && seg.base_spec() % (HEADER_ALIGN as int) == 0)
                &&& e.1 == seg
            },
    {
        match Prefix::try_new_in(seg) {
            Ok(p) => {
                let b = Brand::new(p, unique);
                proof {
                    lemma_brand_delegates(b);
                }
                Ok(b)
            },
            Err(e) => Err(e),
        }
    }

    /// Writes the header out and hands the segment back to the caller.
    ///
    /// The returned bytes can be reopened with [`Prefix::try_from_bytes`];
    /// see [`lemma_prefix_reopen`].
    pub fn into_segment(self) -> (r: Segment)
        requires
            self.wf(),
        ensures
            r.base_spec() == self.base(),
            r.wf(),
            r@ == spec_persisted(self.cap(), self.control_spec(), self.region()),
    {
        proof {
            lemma_auto_spec_u64_to_from_le_bytes();
        }
        let Prefix { mut seg, control, count, freed } = self;
        let len = seg.len();
        seg.write_u64_le(0, len as u64);
        seg.write_u64_le(8, control.encode());
        seg
    }
}

/// What a well-formed prefix allocator guarantees of its pieces: an
/// aligned segment with room for the header, and a control state
/// consistent with the usable window.  Together with
/// [`lemma_prefix_reopen`], this lets a caller conclude that the bytes
/// written out by [`Prefix::into_segment`] will reopen.
pub proof fn lemma_prefix_model<C: Control>(p: Prefix<C>)
    requires
        p.wf(),
    ensures
        p.base() % (HEADER_ALIGN as int) == 0,
        HEADER_SIZE <= p.cap() <= usize::MAX,
        p.region().len() == p.cap(),
        p.control_spec().wf(HEADER_SIZE as int, p.cap()),
        p.lo() == HEADER_SIZE,
        p.used() == p.control_spec().used(HEADER_SIZE as int, p.cap()),
        forall|l: Layout|
            {
                let (p2, r) = #[trigger] p.alloc_transition(l);
                let (c2, r2) = p.control_spec().alloc_spec(
                    p.base(),
                    HEADER_SIZE as int,
                    p.cap(),
                    l,
                );
                &&& p2.control_spec() == c2
                &&& r == r2
                &&& p2.base() == p.base()
                &&& p2.lo() == HEADER_SIZE
                &&& p2.cap() == p.cap()
                &&& p2.region() == p.region()
                &&& p2.used() == c2.used(HEADER_SIZE as int, p.cap())
                &&& p2.released() == p.released()
                &&& p2.allocs() == if r2 is Ok {
                    p.allocs() + 1
                } else {
                    p.allocs()
                }
            },
        forall|blk: Block, l: Layout|
            {
                let p2 = #[trigger] p.dealloc_transition(blk, l);
                &&& p2.control_spec() == p.control_spec().dealloc_spec(
                    p.base(),
                    HEADER_SIZE as int,
                    p.cap(),
                    blk,
                    l,
                )
                &&& p2.base() == p.base()
                &&& p2.lo() == HEADER_SIZE
                &&& p2.cap() == p.cap()
                &&& p2.region() == p.region()
                &&& p2.allocs() == p.allocs()
                &&& p2.released() == p.released().push(blk)
            },
        forall|blk: Block, ol: Layout, nl: Layout| #[trigger] p.grow_result(blk, ol, nl) == ({
            let (cp, rp) = p.control_spec().grow_in_place_spec(
                p.base(),
                HEADER_SIZE as int,
                p.cap(),
                blk,
                ol,
                nl,
            );
            if rp is Ok {
                rp
            } else {
                p.control_spec().alloc_spec(p.base(), HEADER_SIZE as int, p.cap(), nl).1
            }
        }),
        forall|blk: Block, ol: Layout, nl: Layout| #[trigger] p.shrink_result(blk, ol, nl) == ({
            let (cp, rp) = p.control_spec().shrink_in_place_spec(
                p.base(),
                HEADER_SIZE as int,
                p.cap(),
                blk,
                ol,
                nl,
            );
            if rp is Ok {
                rp
            } else {
                p.control_spec().alloc_spec(p.base(), HEADER_SIZE as int, p.cap(), nl).1
            }
        }),
{
}

/// Reopening the bytes written out by a well-formed prefix allocator
/// succeeds, and reproduces its capacity and its control state: the
/// header passes every check of [`Prefix::try_from_bytes`], and the
/// control word decodes to the state that was persisted.
pub proof fn lemma_prefix_reopen<C: Control>(base: int, cap: int, control: C, bytes: Seq<u8>)
    requires
        base % (HEADER_ALIGN as int) == 0,
        HEADER_SIZE <= cap <= usize::MAX,
        bytes.len() == cap,
        control.wf(HEADER_SIZE as int, cap),
    ensures
        spec_header_ok::<C>(base, spec_persisted(cap, control, bytes)),
        C::decode_spec(
            spec_u64_from_le_bytes(spec_persisted(cap, control, bytes).subrange(8, 16)),
        ) == control,
        spec_persisted(cap, control, bytes).len() == cap,
{
    lemma_auto_spec_u64_to_from_le_bytes();
    let p = spec_persisted(cap, control, bytes);
    assert(p.len() == cap);
    assert(p.subrange(0, 8) =~= spec_u64_to_le_bytes(cap as u64));
    assert(p.subrange(8, 16) =~= spec_u64_to_le_bytes(control.encoded()));
    control.lemma_codec();
}

impl<C: Control> ContiguousAllocator for Prefix<C> {
    closed spec fn wf(&self) -> bool {
        &&& self.seg.wf()
        &&& self.seg.base_spec() % (HEADER_ALIGN as int) == 0
        &&& self.seg@.len() >= HEADER_SIZE
        &&& self.control.wf(HEADER_SIZE as int, self.seg@.len() as int)
    }

    closed spec fn base(&self) -> int {
        self.seg.base_spec()
    }

    closed spec fn lo(&self) -> int {
        HEADER_SIZE as int
    }

    closed spec fn cap(&self) -> int {
        self.seg@.len() as int
    }

    closed spec fn region(&self) -> Seq<u8> {
        self.seg@
    }

    closed spec fn allocs(&self) -> nat {
        self.count@
    }

    closed spec fn used(&self) -> int {
        self.control.used(HEADER_SIZE as int, self.seg@.len() as int)
    }

    closed spec fn released(&self) -> Seq<Block> {
        self.freed@
    }

    closed spec fn alloc_transition(&self, layout: Layout) -> (Prefix<C>, Result<
        Block,
        AllocError,
    >) {
        let (c2, r) = self.control.alloc_spec(
            self.seg.base_spec(),
            HEADER_SIZE as int,
            self.seg@.len() as int,
            layout,
        );
        (
            Prefix {
                seg: self.seg,
                control: c2,
                count: if r is Ok {
                    Ghost((self.count@ + 1) as nat)
                } else {
                    self.count
                },
                freed: self.freed,
            },
            r,
        )
    }

    closed spec fn dealloc_transition(&self, block: Block, layout: Layout) -> Prefix<C> {
        Prefix {
            seg: self.seg,
            control: self.control.dealloc_spec(
                self.seg.base_spec(),
                HEADER_SIZE as int,
                self.seg@.len() as int,
                block,
                layout,
            ),
            count: self.count,
            freed: Ghost(self.freed@.push(block)),
        }
    }

    closed spec fn grow_result(&self, block: Block, old_layout: Layout, new_layout: Layout) -> Result<
        Block,
        AllocError,
    > {
        let (cp, rp) = self.control.grow_in_place_spec(
            self.seg.base_spec(),
            HEADER_SIZE as int,
            self.seg@.len() as int,
            block,
            old_layout,
            new_layout,
        );
        if rp is Ok {
            rp
        } else {
            self.control.alloc_spec(
                self.seg.base_spec(),
                HEADER_SIZE as int,
                self.seg@.len() as int,
                new_layout,
            ).1
        }
    }

    closed spec fn shrink_result(&self, block: Block, old_layout: Layout, new_layout: Layout) -> Result<
        Block,
        AllocError,
    > {
        let (cp, rp) = self.control.shrink_in_place_spec(
            self.seg.base_spec(),
            HEADER_SIZE as int,
            self.seg@.len() as int,
            block,
            old_layout,
            new_layout,
        );
        if rp is Ok {
            rp
        } else {
            self.control.alloc_spec(
                self.seg.base_spec(),
                HEADER_SIZE as int,
                self.seg@.len() as int,
                new_layout,
            ).1
        }
    }

    proof fn lemma_wf(&self) {
        self.control.lemma_used_bounds(HEADER_SIZE as int, self.seg@.len() as int);
    }

    fn allocate(&mut self, layout: Layout) -> (r: Result<Block, AllocError>) {
        let ghost c0 = self.control;
        let hi = self.seg.len();
        let r = self.control.allocate(&self.seg, HEADER_SIZE, hi, layout);
        proof {
            c0.lemma_alloc_spec(self.seg.base_spec(), HEADER_SIZE as int, hi as int, layout);
        }
        if r.is_ok() {
            self.count = Ghost(self.count@ + 1);
        }
        r
    }

    fn deallocate(&mut self, block: Block, layout: Layout) {
        let ghost c0 = self.control;
        let hi = self.seg.len();
        self.control.deallocate(&self.seg, HEADER_SIZE, hi, block, layout);
        self.freed = Ghost(self.freed@.push(block));
        proof {
            c0.lemma_dealloc_spec(
                self.seg.base_spec(),
                HEADER_SIZE as int,
                hi as int,
                block,
                layout,
            );
        }
    }

    fn allocate_zeroed(&mut self, layout: Layout) -> (r: Result<Block, AllocError>) {
        let ghost c0 = self.control;
        let hi = self.seg.len();
        let r = self.control.allocate_zeroed(&mut self.seg, HEADER_SIZE, hi, layout);
        proof {
            c0.lemma_alloc_spec(self.seg.base_spec(), HEADER_SIZE as int, hi as int, layout);
        }
        if r.is_ok() {
            self.count = Ghost(self.count@ + 1);
        }
        r
    }

    fn grow(&mut self, block: Block, old_layout: Layout, new_layout: Layout) -> (r: Result<
        Block,
        AllocError,
    >) {
        let ghost self0 = *self;
        let hi = self.seg.len();
        let r = self.control.grow(&mut self.seg, HEADER_SIZE, hi, block, old_layout, new_layout);
        proof {
            let (cp, rp) = self0.control.grow_in_place_spec(
                self0.seg.base_spec(),
                HEADER_SIZE as int,
                self0.seg@.len() as int,
                block,
                old_layout,
                new_layout,
            );
            let (ca, ra) = self0.control.alloc_spec(
                self0.seg.base_spec(),
                HEADER_SIZE as int,
                self0.seg@.len() as int,
                new_layout,
            );
            let gr = self0.grow_result(block, old_layout, new_layout);
            match r {
                Ok(b) => {
                    assert(r == Ok::<Block, AllocError>(b));
                    assert(gr == Ok::<Block, AllocError>(b));
                },
                Err(e) => {
                    assert(e == AllocError);
                    assert(r == Err::<Block, AllocError>(AllocError));
                    assert(gr is Err);
                    assert(gr == Err::<Block, AllocError>(gr->Err_0));
                    assert(gr->Err_0 == AllocError);
                },
            }
            assert(r == gr);
        }
        r
    }

    fn grow_zeroed(&mut self, block: Block, old_layout: Layout, new_layout: Layout) -> (r: Result<
        Block,
        AllocError,
    >) {
        let ghost self0 = *self;
        let hi = self.seg.len();
        let r = self.control.grow_zeroed(&mut self.seg, HEADER_SIZE, hi, block, old_layout, new_layout);
        proof {
            let (cp, rp) = self0.control.grow_in_place_spec(
                self0.seg.base_spec(),
                HEADER_SIZE as int,
                self0.seg@.len() as int,
                block,
                old_layout,
                new_layout,
            );
            let (ca, ra) = self0.control.alloc_spec(
                self0.seg.base_spec(),
                HEADER_SIZE as int,
                self0.seg@.len() as int,
                new_layout,
            );
            let gr = self0.grow_result(block, old_layout, new_layout);
            match r {
                Ok(b) => {
                    assert(r == Ok::<Block, AllocError>(b));
                    assert(gr == Ok::<Block, AllocError>(b));
                },
                Err(e) => {
                    assert(e == AllocError);
                    assert(r == Err::<Block, AllocError>(AllocError));
                    assert(gr is Err);
                    assert(gr == Err::<Block, AllocError>(gr->Err_0));
                    assert(gr->Err_0 == AllocError);
                },
            }
            assert(r == gr);
        }
        r
    }

    fn grow_in_place(&mut self, block: Block, old_layout: Layout, new_layout: Layout) -> (r: Result<
        Block,
        AllocError,
    >) {
        let hi = self.seg.len();
        self.control.grow_in_place(&mut self.seg, HEADER_SIZE, hi, block, old_layout, new_layout)
    }

    fn grow_zeroed_in_place(&mut self, block: Block, old_layout: Layout, new_layout: Layout) -> (r:
        Result<Block, AllocError>) {
        let hi = self.seg.len();
        self.control.grow_zeroed_in_place(
            &mut self.seg,
            HEADER_SIZE,
            hi,
            block,
            old_layout,
            new_layout,
        )
    }

    fn shrink(&mut self, block: Block, old_layout: Layout, new_layout: Layout) -> (r: Result<
        Block,
        AllocError,
    >) {
        let ghost self0 = *self;
        let hi = self.seg.len();
        let r = self.control.shrink(&mut self.seg, HEADER_SIZE, hi, block, old_layout, new_layout);
        proof {
            let (cp, rp) = self0.control.shrink_in_place_spec(
                self0.seg.base_spec(),
                HEADER_SIZE as int,
                self0.seg@.len() as int,
                block,
                old_layout,
                new_layout,
            );
            let (ca, ra) = self0.control.alloc_spec(
                self0.seg.base_spec(),
                HEADER_SIZE as int,
                self0.seg@.len() as int,
                new_layout,
            );
            let gr = self0.shrink_result(block, old_layout, new_layout);
            match r {
                Ok(b) => {
                    assert(r == Ok::<Block, AllocError>(b));
                    assert(gr == Ok::<Block, AllocError>(b));
                },
                Err(e) => {
                    assert(e == AllocError);
                    assert(r == Err::<Block, AllocError>(AllocError));
                    assert(gr is Err);
                    assert(gr == Err::<Block, AllocError>(gr->Err_0));
                    assert(gr->Err_0 == AllocError);
                },
            }
            assert(r == gr);
        }
        r
    }

    fn shrink_in_place(&mut self, block: Block, old_layout: Layout, new_layout: Layout) -> (r:
        Result<Block, AllocError>) {
        let hi = self.seg.len();
        self.control.shrink_in_place(&mut self.seg, HEADER_SIZE, hi, block, old_layout, new_layout)
    }

    fn region_read(&self, start: usize, n: usize) -> (r: Vec<u8>) {
        self.seg.read_range(start, n)
    }

    fn region_write(&mut self, start: usize, data: &[u8]) {
        self.seg.write_range(start, data);
    }
}

impl<C: Control> RawContiguousAllocator for Prefix<C> {
}

/// The region named after the unique key that initialized a prefix
/// allocator's segment.
pub struct PrefixRegion<U> {
    _phantom: PhantomData<U>,
}

impl<U: Unique> Region for PrefixRegion<U> {
}

} // verus!
