//! The slab control: a monotonic bump allocator.
//!
//! Its whole state is one length counter.  An allocation rounds the counter
//! up to the requested alignment and advances it past the new block;
//! releasing a block does nothing — slab memory is never reclaimed.  This
//! is intentional for append-only region population, where reclamation has
//! no use and its absence removes all free-list bookkeeping.

use crate::control::Control;
use crate::layout::{align_up, lemma_align_up, AllocError, Block, Layout};
use crate::segment::Segment;
use vstd::arithmetic::div_mod::lemma_add_mod_noop;
use vstd::prelude::*;

verus! {

/// Error value for slab-specific failures.
#[derive(Clone, Copy, PartialEq, Eq, Structural, Debug)]
pub struct SlabError;

/// A bump control: the number of window bytes handed out so far.
pub struct Slab {
    len: usize,
}

impl Slab {
    /// The counter: how many bytes of the window are spoken for.
    pub closed spec fn len_spec(&self) -> int {
        self.len as int
    }

    /// Whether nothing has been allocated yet.
    pub fn is_empty(&self) -> (b: bool)
        ensures
            b == (self.len_spec() == 0),
    {
        self.len == 0
    }

    /// The number of window bytes handed out so far.
    pub fn len(&self) -> (n: usize)
        ensures
            n == self.len_spec(),
    {
        self.len
    }
}

/// The slab transition, in the open: one request against a counter of
/// `len` over the window `[lo, hi)` of a segment at address `base`.
///
/// If the window's start is not aligned for the request, the request is
/// rejected outright and the counter stands.  Otherwise the counter is
/// rounded up to the alignment; if the aligned start plus the size
/// exceeds the window, the request is rejected for want of space and the
/// counter stands; otherwise the block is exactly
/// `[lo + align_up(len, align), .. + size)` and the counter advances to
/// its end.
pub open spec fn slab_alloc_spec(len: int, base: int, lo: int, hi: int, layout: Layout) -> (
    int,
    Result<Block, AllocError>,
) {
    let a = layout.align as int;
    if (base + lo) % a != 0 {
        (len, Err(AllocError))
    } else {
        let start_rel = align_up(len, a);
        if start_rel + layout.size > hi - lo {
            (len, Err(AllocError))
        } else {
            (
                start_rel + layout.size,
                Ok(Block { start: (lo + start_rel) as usize, size: layout.size }),
            )
        }
    }
}

impl Control for Slab {
    closed spec fn wf(&self, lo: int, hi: int) -> bool {
        0 <= self.len_spec() <= hi - lo
    }

    closed spec fn encoded(&self) -> u64 {
        self.len as u64
    }

    closed spec fn decode_spec(w: u64) -> Slab {
        Slab { len: w as usize }
    }

    closed spec fn new_spec(lo: int, hi: int) -> Slab {
        Slab { len: 0 }
    }

    closed spec fn alloc_spec(&self, base: int, lo: int, hi: int, layout: Layout) -> (Slab, Result<
        Block,
        AllocError,
    >) {
        let (len2, r) = slab_alloc_spec(self.len_spec(), base, lo, hi, layout);
        (Slab { len: len2 as usize }, r)
    }

    closed spec fn dealloc_spec(&self, base: int, lo: int, hi: int, block: Block, layout: Layout) -> Slab {
        *self
    }

    closed spec fn used(&self, lo: int, hi: int) -> int {
        lo + self.len_spec()
    }

    closed spec fn grow_in_place_spec(
        &self,
        base: int,
        lo: int,
        hi: int,
        block: Block,
        old_layout: Layout,
        new_layout: Layout,
    ) -> (Slab, Result<Block, AllocError>) {
        (*self, Err(AllocError))
    }

    closed spec fn shrink_in_place_spec(
        &self,
        base: int,
        lo: int,
        hi: int,
        block: Block,
        old_layout: Layout,
        new_layout: Layout,
    ) -> (Slab, Result<Block, AllocError>) {
        (*self, Err(AllocError))
    }

    proof fn lemma_used_bounds(&self, lo: int, hi: int) {
    }

    proof fn lemma_grow_in_place_spec(
        &self,
        base: int,
        lo: int,
        hi: int,
        block: Block,
        old_layout: Layout,
        new_layout: Layout,
    ) {
    }

    proof fn lemma_shrink_in_place_spec(
        &self,
        base: int,
        lo: int,
        hi: int,
        block: Block,
        old_layout: Layout,
        new_layout: Layout,
    ) {
    }

    proof fn lemma_new_wf(lo: int, hi: int) {
    }

    proof fn lemma_codec(&self) {
    }

    proof fn lemma_alloc_spec(&self, base: int, lo: int, hi: int, layout: Layout) {
        let a = layout.align as int;
        let (c, r) = self.alloc_spec(base, lo, hi, layout);
        if (base + lo) % a == 0 {
            lemma_align_up(self.len_spec(), a);
            let start_rel = align_up(self.len_spec(), a);
            if start_rel + layout.size <= hi - lo {
                lemma_add_mod_noop(base + lo, start_rel, a);
                assert(0 <= start_rel + layout.size <= usize::MAX);
                assert((start_rel + layout.size) as usize == start_rel + layout.size);
                assert(0 <= lo + start_rel <= usize::MAX);
                assert((lo + start_rel) as usize == lo + start_rel);
                assert(r matches Ok(b) ==> self.used(lo, hi) <= b.start && b.start + b.size
                    <= c.used(lo, hi));
                assert(r matches Ok(b) ==> lo <= b.start && b.start + b.size <= hi && (base
                    + b.start) % a == 0);
            } else {
                assert(c == *self && r is Err);
            }
        } else {
            assert(c == *self && r is Err);
        }
    }

    proof fn lemma_dealloc_spec(&self, base: int, lo: int, hi: int, block: Block, layout: Layout) {
    }

    fn new(lo: usize, hi: usize) -> (c: Slab) {
        Slab { len: 0 }
    }

    fn encode(&self) -> (w: u64) {
        self.len as u64
    }

    fn decode(w: u64) -> (c: Slab) {
        Slab { len: w as usize }
    }

    fn is_valid_for(&self, lo: usize, hi: usize) -> (b: bool) {
        self.len <= hi - lo
    }

    fn allocate(&mut self, seg: &Segment, lo: usize, hi: usize, layout: Layout) -> (r: Result<
        Block,
        AllocError,
    >) {
        let base = seg.base();
        assert(layout.align >= 1);
        if (base + lo) % layout.align != 0 {
            return Err(AllocError);
        }
        let win: usize = hi - lo;
        let len0: usize = self.len;
        let rem: usize = len0 % layout.align;
        let pad: usize = if rem == 0 {
            0
        } else {
            layout.align - rem
        };
        proof {
            lemma_align_up(len0 as int, layout.align as int);
        }
        if pad > win - len0 {
            return Err(AllocError);
        }
        let start_rel: usize = len0 + pad;
        if layout.size > win - start_rel {
            return Err(AllocError);
        }
        self.len = start_rel + layout.size;
        Ok(Block { start: lo + start_rel, size: layout.size })
    }

    fn deallocate(&mut self, seg: &Segment, lo: usize, hi: usize, block: Block, layout: Layout) {
        proof {
            assert(old(self).dealloc_spec(seg.base_spec(), lo as int, hi as int, block, layout)
                == *old(self));
        }
    }

    fn grow_in_place(
        &mut self,
        seg: &mut Segment,
        lo: usize,
        hi: usize,
        block: Block,
        old_layout: Layout,
        new_layout: Layout,
    ) -> (r: Result<Block, AllocError>) {
        Err(AllocError)
    }

    fn shrink_in_place(
        &mut self,
        seg: &mut Segment,
        lo: usize,
        hi: usize,
        block: Block,
        old_layout: Layout,
        new_layout: Layout,
    ) -> (r: Result<Block, AllocError>) {
        Err(AllocError)
    }
}

/// The slab's concrete model, published: a fresh slab's counter is zero;
/// consistency and the watermark are the counter's bounds; one request
/// behaves exactly as [`slab_alloc_spec`] says — so a failed request,
/// for space or for alignment, leaves the counter standing, and a
/// successful one places its block at `lo + align_up(len, align)`; and
/// the in-place policies always fail without touching the state.
pub proof fn lemma_slab_model(c: Slab, base: int, lo: int, hi: int, layout: Layout)
    requires
        layout.wf(),
        0 <= lo <= hi <= usize::MAX,
    ensures
        0 <= c.len_spec(),
        Slab::new_spec(lo, hi).len_spec() == 0,
        c.wf(lo, hi) == (0 <= c.len_spec() <= hi - lo),
        c.used(lo, hi) == lo + c.len_spec(),
        ({
            let (c2, r) = c.alloc_spec(base, lo, hi, layout);
            let (len2, r2) = slab_alloc_spec(c.len_spec(), base, lo, hi, layout);
            c2.len_spec() == len2 && r == r2
        }),
        slab_alloc_spec(c.len_spec(), base, lo, hi, layout).0 >= c.len_spec(),
        forall|block: Block, ol: Layout, nl: Layout| #[trigger] c.grow_in_place_spec(
            base,
            lo,
            hi,
            block,
            ol,
            nl,
        ) == (c, Err::<Block, AllocError>(AllocError)),
        forall|block: Block, ol: Layout, nl: Layout| #[trigger] c.shrink_in_place_spec(
            base,
            lo,
            hi,
            block,
            ol,
            nl,
        ) == (c, Err::<Block, AllocError>(AllocError)),
{
    assert(layout.align >= 1);
    if (base + lo) % (layout.align as int) == 0 {
        lemma_align_up(c.len_spec(), layout.align as int);
    }
}

/// The counter a run of requests needs: each request rounds the counter up
/// to its alignment and advances it by its size.
pub open spec fn slab_need(len: int, reqs: Seq<Layout>) -> int
    decreases reqs.len(),
{
    if reqs.len() == 0 {
        len
    } else {
        slab_need(align_up(len, reqs[0].align as int) + reqs[0].size, reqs.drop_first())
    }
}

/// The slab state after a run of requests, and whether every request in the
/// run succeeded.
pub open spec fn slab_run(c: Slab, base: int, lo: int, hi: int, reqs: Seq<Layout>) -> (Slab, bool)
    decreases reqs.len(),
{
    if reqs.len() == 0 {
        (c, true)
    } else {
        let (c1, r) = c.alloc_spec(base, lo, hi, reqs[0]);
        let (cr, ok) = slab_run(c1, base, lo, hi, reqs.drop_first());
        (cr, r is Ok && ok)
    }
}

/// The needed counter never falls below where it starts.
proof fn lemma_slab_need_lower(len: int, reqs: Seq<Layout>)
    requires
        0 <= len,
        forall|i: int| 0 <= i < reqs.len() ==> (#[trigger] reqs[i]).wf(),
    ensures
        slab_need(len, reqs) >= len,
    decreases reqs.len(),
{
    if reqs.len() > 0 {
        let rest = reqs.drop_first();
        assert(reqs[0].wf());
        assert forall|i: int| 0 <= i < rest.len() implies (#[trigger] rest[i]).wf() by {
            assert(rest[i] == reqs[i + 1]);
        }
        lemma_align_up(len, reqs[0].align as int);
        lemma_slab_need_lower(align_up(len, reqs[0].align as int) + reqs[0].size, rest);
    }
}

/// Sequential allocations from a slab succeed exactly when the sum of the
/// aligned offsets they need fits the window, and in that case the final
/// counter is that sum.
///
/// The window's start must be aligned for every request; otherwise the slab
/// rejects the request outright rather than for want of space.
pub proof fn lemma_slab_sequential(c: Slab, base: int, lo: int, hi: int, reqs: Seq<Layout>)
    requires
        c.wf(lo, hi),
        0 <= base,
        0 <= lo <= hi <= usize::MAX,
        forall|i: int| 0 <= i < reqs.len() ==> (#[trigger] reqs[i]).wf(),
        forall|i: int| 0 <= i < reqs.len() ==> (base + lo) % ((#[trigger] reqs[i]).align as int)
            == 0,
    ensures
        slab_run(c, base, lo, hi, reqs).1 <==> slab_need(c.len_spec(), reqs) <= hi - lo,
        slab_run(c, base, lo, hi, reqs).1 ==> slab_run(c, base, lo, hi, reqs).0.len_spec()
            == slab_need(c.len_spec(), reqs),
    decreases reqs.len(),
{
    if reqs.len() > 0 {
        let a = reqs[0].align as int;
        let rest = reqs.drop_first();
        assert(reqs[0].wf());
        assert((base + lo) % a == 0);
        assert forall|i: int| 0 <= i < rest.len() implies (#[trigger] rest[i]).wf() by {
            assert(rest[i] == reqs[i + 1]);
        }
        assert forall|i: int| 0 <= i < rest.len() implies (base + lo) % (
        (#[trigger] rest[i]).align as int) == 0 by {
            assert(rest[i] == reqs[i + 1]);
        }
        lemma_align_up(c.len_spec(), a);
        let start_rel = align_up(c.len_spec(), a);
        let (c1, r) = c.alloc_spec(base, lo, hi, reqs[0]);
        if start_rel + reqs[0].size <= hi - lo {
            assert(c1.len_spec() == start_rel + reqs[0].size);
            lemma_slab_sequential(c1, base, lo, hi, rest);
        } else {
            lemma_slab_need_lower(start_rel + reqs[0].size, rest);
        }
    }
}

/// Releasing a block leaves a slab exactly as it was, so it can never
/// change the outcome of later requests.
pub proof fn lemma_slab_deallocate_noop(
    c: Slab,
    base: int,
    lo: int,
    hi: int,
    block: Block,
    layout: Layout,
)
    ensures
        c.dealloc_spec(base, lo, hi, block, layout) == c,
{
}

} // verus!
