//! Tests for the segment, the controls, and the allocator family.

use rel_alloc::allocator::ContiguousAllocator;
use rel_alloc::adapters::DerefAdapter;
use rel_alloc::external::External;
use rel_alloc::layout::Layout;
use rel_alloc::prefix::Prefix;
use rel_alloc::segment::Segment;
use rel_alloc::slab::Slab;

fn layout(size: usize, align: usize) -> Layout {
    Layout::from_size_align(size, align).unwrap()
}

fn external_slab(base: usize, len: usize) -> External<Slab> {
    match External::<Slab>::new(Segment::new(base, len)) {
        Ok(a) => a,
        Err(_) => panic!("segment should be accepted"),
    }
}

#[test]
fn layout_construction() {
    assert!(Layout::from_size_align(8, 0).is_none());
    assert!(Layout::from_size_align(8, 3).is_none());
    assert!(Layout::from_size_align(8, 12).is_none());
    let l = Layout::from_size_align(8, 4).unwrap();
    assert_eq!(l.size, 8);
    assert_eq!(l.align, 4);
    let a = Layout::array_u8(5).unwrap();
    assert_eq!(a.size, 5);
    assert_eq!(a.align, 1);
}

#[test]
fn segment_byte_access() {
    let mut seg = Segment::new(0, 32);
    assert_eq!(seg.len(), 32);
    assert_eq!(seg.base(), 0);
    assert_eq!(seg.read_byte(7), 0);
    seg.write_byte(7, 0xAB);
    assert_eq!(seg.read_byte(7), 0xAB);
    seg.write_range(1, &[1, 2, 3]);
    assert_eq!(seg.read_range(0, 5), vec![0, 1, 2, 3, 0]);
    seg.fill_range(0, 5, 9);
    assert_eq!(seg.read_range(0, 6), vec![9, 9, 9, 9, 9, 0]);
}

#[test]
fn segment_word_round_trip() {
    let mut seg = Segment::new(16, 64);
    seg.write_u64_le(8, 0x0123_4567_89AB_CDEF);
    assert_eq!(seg.read_u64_le(8), 0x0123_4567_89AB_CDEF);
    assert_eq!(seg.read_byte(8), 0xEF);
    assert_eq!(seg.read_byte(15), 0x01);
}

#[test]
fn segment_from_vec_round_trip() {
    let seg = Segment::from_vec(0, vec![4, 5, 6]);
    assert_eq!(seg.len(), 3);
    assert_eq!(seg.into_vec(), vec![4, 5, 6]);
}

#[test]
fn external_rejects_misaligned_base() {
    match External::<Slab>::new(Segment::new(8, 64)) {
        Ok(_) => panic!("a misaligned segment must be rejected"),
        Err((_, seg)) => {
            assert_eq!(seg.base(), 8);
            assert_eq!(seg.len(), 64);
        },
    }
}

#[test]
fn slab_sequential_allocations() {
    // Requests of sizes 10, 5, 8 with alignments 1, 4, 8: the counter
    // passes 10, then 12..17, then 24..32.
    let mut ext = external_slab(0, 128);
    assert!(ext.control().is_empty());
    let b1 = ext.allocate(layout(10, 1)).unwrap();
    assert_eq!((b1.start, b1.size), (0, 10));
    let b2 = ext.allocate(layout(5, 4)).unwrap();
    assert_eq!((b2.start, b2.size), (12, 5));
    let b3 = ext.allocate(layout(8, 8)).unwrap();
    assert_eq!((b3.start, b3.size), (24, 8));
    assert_eq!(ext.control().len(), 32);
}

#[test]
fn slab_out_of_space_fails() {
    let mut ext = external_slab(0, 32);
    assert!(ext.allocate(layout(33, 1)).is_err());
    assert_eq!(ext.control().len(), 0);
    let _ = ext.allocate(layout(30, 1)).unwrap();
    // Three bytes short: the failure is an error value, not a crash.
    assert!(ext.allocate(layout(3, 1)).is_err());
    assert_eq!(ext.control().len(), 30);
}

#[test]
fn slab_rejects_unsatisfiable_alignment() {
    // The segment's model address is aligned to 16 but not to 32.
    let mut ext = external_slab(16, 64);
    assert!(ext.allocate(layout(4, 32)).is_err());
    let b = ext.allocate(layout(4, 16)).unwrap();
    assert_eq!(b.start, 0);
}

#[test]
fn slab_deallocate_is_a_no_op() {
    let mut ext = external_slab(0, 64);
    let b1 = ext.allocate(layout(8, 1)).unwrap();
    let len_before = ext.control().len();
    ext.deallocate(b1, layout(8, 1));
    assert_eq!(ext.control().len(), len_before);
    // Subsequent allocation behaviour is unchanged: the freed range is
    // not reused.
    let b2 = ext.allocate(layout(8, 1)).unwrap();
    assert_eq!(b2.start, 8);
}

#[test]
fn allocate_zeroed_clears_the_block() {
    let mut ext = match External::<Slab>::new(Segment::from_vec(0, vec![0xFF; 64])) {
        Ok(a) => a,
        Err(_) => panic!("segment should be accepted"),
    };
    let b = ext.allocate_zeroed(layout(16, 1)).unwrap();
    assert_eq!(ext.region_read(b.start, b.size), vec![0; 16]);
    // Bytes outside the block keep their contents.
    assert_eq!(ext.region_read(16, 4), vec![0xFF; 4]);
}

#[test]
fn grow_preserves_contents() {
    let mut ext = external_slab(0, 256);
    let b1 = ext.allocate(layout(8, 1)).unwrap();
    ext.region_write(b1.start, &[1, 2, 3, 4, 5, 6, 7, 8]);
    let b2 = ext.grow(b1, layout(8, 1), layout(32, 1)).unwrap();
    assert_eq!(b2.size, 32);
    assert_eq!(ext.region_read(b2.start, 8), vec![1, 2, 3, 4, 5, 6, 7, 8]);
}

#[test]
fn grow_zeroed_clears_the_tail() {
    let mut ext = match External::<Slab>::new(Segment::from_vec(0, vec![0xFF; 128])) {
        Ok(a) => a,
        Err(_) => panic!("segment should be accepted"),
    };
    let b1 = ext.allocate(layout(4, 1)).unwrap();
    ext.region_write(b1.start, &[1, 2, 3, 4]);
    let b2 = ext.grow_zeroed(b1, layout(4, 1), layout(12, 1)).unwrap();
    let mut expected = vec![1, 2, 3, 4];
    expected.extend_from_slice(&[0; 8]);
    assert_eq!(ext.region_read(b2.start, 12), expected);
}

#[test]
fn grow_fails_when_no_room_is_left() {
    let mut ext = external_slab(0, 32);
    let b1 = ext.allocate(layout(16, 1)).unwrap();
    // The slab cannot extend in place and has no room for a fresh copy.
    assert!(ext.grow(b1, layout(16, 1), layout(24, 1)).is_err());
}

#[test]
fn shrink_preserves_the_surviving_prefix() {
    let mut ext = external_slab(0, 256);
    let b1 = ext.allocate(layout(8, 1)).unwrap();
    ext.region_write(b1.start, &[9, 8, 7, 6, 5, 4, 3, 2]);
    let b2 = ext.shrink(b1, layout(8, 1), layout(3, 1)).unwrap();
    assert_eq!(b2.size, 3);
    assert_eq!(ext.region_read(b2.start, 3), vec![9, 8, 7]);
}

#[test]
fn deref_adapter_forwards() {
    let ext = external_slab(0, 64);
    let mut adapted = DerefAdapter::new(ext);
    let b = adapted.allocate(layout(8, 8)).unwrap();
    assert_eq!((b.start, b.size), (0, 8));
    let b2 = adapted.allocate(layout(4, 1)).unwrap();
    assert_eq!((b2.start, b2.size), (8, 4));
}

#[test]
fn prefix_rejects_small_or_misaligned_segments() {
    // Too small for the header: nothing is written.
    match Prefix::<Slab>::try_new_in(Segment::new(0, 8)) {
        Ok(_) => panic!("an undersized segment must be rejected"),
        Err((_, seg)) => assert_eq!(seg.into_vec(), vec![0; 8]),
    }
    // Misaligned model address: nothing is written.
    match Prefix::<Slab>::try_new_in(Segment::new(8, 64)) {
        Ok(_) => panic!("a misaligned segment must be rejected"),
        Err((_, seg)) => assert_eq!(seg.into_vec(), vec![0; 64]),
    }
}

#[test]
fn prefix_allocates_after_its_header() {
    let mut p = match Prefix::<Slab>::try_new_in(Segment::new(16, 128)) {
        Ok(p) => p,
        Err(_) => panic!("segment should be accepted"),
    };
    assert_eq!(p.capacity(), 128);
    let b = p.allocate(layout(10, 1)).unwrap();
    assert_eq!(b.start, 16);
    assert_eq!(p.control().len(), 10);
}

#[test]
fn prefix_reopens_from_bytes() {
    let mut p = match Prefix::<Slab>::try_new_in(Segment::new(16, 128)) {
        Ok(p) => p,
        Err(_) => panic!("segment should be accepted"),
    };
    let b = p.allocate(layout(10, 1)).unwrap();
    p.region_write(b.start, &[7; 10]);

    // Persist, then reopen without re-running initialization.
    let seg = p.into_segment();
    let mut p2 = match Prefix::<Slab>::try_from_bytes(seg) {
        Ok(p) => p,
        Err(_) => panic!("a persisted segment must reopen"),
    };
    assert_eq!(p2.capacity(), 128);
    assert_eq!(p2.control().len(), 10);
    assert_eq!(p2.region_read(b.start, 10), vec![7; 10]);
    // Allocation continues exactly where the first allocator stopped.
    let b2 = p2.allocate(layout(4, 2)).unwrap();
    assert_eq!(b2.start, 26);
}

#[test]
fn prefix_rejects_foreign_bytes() {
    // A zeroed segment has a capacity word of zero, which does not
    // describe the segment.
    assert!(Prefix::<Slab>::try_from_bytes(Segment::new(0, 64)).is_err());
}
