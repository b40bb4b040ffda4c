//! Tests for relative pointers and in-region string records.

use rel_alloc::allocator::ContiguousAllocator;
use rel_alloc::external::External;
use rel_alloc::layout::Layout;
use rel_alloc::rel_ptr::RelPtr;
use rel_alloc::segment::Segment;
use rel_alloc::short_string::{RelShortString, RECORD_SIZE};
use rel_alloc::slab::Slab;

fn layout(size: usize, align: usize) -> Layout {
    Layout::from_size_align(size, align).unwrap()
}

fn external_slab(len: usize) -> External<Slab> {
    match External::<Slab>::new(Segment::new(0, len)) {
        Ok(a) => a,
        Err(_) => panic!("segment should be accepted"),
    }
}

#[test]
fn rel_ptr_links_forward_and_backward() {
    let fwd = RelPtr::emplace_between(100, 260);
    assert_eq!(fwd.resolve(100), 260);
    let back = RelPtr::emplace_between(260, 100);
    assert_eq!(back.resolve(260), 100);
}

#[test]
fn rel_ptr_survives_translation() {
    // Moving the pointer and its pointee together moves the resolved
    // location by the same distance.
    let p = RelPtr::emplace_between(64, 40);
    assert_eq!(p.resolve(64), 40);
    assert_eq!(p.resolve(64 + 1000), 40 + 1000);
}

#[test]
fn rel_ptr_bits_round_trip() {
    let p = RelPtr::emplace_between(500, 8);
    let q = RelPtr::from_bits(p.to_bits());
    assert_eq!(q.resolve(500), 8);
}

#[test]
fn record_round_trip_inline_and_spilled() {
    let mut ext = external_slab(4096);
    for n in [0usize, 5, 16, 17, 48] {
        let data: Vec<u8> = (0..n).map(|i| (i * 3) as u8).collect();
        let slot = ext.allocate(layout(RECORD_SIZE, 8)).unwrap();
        RelShortString::emplace_at(&mut ext, slot.start, data.as_slice()).unwrap();
        assert_eq!(RelShortString::read_at(&ext, slot.start), data);
    }
}

#[test]
fn record_spill_allocates_exactly_the_payload() {
    let mut ext = external_slab(4096);
    let slot = ext.allocate(layout(RECORD_SIZE, 8)).unwrap();
    assert_eq!(ext.control().len(), RECORD_SIZE);
    let data = vec![7u8; 40];
    RelShortString::emplace_at(&mut ext, slot.start, data.as_slice()).unwrap();
    assert_eq!(ext.control().len(), RECORD_SIZE + 40);
    assert_eq!(RelShortString::read_at(&ext, slot.start), data);
}

#[test]
fn populate_many_records() {
    // Streaming population of one region: a record per entry, emplaced
    // in sequence, then every entry read back intact.
    let mut ext = external_slab(8192);
    let entries: Vec<Vec<u8>> = vec![
        b"GET /index HTTP/1.0".to_vec(),
        b"alice".to_vec(),
        vec![],
        vec![0xAB; 100],
        b"10.0.0.42".to_vec(),
    ];
    let mut slots: Vec<usize> = Vec::new();
    for data in &entries {
        let slot = ext.allocate(layout(RECORD_SIZE, 8)).unwrap();
        RelShortString::emplace_at(&mut ext, slot.start, data.as_slice()).unwrap();
        slots.push(slot.start);
    }
    for (slot, data) in slots.iter().zip(entries.iter()) {
        assert_eq!(&RelShortString::read_at(&ext, *slot), data);
    }
}

#[test]
fn record_survives_relocation_to_another_address() {
    // Emplace a spilled record, then reopen the same bytes at a very
    // different model address: every link is an offset, so nothing needs
    // fixing up.
    let mut ext = external_slab(4096);
    let slot = ext.allocate(layout(RECORD_SIZE, 8)).unwrap();
    let data: Vec<u8> = (0..32u8).collect();
    RelShortString::emplace_at(&mut ext, slot.start, data.as_slice()).unwrap();

    let bytes = ext.into_segment().into_vec();
    let moved = match External::<Slab>::new(Segment::from_vec(65536, bytes)) {
        Ok(a) => a,
        Err(_) => panic!("the relocated segment should be accepted"),
    };
    assert_eq!(RelShortString::read_at(&moved, slot.start), data);
}

#[test]
fn record_survives_a_shift_inside_the_region() {
    // Shift the record and its payload by a common distance inside a
    // larger buffer; the relative link still reaches the payload.
    let mut ext = external_slab(1024);
    let slot = ext.allocate(layout(RECORD_SIZE, 8)).unwrap();
    let data = vec![9u8; 20];
    RelShortString::emplace_at(&mut ext, slot.start, data.as_slice()).unwrap();

    let bytes = ext.into_segment().into_vec();
    let shift = 256usize;
    let mut moved_bytes = vec![0u8; shift];
    moved_bytes.extend_from_slice(&bytes);
    let moved = match External::<Slab>::new(Segment::from_vec(0, moved_bytes)) {
        Ok(a) => a,
        Err(_) => panic!("the shifted segment should be accepted"),
    };
    assert_eq!(RelShortString::read_at(&moved, slot.start + shift), data);
}
