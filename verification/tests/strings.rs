//! Tests for the short string's inline/spill behaviour, end to end.

use rel_alloc::allocator::ContiguousAllocator;
use rel_alloc::brand::Brand;
use rel_alloc::external::External;
use rel_alloc::segment::Segment;
use rel_alloc::short_string::{RelShortString, INLINE_CAPACITY};
use rel_alloc::slab::Slab;
use rel_alloc::unique::Unique;

struct Token;

impl Unique for Token {}

fn external_slab(len: usize) -> External<Slab> {
    match External::<Slab>::new(Segment::new(0, len)) {
        Ok(a) => a,
        Err(_) => panic!("segment should be accepted"),
    }
}

#[test]
fn round_trip_inline_and_spilled() {
    let mut alloc = external_slab(4096);
    for n in [0usize, 1, 15, 16, 17, 64] {
        let data: Vec<u8> = (0..n).map(|i| i as u8).collect();
        let s = RelShortString::emplace_clone(&mut alloc, data.as_slice()).unwrap();
        assert_eq!(s.len(), n);
        assert_eq!(s.as_bytes(&alloc), data);
    }
}

#[test]
fn inline_contents_do_not_allocate() {
    let mut alloc = external_slab(4096);
    let s = RelShortString::emplace_clone(&mut alloc, &[3; 16]).unwrap();
    assert_eq!(alloc.control().len(), 0);
    assert_eq!(s.capacity(), INLINE_CAPACITY);
    assert_eq!(s.as_bytes(&alloc), vec![3; 16]);
}

#[test]
fn spilled_contents_allocate_exactly_once() {
    let mut alloc = external_slab(4096);
    let s = RelShortString::emplace_clone(&mut alloc, &[5; 20]).unwrap();
    // One out-of-line allocation of exactly the contents' size.
    assert_eq!(alloc.control().len(), 20);
    assert!(s.capacity() > INLINE_CAPACITY);
    assert_eq!(s.capacity(), 20);
    let s2 = RelShortString::emplace_clone(&mut alloc, &[6; 30]).unwrap();
    assert_eq!(alloc.control().len(), 50);
    assert_eq!(s2.as_bytes(&alloc), vec![6; 30]);
    assert_eq!(s.as_bytes(&alloc), vec![5; 20]);
}

#[test]
fn clear_empties_but_keeps_capacity() {
    let mut alloc = external_slab(4096);

    let mut inline = RelShortString::emplace_clone(&mut alloc, b"abc".as_slice()).unwrap();
    assert!(!inline.is_empty());
    inline.clear();
    assert!(inline.is_empty());
    assert_eq!(inline.len(), 0);
    assert_eq!(inline.capacity(), INLINE_CAPACITY);
    assert_eq!(inline.as_bytes(&alloc), Vec::<u8>::new());

    let mut spilled = RelShortString::emplace_clone(&mut alloc, &[9; 24]).unwrap();
    assert!(!spilled.is_empty());
    spilled.clear();
    assert!(spilled.is_empty());
    assert_eq!(spilled.len(), 0);
    assert_eq!(spilled.capacity(), 24);
    assert_eq!(spilled.as_bytes(&alloc), Vec::<u8>::new());
}

#[test]
fn set_byte_updates_inline_and_spilled_contents() {
    let mut alloc = external_slab(4096);

    let mut inline = RelShortString::emplace_clone(&mut alloc, b"abc".as_slice()).unwrap();
    inline.set_byte(&mut alloc, 1, b'x');
    assert_eq!(inline.as_bytes(&alloc), b"axc".to_vec());

    let mut spilled = RelShortString::emplace_clone(&mut alloc, &[7; 20]).unwrap();
    spilled.set_byte(&mut alloc, 19, 9);
    let mut expected = vec![7u8; 19];
    expected.push(9);
    assert_eq!(spilled.as_bytes(&alloc), expected);
    // The neighbouring inline string is untouched.
    assert_eq!(inline.as_bytes(&alloc), b"axc".to_vec());
}

#[test]
fn dispose_releases_the_backing_buffer() {
    let mut alloc = external_slab(4096);
    let inline = RelShortString::emplace_clone(&mut alloc, b"abc".as_slice()).unwrap();
    inline.dispose(&mut alloc);
    assert_eq!(alloc.control().len(), 0);

    let spilled = RelShortString::emplace_clone(&mut alloc, &[2; 20]).unwrap();
    assert_eq!(alloc.control().len(), 20);
    spilled.dispose(&mut alloc);
    // The slab never reuses released ranges, so its counter stands.
    assert_eq!(alloc.control().len(), 20);
}

#[test]
fn emplacement_failure_is_an_error_value() {
    let mut alloc = external_slab(32);
    // Longer than the whole region: the allocation fails and nothing
    // changes.
    assert!(RelShortString::emplace_clone(&mut alloc, &[1; 100]).is_err());
    assert_eq!(alloc.control().len(), 0);
}

#[test]
fn emplace_hello_through_a_branded_external_allocator() {
    // A 4096-byte zeroed, 16-byte-aligned buffer under a slab control,
    // bound to the region named by a unique token.
    let mut token = Token;
    let ext = external_slab(4096);
    let mut alloc = Brand::new(ext, &mut token);

    let s = RelShortString::emplace_clone(&mut alloc, b"hello".as_slice()).unwrap();

    // Five bytes fit inline: the slab's counter never moves.
    assert_eq!(alloc.inner().control().len(), 0);
    assert_eq!(s.as_bytes(&alloc), b"hello".to_vec());
    assert_eq!(s.len(), 5);
}

#[test]
fn emplace_a_long_string_through_a_branded_external_allocator() {
    let mut token = Token;
    let ext = external_slab(4096);
    let mut alloc = Brand::new(ext, &mut token);

    let data: Vec<u8> = (0..64u8).collect();
    let s = RelShortString::emplace_clone(&mut alloc, data.as_slice()).unwrap();

    // Sixty-four bytes spill: the slab's counter advances by exactly the
    // contents' size (alignment one adds no padding).
    assert_eq!(alloc.inner().control().len(), 64);
    assert_eq!(s.as_bytes(&alloc), data);
    assert_eq!(s.len(), 64);
}
