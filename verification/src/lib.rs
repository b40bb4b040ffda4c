//! Relocatable, position-independent data structures and the allocator
//! infrastructure needed to place them inside arbitrary memory regions.
//!
//! Ordinary pointer-based structures embed absolute addresses that become
//! invalid when their containing memory moves.  This crate instead builds
//! structures whose internal links are offsets into a region, together with
//! a typed placement protocol, so that a structure emplaced into a region
//! byte-range stays valid when the whole range is copied, persisted, or
//! reopened at another address.
//!
//! The region itself is modelled by [`segment::Segment`]: the managed bytes
//! plus the model address at which they sit.  Allocators partition a segment
//! into disjoint blocks of offsets; every contract speaks of offsets and of
//! the segment's byte contents, never of machine pointers.
//!
//! The pieces, leaf first: [`layout`] describes allocation requests;
//! [`Control`] is the allocation state machine, with [`slab::Slab`] as its
//! bump-allocating implementation; [`external::External`] and
//! [`prefix::Prefix`] are the concrete allocators over a segment;
//! [`brand::Brand`] and [`adapters::DerefAdapter`] bind and lift
//! allocators; [`rel_ptr::RelPtr`] is the self-relative link; and
//! [`short_string::RelShortString`] is the data structure that exercises
//! the whole stack, inline/spill decision included.

pub mod allocator;
pub mod layout;
pub mod segment;

mod control;

pub mod adapters;
pub mod brand;
pub mod external;
pub mod prefix;
pub mod rel_ptr;
pub mod short_string;
pub mod slab;
pub mod unique;
pub mod unique_region;

pub use control::Control;
