//! The region named by holding a unique value.

use crate::allocator::Region;
use crate::unique::Unique;
use core::marker::PhantomData;
use vstd::prelude::*;

verus! {

/// A region identified by an exclusive borrow of a unique value: as long
/// as the borrow lives, nobody else can name this region.
pub struct UniqueRegion<'a, U>(PhantomData<&'a mut U>);

impl<'a, U: Unique> Region for UniqueRegion<'a, U> {
}

} // verus!
