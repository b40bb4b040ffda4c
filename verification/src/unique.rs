//! Unique capability values and leases on statically-keyed storage.
//!
//! A [`Unique`] type guarantees that at most one value of it exists at a
//! time; holding one is a transferable permission.  A [`StaticVal`] trades
//! a unique borrow for exclusive ownership of one value of a [`Static`]'s
//! target type, and hands out zero-sized ghost references that witness the
//! lease without carrying any data.

use core::marker::PhantomData;
use vstd::prelude::*;

verus! {

/// A type which guarantees that only one value of it can ever exist at a
/// time.
///
/// Holding a value of a `Unique` type is an exclusive capability: whoever
/// has it is the only party that can, for example, bind an allocator to
/// the region the value names.
pub trait Unique {
}

/// A mutable ghost reference: zero-sized, but it obeys borrowing and
/// ownership semantics as a real `&mut` would.
pub struct GhostMut<'a, T>(PhantomData<&'a mut T>);

impl<'a, T> GhostMut<'a, T> {
    /// Captures the given mutable borrow as a zero-sized witness.
    pub fn new(_value: &'a mut T) -> (r: GhostMut<'a, T>) {
        GhostMut(PhantomData)
    }

    /// Reborrows this witness mutably.
    pub fn as_mut(&mut self) -> (r: GhostMut<'_, T>) {
        GhostMut(PhantomData)
    }

    /// Converts this witness into a shared one for the same lifetime.
    pub fn into_ref(self) -> (r: GhostRef<'a, T>) {
        GhostRef(PhantomData)
    }

    /// Reborrows this witness as a shared one.
    pub fn as_ref(&self) -> (r: GhostRef<'_, T>) {
        GhostRef(PhantomData)
    }
}

/// A `GhostMut` is obtained by giving up a mutable borrow of a `T`, so if
/// `T` is unique, so is the witness.
impl<'a, T: Unique> Unique for GhostMut<'a, T> {
}

/// A shared ghost reference: zero-sized, but it obeys borrowing semantics
/// as a real `&` would.
pub struct GhostRef<'a, T>(PhantomData<&'a T>);

impl<'a, T> GhostRef<'a, T> {
    /// Captures the given shared borrow as a zero-sized witness.
    pub fn new(_value: &'a T) -> (r: GhostRef<'a, T>) {
        GhostRef(PhantomData)
    }
}

/// A statically-keyed storage slot: a unique key type paired with the type
/// of value the slot holds.
pub trait Static: Sized {
    /// The unique type whose holder may lease the slot.
    type Unique: Unique;

    /// The type of value the slot holds.
    type Target;
}

/// A lease on a static slot for a statically-checked lifetime.
///
/// Created by trading a unique borrow of the slot's key for ownership of
/// the slot's value; while the lease lives, nobody else can touch the
/// slot.
pub struct StaticVal<'a, S: Static> {
    witness: GhostMut<'a, S::Unique>,
    value: S::Target,
}

/// A lease is created from a unique borrow, so the lease is unique too.
impl<'a, S: Static> Unique for StaticVal<'a, S> {
}

impl<'a, S: Static> StaticVal<'a, S> {
    /// The value currently held by the lease.
    pub closed spec fn stored(&self) -> S::Target {
        self.value
    }

    /// Creates a new lease from a unique borrow and an initial value.
    pub fn new(unique: &'a mut S::Unique, value: S::Target) -> (r: StaticVal<'a, S>)
        ensures
            r.stored() == value,
    {
        let ghost_mut = GhostMut::new(unique);
        StaticVal { witness: ghost_mut, value }
    }

    /// Consumes the lease, returning the value it held.
    pub fn read(self) -> (v: S::Target)
        ensures
            v == self.stored(),
    {
        self.value
    }

    /// Reads the leased value.
    pub fn value(&self) -> (r: &S::Target)
        ensures
            *r == self.stored(),
    {
        &self.value
    }

    /// Borrows the leased value mutably.
    pub fn value_mut(&mut self) -> (r: &mut S::Target)
        ensures
            *r == old(self).stored(),
            final(self).stored() == *final(r),
    {
        &mut self.value
    }

    /// Creates a mutable borrow of the lease.
    pub fn as_mut(&mut self) -> (r: StaticMut<'_, S>)
        ensures
            *final(self) == *old(self),
    {
        StaticMut { witness: self.witness.as_mut() }
    }

    /// Creates a shared borrow of the lease.
    pub fn as_ref(&self) -> (r: StaticRef<'_, S>) {
        StaticRef { witness: self.witness.as_ref() }
    }
}

/// A zero-sized witness of a mutable borrow of a lease.
pub struct StaticMut<'a, S: Static> {
    witness: GhostMut<'a, S::Unique>,
}

impl<'a, S: Static> StaticMut<'a, S> {
    /// Reborrows the witness mutably.
    pub fn as_mut(&mut self) -> (r: StaticMut<'_, S>) {
        StaticMut { witness: self.witness.as_mut() }
    }

    /// Reborrows the witness as a shared one.
    pub fn as_ref(&self) -> (r: StaticRef<'_, S>) {
        StaticRef { witness: self.witness.as_ref() }
    }
}

/// A zero-sized witness of a shared borrow of a lease.
pub struct StaticRef<'a, S: Static> {
    witness: GhostRef<'a, S::Unique>,
}

} // verus!
