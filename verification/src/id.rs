//! Strongly-typed entity identifiers.
//!
//! An identifier is an opaque, totally-ordered value tagged at the type
//! level with the entity type it names. Identifiers of two distinct entity
//! types are different Rust types, so they can never be compared with one
//! another or mixed in the same collection or index, even when their
//! underlying numeric values coincide.

use core::marker::PhantomData;
use vstd::prelude::*;

verus! {

/// A typed identifier for an entity of type `T`.
///
/// The type parameter is a zero-sized tag: it never affects the runtime
/// representation, only which identifiers are interchangeable.
#[derive(Debug, PartialEq, Eq, PartialOrd, Ord, Hash)]
pub struct Id<T> {
    value: u64,
    owner: PhantomData<T>,
}

impl<T> Clone for Id<T> {
    /// An identifier is a plain value: its clone is itself.
    fn clone(&self) -> (r: Self)
        ensures
            r == *self,
    {
        Id { value: self.value, owner: PhantomData }
    }
}

impl<T> Copy for Id<T> {

}

impl<T> View for Id<T> {
    type V = u64;

    closed spec fn view(&self) -> u64 {
        self.value
    }
}

impl<T> Id<T> {
    /// Makes the identifier with the given underlying value.
    pub fn new(value: u64) -> (r: Id<T>)
        ensures
            r@ == value,
    {
        Id { value, owner: PhantomData }
    }

    /// The underlying numeric value of this identifier.
    pub fn value(&self) -> (v: u64)
        ensures
            v == self@,
    {
        self.value
    }
}

impl<T> From<u64> for Id<T> {
    fn from(value: u64) -> (r: Id<T>)
        ensures
            r@ == value,
    {
        Id::new(value)
    }
}

impl<T> vstd::std_specs::convert::FromSpecImpl<u64> for Id<T> {
    open spec fn obeys_from_spec() -> bool {
        true
    }

    closed spec fn from_spec(value: u64) -> Id<T> {
        Id { value, owner: PhantomData }
    }
}

} // verus!
