//! The capability contract a domain type must satisfy to live in a
//! collection.

use crate::id::Id;
use vstd::prelude::*;

verus! {

/// A domain value that can report its own typed identifier.
///
/// An entity must be debug-printable, fully ordered, and able to report
/// an identifier of itself. The identifier is expected to distinguish
/// instances: storing two entities that report the same identifier is
/// treated as a collision by the collections, never detected here. The
/// equality and ordering are expected to delegate to the identifier, so
/// that entities compare as their identifiers do; that delegation is the
/// implementor's responsibility, and nothing here checks it.
pub trait Entity: core::fmt::Debug + Eq + Ord + Sized {
    /// The underlying value of the identifier this entity reports, as
    /// contracts see it.
    spec fn spec_id(&self) -> u64;

    /// Reports this entity's identifier.
    fn id(&self) -> (r: Id<Self>)
        ensures
            r@ == self.spec_id(),
    ;
}

} // verus!
