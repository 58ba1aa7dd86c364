//! An in-process entity repository toolkit: typed collections that own
//! entities keyed by a strongly-typed identifier, a variant that hands out
//! shared, runtime-borrow-checked handles, and two secondary-index
//! structures for looking entities up by derived keys.

pub mod collection;
pub mod entity;
pub mod id;
pub mod index;
