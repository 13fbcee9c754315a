//! A registry of athlete-performance records.
//!
//! Records are kept in a single owning [`registry::Registry`], ordered by
//! their unique, strictly increasing identifiers. The registry offers
//! creation, point lookup, partial update, achievement replacement,
//! deletion, enumeration and several filtered searches.

pub mod laws;
pub mod record;
pub mod registry;
