//! Content-addressed identifier tables.
//!
//! A table hands out a compact, fixed-width identifier for every piece of
//! content it is given. The slot for a piece of content is found by
//! directional linear probing: starting from the slot named by the content's
//! hash, the search advances past occupants that order below the content and
//! retreats past occupants that order above it, wrapping at both ends of the
//! identifier range. It ends at the first slot that is free or holds equal
//! content, and the slot's number is the identifier.
//!
//! - [`width`]: the integer types identifiers are made of.
//! - [`id`]: the identifier handle.
//! - [`order`]: the order on content, read as a probe direction.
//! - [`probe`]: the model of a probe, and when it ends.
//! - [`laws`]: what holds of every probe and assignment.
//! - [`slots`]: the hash map that stores the slots, and the hasher.
//! - [`assoc`]: the table that keeps a payload beside each content.
//! - [`table`]: the table that keeps content alone.
//! - [`collide`]: a hasher that makes everything collide.
pub mod width;
pub mod id;
pub mod order;
pub mod probe;
pub mod laws;
pub mod slots;
pub mod assoc;
pub mod table;
pub mod collide;

pub use crate::assoc::{
    AssociativeIdentifierTable, PerfectHashMap, PerfectHashMap16, PerfectHashMap32, PerfectHashMap64,
    PerfectHashMap8,
};
pub use crate::collide::CollideHasher;
pub use crate::id::Id;
pub use crate::order::Step;
pub use crate::table::{
    IdentifierTable, PerfectHasher, PerfectHasher16, PerfectHasher32, PerfectHasher64, PerfectHasher8,
};
pub use crate::width::Width;
