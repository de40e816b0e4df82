//! A sharded key-value map: keys are routed by the top bits of a seeded
//! 64-bit digest to one of N independently locked segments, so that
//! operations on keys in different segments never contend for the same lock.

pub mod hashing;
pub mod segment;
pub mod route;
pub mod map;
pub mod set;
pub mod laws;

pub use hashing::HashConfig;
pub use map::{ConcurrentHashMap, ConcurrentHashMapIntoIter};
pub use set::{ConcurrentHashSet, ConcurrentHashSetIntoIter};
