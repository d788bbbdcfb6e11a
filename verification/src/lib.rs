//! A key-value map for minimal runtimes, hardened against hash-flooding:
//! every map instance hashes its keys with a SipHash-1-3 permutation keyed by
//! a per-instance pair of 64-bit values drawn from the system entropy source,
//! so an adversary who does not know the pair cannot precompute colliding
//! keys. Storage and collision resolution are delegated to an open-addressing
//! table engine; this crate verifies the facade around it: seed acquisition,
//! keyed digests, insertion semantics, and iteration.

pub mod map;
pub mod model;
pub mod random_state;
pub mod table;

pub use map::HashMap;
pub use map::Iter;
pub use random_state::RandomState;
