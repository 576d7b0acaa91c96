//! A keyed-entity registry that tracks ownership of uniquely identified
//! creature records. It supports two state transitions — registering a new
//! creature and transferring ownership of an existing one — over an explicit,
//! single-threaded state: the record store, a running count, an ownership
//! index from account to held identifiers, and a log of emitted events.

pub mod types;
pub mod registry;
pub mod laws;

pub use types::{Error, Event, Gender, Kitty, OwnerEntry};
pub use registry::Pallet;
