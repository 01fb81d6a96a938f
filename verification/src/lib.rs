//! A decentralized identity and attribute-based access-control engine.
//!
//! The crate tracks who owns which identity, which delegates and attributes
//! are attached to an identity, how long each fact stays valid, and how those
//! facts combine into access decisions.  Every state transition is a pure,
//! deterministic function of the store state, the clock values handed in by
//! the caller, and the call's inputs; all precondition checks run before any
//! write, so a failed call leaves the store unchanged.

pub mod attributes;
pub mod codec;
pub mod endorsements;
pub mod errors;
pub mod executor;
pub mod facade;
pub mod hash;
pub mod identity;
pub mod policy;
pub mod state;
pub mod table;

pub use errors::Decision;
pub use errors::ErrorKind;
