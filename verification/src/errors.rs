//! The error kinds that the engine's operations surface, and the access
//! decision returned by policy checks.  Every error is terminal for its call:
//! the engine never retries, and a failed call leaves the store unchanged.

use vstd::prelude::*;

verus! {

/// The typed errors of the engine.  Each mutating or querying operation
/// states in its contract exactly which of these it returns, and when.
#[derive(Clone, Copy, Debug, PartialEq, Eq, Structural)]
pub enum ErrorKind {
    /// The caller is not the current owner of the identity it manipulates.
    NotOwner,
    /// The delegate reference is malformed, self-referential, or not
    /// currently valid.
    InvalidDelegate,
    /// An unexpired delegate already exists under the same key.
    ValidDelegateExists,
    /// The signature of an off-chain transaction does not verify.
    BadSignature,
    /// The off-chain transaction violates a field bound.
    BadTransaction,
    /// An attribute with the given name is already current.
    AttributeCreationFailed,
    /// There is no current attribute to revoke.
    AttributeResetFailed,
    /// There is no current attribute to delete.
    AttributeRemovalFailed,
    /// A referenced attribute name does not currently resolve.
    InvalidAttributes,
    /// A batch or field exceeds its bounded length.
    InputOverflow,
    /// A name is repeated within one batch.
    DuplicateAttributeKey,
    /// A policy is already recorded for the object identity.
    ExistPolicy,
    /// No policy is recorded for the object identity.
    NotExistPolicy,
    /// A per-name nonce counter is exhausted.
    Overflow,
}

/// The outcome of an access check: every well-formed query gets a decision.
#[derive(Clone, Copy, Debug, PartialEq, Eq, Structural)]
pub enum Decision {
    Allow,
    Deny,
}

} // verus!
