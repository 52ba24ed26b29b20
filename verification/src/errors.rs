//! Error taxonomy of the bridging engine.
//!
//! Proof failures and ordering violations abort only the submission they
//! arrived in; state errors reflect the module's administrative state; and
//! transport errors are the only class a relay retries with backoff.

use vstd::prelude::*;

verus! {

/// A storage proof could not be used.
#[derive(Clone, Copy, PartialEq, Eq, Debug)]
pub enum ProofError {
    /// The proof nodes do not parse, or do not cover the requested key.
    Malformed,
    /// The proof nodes do not combine to the trusted root.
    RootMismatch,
}

/// A submission arrived out of the order the state machine enforces.
#[derive(Clone, Copy, PartialEq, Eq, Debug)]
pub enum OrderingError {
    /// A better head was already imported for this anchor, or a conflicting
    /// head was imported at the same anchor.
    StaleAnchor,
    /// A message delivery did not start right after the last received nonce.
    NonceGap,
    /// A delivery confirmation does not go past the already confirmed nonce.
    AlreadyConfirmed,
}

/// The module's administrative state refused the submission.
#[derive(Clone, Copy, PartialEq, Eq, Debug)]
pub enum StateError {
    /// All proof-consuming entry points are suspended.
    Halted,
    /// The cited anchor block is not known to the finality tracker.
    UnknownAnchor,
    /// The cited anchor block is known, but under a different number.
    AnchorNumberMismatch,
}

/// A connection-level failure; always retried, never fatal.
#[derive(Clone, Copy, PartialEq, Eq, Debug)]
pub enum TransportError {
    /// The call did not answer within the connection timeout.
    Timeout,
    /// The connection dropped.
    ConnectionLost,
}

/// An administrative call came from neither the owner nor the root authority.
#[derive(Clone, Copy, PartialEq, Eq, Debug)]
pub enum AdminError {
    /// The caller may not manage this module.
    BadOrigin,
}

/// Any error a relay loop can meet, classified for the retry policy.
#[derive(Clone, Copy, PartialEq, Eq, Debug)]
pub enum RelayError {
    /// A storage proof was unusable.
    Proof(ProofError),
    /// A submission was out of order.
    Ordering(OrderingError),
    /// The target module's state refused the submission.
    State(StateError),
    /// The connection failed.
    Transport(TransportError),
}

/// A finality proof import was refused.
#[derive(Clone, Copy, PartialEq, Eq, Debug)]
pub enum FinalityError {
    /// The finality proof did not verify over the header.
    InvalidProof,
    /// The header's number is not strictly greater than the stored one.
    OldHeader,
}

} // verus!
