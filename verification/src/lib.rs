//! A trust-minimized bridging engine between two blockchains.
//!
//! Each side tracks the other chain's finalized heads through storage proofs
//! checked against already-finalized state roots, exchanges messages over
//! ordered lanes with exactly-once nonce delivery and relayer rewards, and
//! sizes delivery transactions under a resource budget.

#![verifier::loop_isolation(false)]

pub mod batching;
pub mod calls;
pub mod errors;
pub mod finality;
pub mod hashing;
pub mod heads;
pub mod lane;
pub mod retry;
pub mod rpc;
pub mod secondary;
pub mod storage_proof;
pub mod weights;
