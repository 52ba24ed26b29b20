//! Tracking the counterparty chain's best finalized header.
//!
//! The tracker records the highest-numbered header accepted through a
//! finality proof. It is the trust anchor: every other proof cites a block
//! hash that must already be present here. Verifying the finality proof
//! itself is the job of an external finality-verification collaborator; the
//! tracker consumes its verdict as a plain boolean fact.

use vstd::prelude::*;

use crate::errors::FinalityError;
use crate::hashing::Hash32;

verus! {

/// A finalized header of the counterparty chain: its number, its hash and
/// the state root it commits to.
#[derive(Clone, Copy, PartialEq, Eq, Debug)]
pub struct FinalizedHeader {
    /// Block number.
    pub number: u32,
    /// Block hash.
    pub hash: Hash32,
    /// Root of the state the block commits to; storage proofs anchored at
    /// this block are verified against it.
    pub state_root: Hash32,
}

/// The best finalized header of one counterparty chain, if any was imported.
pub struct FinalityHeadTracker {
    /// The highest-numbered header accepted so far.
    pub best: Option<FinalizedHeader>,
}

impl FinalityHeadTracker {
    /// A tracker that has consumed no finality proof yet.
    pub fn new() -> (r: FinalityHeadTracker)
        ensures
            r.best is None,
    {
        FinalityHeadTracker { best: None }
    }

    /// Import a finalized header. `proof_valid` is the verdict of the
    /// external finality verifier over `header`. The import is accepted only
    /// when the proof verifies and the number strictly grows; a rejected
    /// import leaves the tracker unchanged.
    pub fn import_finalized_header(&mut self, header: FinalizedHeader, proof_valid: bool) -> (r:
        Result<(), FinalityError>)
        ensures
            !proof_valid ==> r == Err::<(), FinalityError>(FinalityError::InvalidProof)
                && *final(self) == *old(self),
            proof_valid && (match old(self).best {
                Some(best) => header.number <= best.number,
                None => false,
            }) ==> r == Err::<(), FinalityError>(FinalityError::OldHeader) && *final(self) == *old(self),
            proof_valid && (match old(self).best {
                Some(best) => header.number > best.number,
                None => true,
            }) ==> r is Ok && final(self).best == Some(header),
    {
        if !proof_valid {
            return Err(FinalityError::InvalidProof);
        }
        match &self.best {
            Some(best) => {
                if header.number <= best.number {
                    return Err(FinalityError::OldHeader);
                }
            },
            None => {},
        }
        self.best = Some(header);
        Ok(())
    }

    /// The stored header with the given hash, if that hash is known here.
    pub fn header_by_hash(&self, hash: &Hash32) -> (r: Option<FinalizedHeader>)
        ensures
            match self.best {
                Some(best) => if best.hash@ == hash@ {
                    r == Some(best)
                } else {
                    r is None
                },
                None => r is None,
            },
    {
        match &self.best {
            Some(best) => {
                if best.hash.equals(hash) {
                    Some(*best)
                } else {
                    None
                }
            },
            None => None,
        }
    }
}

} // verus!
