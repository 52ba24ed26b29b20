//! Benchmarked weights of the head-tracking module's submission call.

use vstd::prelude::*;

use crate::weights::{spec_table_ref_time, DbWeight, Weight};

verus! {

/// Weight functions needed for the head-tracking module, implemented by
/// each runtime from its own benchmarks.
pub trait WeightInfo {
    /// Weight of submitting heads of the given number of chains.
    fn submit_parachain_heads_with_n_parachains(&self, p: u32) -> Weight;

    /// Weight of submitting heads under a one-kilobyte proof.
    fn submit_parachain_heads_with_1kb_proof(&self) -> Weight;

    /// Weight of submitting heads under a sixteen-kilobyte proof.
    fn submit_parachain_heads_with_16kb_proof(&self) -> Weight;
}

/// Weights generated on one of the bridge testnets; test only, never to be
/// used in production.
#[derive(Clone, Copy, PartialEq, Eq, Structural, Debug)]
pub struct BridgeWeight {
    /// Database access costs of the runtime this table is plugged into.
    pub db_weight: DbWeight,
}

impl WeightInfo for BridgeWeight {
    fn submit_parachain_heads_with_n_parachains(&self, p: u32) -> (w: Weight)
        ensures
            w.ref_time == spec_table_ref_time(52_445_014, self.db_weight, 4, 3),
            w.proof_size == 0,
    {
        let _ = p;
        Weight::from_ref_time(52_445_014).saturating_add(
            self.db_weight.reads(4),
        ).saturating_add(self.db_weight.writes(3))
    }

    fn submit_parachain_heads_with_1kb_proof(&self) -> (w: Weight)
        ensures
            w.ref_time == spec_table_ref_time(55_253_000, self.db_weight, 4, 3),
            w.proof_size == 0,
    {
        Weight::from_ref_time(55_253_000).saturating_add(
            self.db_weight.reads(4),
        ).saturating_add(self.db_weight.writes(3))
    }

    fn submit_parachain_heads_with_16kb_proof(&self) -> (w: Weight)
        ensures
            w.ref_time == spec_table_ref_time(98_772_000, self.db_weight, 4, 3),
            w.proof_size == 0,
    {
        Weight::from_ref_time(98_772_000).saturating_add(
            self.db_weight.reads(4),
        ).saturating_add(self.db_weight.writes(3))
    }
}

} // verus!
