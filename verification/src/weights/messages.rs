//! Benchmarked weights of the message-lane module's proof-receiving calls.

use vstd::prelude::*;

use crate::weights::{spec_table_ref_time, DbWeight, Weight};

verus! {

/// Weight functions needed for the message-lane module, implemented by each
/// runtime from its own benchmarks.
pub trait WeightInfo {
    /// Weight of receiving a proof of one message.
    fn receive_single_message_proof(&self) -> Weight;

    /// Weight of receiving a proof of two messages.
    fn receive_two_messages_proof(&self) -> Weight;

    /// Weight of receiving a proof of one message together with the
    /// outbound lane state.
    fn receive_single_message_proof_with_outbound_lane_state(&self) -> Weight;

    /// Weight of receiving a one-kilobyte proof of one message.
    fn receive_single_message_proof_1_kb(&self) -> Weight;

    /// Weight of receiving a sixteen-kilobyte proof of one message.
    fn receive_single_message_proof_16_kb(&self) -> Weight;

    /// Weight of receiving a delivery proof for one message.
    fn receive_delivery_proof_for_single_message(&self) -> Weight;

    /// Weight of receiving a delivery proof for two messages of one relayer.
    fn receive_delivery_proof_for_two_messages_by_single_relayer(&self) -> Weight;

    /// Weight of receiving a delivery proof for two messages of two
    /// relayers.
    fn receive_delivery_proof_for_two_messages_by_two_relayers(&self) -> Weight;
}

/// Weights generated on one of the bridge testnets; test only, never to be
/// used in production.
#[derive(Clone, Copy, PartialEq, Eq, Structural, Debug)]
pub struct BridgeWeight {
    /// Database access costs of the runtime this table is plugged into.
    pub db_weight: DbWeight,
}

impl WeightInfo for BridgeWeight {
    fn receive_single_message_proof(&self) -> (w: Weight)
        ensures
            w.ref_time == spec_table_ref_time(50_113_000, self.db_weight, 4, 2),
            w.proof_size == 54703,
    {
        Weight::from_parts(50_113_000, 54703).saturating_add(
            self.db_weight.reads(4),
        ).saturating_add(self.db_weight.writes(2))
    }

    fn receive_two_messages_proof(&self) -> (w: Weight)
        ensures
            w.ref_time == spec_table_ref_time(61_704_000, self.db_weight, 4, 2),
            w.proof_size == 54703,
    {
        Weight::from_parts(61_704_000, 54703).saturating_add(
            self.db_weight.reads(4),
        ).saturating_add(self.db_weight.writes(2))
    }

    fn receive_single_message_proof_with_outbound_lane_state(&self) -> (w: Weight)
        ensures
            w.ref_time == spec_table_ref_time(55_645_000, self.db_weight, 4, 2),
            w.proof_size == 54703,
    {
        Weight::from_parts(55_645_000, 54703).saturating_add(
            self.db_weight.reads(4),
        ).saturating_add(self.db_weight.writes(2))
    }

    fn receive_single_message_proof_1_kb(&self) -> (w: Weight)
        ensures
            w.ref_time == spec_table_ref_time(51_250_000, self.db_weight, 3, 1),
            w.proof_size == 54200,
    {
        Weight::from_parts(51_250_000, 54200).saturating_add(
            self.db_weight.reads(3),
        ).saturating_add(self.db_weight.writes(1))
    }

    fn receive_single_message_proof_16_kb(&self) -> (w: Weight)
        ensures
            w.ref_time == spec_table_ref_time(77_877_000, self.db_weight, 3, 1),
            w.proof_size == 54200,
    {
        Weight::from_parts(77_877_000, 54200).saturating_add(
            self.db_weight.reads(3),
        ).saturating_add(self.db_weight.writes(1))
    }

    fn receive_delivery_proof_for_single_message(&self) -> (w: Weight)
        ensures
            w.ref_time == spec_table_ref_time(43_683_000, self.db_weight, 4, 2),
            w.proof_size == 5624,
    {
        Weight::from_parts(43_683_000, 5624).saturating_add(
            self.db_weight.reads(4),
        ).saturating_add(self.db_weight.writes(2))
    }

    fn receive_delivery_proof_for_two_messages_by_single_relayer(&self) -> (w: Weight)
        ensures
            w.ref_time == spec_table_ref_time(41_509_000, self.db_weight, 4, 2),
            w.proof_size == 5624,
    {
        Weight::from_parts(41_509_000, 5624).saturating_add(
            self.db_weight.reads(4),
        ).saturating_add(self.db_weight.writes(2))
    }

    fn receive_delivery_proof_for_two_messages_by_two_relayers(&self) -> (w: Weight)
        ensures
            w.ref_time == spec_table_ref_time(44_367_000, self.db_weight, 5, 3),
            w.proof_size == 8164,
    {
        Weight::from_parts(44_367_000, 8164).saturating_add(
            self.db_weight.reads(5),
        ).saturating_add(self.db_weight.writes(3))
    }
}

} // verus!
