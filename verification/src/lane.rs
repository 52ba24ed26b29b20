//! The per-channel message lane: strictly ordered, exactly-once nonce
//! delivery with relayer reward accounting.
//!
//! The outbound side owns the nonce counter and the confirmed boundary; the
//! inbound side accepts deliveries of contiguous nonce ranges and queues one
//! reward entry per delivery. Confirmation settles queued entries in first-in
//! first-out order. Rejections never mutate state, so a correct resubmission
//! can follow later.

use vstd::prelude::*;

use crate::errors::OrderingError;

verus! {

/// A relayer who delivered a contiguous nonce range and was not yet
/// rewarded.
#[derive(Clone, Copy, PartialEq, Eq, Debug)]
pub struct UnrewardedRelayer {
    /// First nonce of the delivered range.
    pub begin: u64,
    /// Last nonce of the delivered range.
    pub end: u64,
    /// The relayer who delivered it.
    pub relayer: u64,
}

/// Outbound side of a lane: nonce generation and the confirmed boundary.
#[derive(Clone, Copy, PartialEq, Eq, Debug)]
pub struct OutboundLaneData {
    /// Nonce of the latest message generated on this lane.
    pub latest_generated_nonce: u64,
    /// Latest nonce the counterparty confirmed as received.
    pub latest_received_nonce: u64,
}

/// Inbound side of a lane: the received boundary and the reward queue.
#[derive(Clone, PartialEq, Eq, Debug)]
pub struct InboundLaneData {
    /// Latest nonce received on this lane.
    pub latest_received_nonce: u64,
    /// Relayers who delivered and were not yet rewarded, in delivery order.
    pub relayers: Vec<UnrewardedRelayer>,
}

/// One message lane: an outbound and an inbound side.
#[derive(Clone, PartialEq, Eq, Debug)]
pub struct Lane {
    /// Outbound side.
    pub outbound: OutboundLaneData,
    /// Inbound side.
    pub inbound: InboundLaneData,
}

impl Lane {
    /// Structural soundness: the reward queue holds contiguous, strictly
    /// increasing ranges ending at the received boundary.
    pub open spec fn wf(self) -> bool {
        let rs = self.inbound.relayers@;
        &&& forall|i: int| 0 <= i < rs.len() ==> 1 <= (#[trigger] rs[i]).begin <= rs[i].end
        &&& forall|i: int|
            0 <= i < rs.len() - 1 ==> (#[trigger] rs[i]).end + 1 == rs[i + 1].begin
        &&& (rs.len() > 0 ==> rs.last().end == self.inbound.latest_received_nonce)
    }

    /// A lane that has carried no message yet.
    pub fn new() -> (r: Lane)
        ensures
            r.wf(),
            r.outbound.latest_generated_nonce == 0,
            r.outbound.latest_received_nonce == 0,
            r.inbound.latest_received_nonce == 0,
            r.inbound.relayers@.len() == 0,
    {
        Lane {
            outbound: OutboundLaneData { latest_generated_nonce: 0, latest_received_nonce: 0 },
            inbound: InboundLaneData { latest_received_nonce: 0, relayers: Vec::new() },
        }
    }

    /// Assign the next sequential nonce to an outbound message. The payload
    /// itself is queued by an external collaborator; the lane owns only the
    /// counter.
    pub fn generate_message(&mut self, payload: &Vec<u8>) -> (nonce: u64)
        requires
            old(self).outbound.latest_generated_nonce < u64::MAX,
        ensures
            nonce == old(self).outbound.latest_generated_nonce + 1,
            final(self).outbound.latest_generated_nonce == nonce,
            final(self).outbound.latest_received_nonce == old(self).outbound.latest_received_nonce,
            final(self).inbound == old(self).inbound,
            old(self).wf() ==> final(self).wf(),
    {
        let _ = payload;
        let nonce = self.outbound.latest_generated_nonce + 1;
        self.outbound.latest_generated_nonce = nonce;
        nonce
    }

    /// Accept delivery of the contiguous nonce range `begin..=end` by the
    /// given relayer. The range must start right after the latest received
    /// nonce and must not be empty; a rejection is a no-op.
    pub fn deliver(&mut self, begin: u64, end: u64, relayer: u64) -> (r: Result<(), OrderingError>)
        requires
            old(self).wf(),
        ensures
            final(self).wf(),
            r is Ok <==> begin == old(self).inbound.latest_received_nonce + 1 && begin <= end,
            r is Err ==> *final(self) == *old(self) && r == Err::<(), OrderingError>(
                OrderingError::NonceGap,
            ),
            r is Ok ==> final(self).inbound.latest_received_nonce == end && final(self).inbound.relayers@ == old(self).inbound.relayers@.push(
                UnrewardedRelayer { begin, end, relayer },
            ) && final(self).outbound == old(self).outbound,
    {
        if begin == 0 || begin - 1 != self.inbound.latest_received_nonce || end < begin {
            return Err(OrderingError::NonceGap);
        }
        self.inbound.latest_received_nonce = end;
        self.inbound.relayers.push(UnrewardedRelayer { begin, end, relayer });
        Ok(())
    }
}

/// How many leading reward entries end at or before the confirmed nonce.
pub open spec fn spec_settled_prefix(rs: Seq<UnrewardedRelayer>, x: int) -> int
    decreases rs.len(),
{
    if rs.len() == 0 {
        0
    } else if rs.first().end <= x {
        1 + spec_settled_prefix(rs.drop_first(), x)
    } else {
        0
    }
}

/// Settlement hits exactly the leading entries: with ranges in increasing
/// order, every entry before the settled prefix ends at or before the
/// confirmed nonce, and every entry after it ends past the confirmed nonce
/// — so settlement removes all of the former and none of the latter.
pub proof fn lemma_settled_prefix_complete(rs: Seq<UnrewardedRelayer>, x: int)
    requires
        forall|i: int| 0 <= i < rs.len() ==> 1 <= (#[trigger] rs[i]).begin <= rs[i].end,
        forall|i: int| 0 <= i < rs.len() - 1 ==> (#[trigger] rs[i]).end + 1 == rs[i + 1].begin,
    ensures
        0 <= spec_settled_prefix(rs, x) <= rs.len(),
        forall|i: int| 0 <= i < spec_settled_prefix(rs, x) ==> (#[trigger] rs[i]).end <= x,
        forall|i: int| spec_settled_prefix(rs, x) <= i < rs.len() ==> (#[trigger] rs[i]).end > x,
    decreases rs.len(),
{
    if rs.len() > 0 {
        let t = rs.drop_first();
        assert forall|i: int| 0 <= i < t.len() - 1 implies (#[trigger] t[i]).end + 1 == t[i
            + 1].begin by {
            assert(rs[i + 1].end + 1 == rs[i + 2].begin);
        }
        lemma_settled_prefix_complete(t, x);
        let k = spec_settled_prefix(rs, x);
        if rs.first().end <= x {
            assert forall|i: int| k <= i < rs.len() implies (#[trigger] rs[i]).end > x by {
                assert(t[i - 1].end > x);
            }
            assert forall|i: int| 0 <= i < k implies (#[trigger] rs[i]).end <= x by {
                if i > 0 {
                    assert(t[i - 1].end <= x);
                }
            }
        } else {
            assert forall|i: int| 0 <= i < rs.len() implies (#[trigger] rs[i]).end > x by {
                if i > 0 {
                    assert(rs[i].end >= rs[0].end) by {
                        lemma_ends_increase(rs, 0, i);
                    }
                }
            }
        }
    }
}

/// With contiguous ranges, entry ends increase along the queue.
proof fn lemma_ends_increase(rs: Seq<UnrewardedRelayer>, i: int, j: int)
    requires
        forall|p: int| 0 <= p < rs.len() ==> 1 <= (#[trigger] rs[p]).begin <= rs[p].end,
        forall|p: int| 0 <= p < rs.len() - 1 ==> (#[trigger] rs[p]).end + 1 == rs[p + 1].begin,
        0 <= i <= j < rs.len(),
    ensures
        rs[i].end <= rs[j].end,
    decreases j - i,
{
    if i < j {
        assert(rs[i].end + 1 == rs[i + 1].begin);
        assert(rs[i + 1].begin <= rs[i + 1].end);
        lemma_ends_increase(rs, i + 1, j);
    }
}

impl Lane {
    /// Confirm that the counterparty received every nonce up to the given
    /// one, and settle the reward entries it covers, in first-in first-out
    /// order. Returns each settled relayer with the number of messages in
    /// its range; a stale confirmation is rejected as a harmless no-op.
    pub fn confirm_delivery(&mut self, new_latest_received_nonce: u64) -> (r: Result<
        Vec<(u64, u64)>,
        OrderingError,
    >)
        requires
            old(self).wf(),
        ensures
            final(self).wf(),
            r is Ok <==> new_latest_received_nonce > old(self).outbound.latest_received_nonce,
            r is Err ==> *final(self) == *old(self) && r == Err::<Vec<(u64, u64)>, OrderingError>(
                OrderingError::AlreadyConfirmed,
            ),
            r is Ok ==> ({
                let rs = old(self).inbound.relayers@;
                let k = spec_settled_prefix(rs, new_latest_received_nonce as int);
                &&& final(self).outbound.latest_received_nonce == new_latest_received_nonce
                &&& final(self).outbound.latest_generated_nonce == old(self).outbound.latest_generated_nonce
                &&& final(self).inbound.latest_received_nonce == old(self).inbound.latest_received_nonce
                &&& final(self).inbound.relayers@ == rs.subrange(k, rs.len() as int)
                &&& (r matches Ok(settled) && settled@.len() == k && (forall|i: int|
                    0 <= i < k ==> #[trigger] settled@[i] == (
                        rs[i].relayer,
                        (rs[i].end - rs[i].begin + 1) as u64,
                    )))
            }),
    {
        if new_latest_received_nonce <= self.outbound.latest_received_nonce {
            return Err(OrderingError::AlreadyConfirmed);
        }
        let ghost rs = self.inbound.relayers@;
        let ghost x = new_latest_received_nonce as int;
        proof {
            lemma_settled_prefix_complete(rs, x);
        }
        let ghost k = spec_settled_prefix(rs, x);
        let len = self.inbound.relayers.len();
        let mut cut: usize = 0;
        while cut < len && self.inbound.relayers[cut].end <= new_latest_received_nonce
            invariant
                cut <= len,
                forall|i: int| 0 <= i < cut ==> (#[trigger] rs[i]).end <= x,
            decreases len - cut,
        {
            cut = cut + 1;
        }
        proof {
            if cut < len {
                assert(rs[cut as int].end > x);
            }
            if cut > k {
                assert(rs[k as int].end <= x);
                assert(rs[k as int].end > x);
            }
            if cut < k {
                assert(rs[cut as int].end <= x);
            }
            assert(cut == k);
        }
        let mut settled: Vec<(u64, u64)> = Vec::new();
        let mut i: usize = 0;
        while i < cut
            invariant
                i <= cut,
                cut <= len,
                len == rs.len(),
                self.inbound.relayers@ == rs,
                settled@.len() == i,
                forall|i0: int| 0 <= i0 < cut ==> (#[trigger] rs[i0]).end <= x,
                forall|i0: int| 0 <= i0 < rs.len() ==> 1 <= (#[trigger] rs[i0]).begin <= rs[
                    i0].end,
                forall|i0: int|
                    0 <= i0 < i ==> #[trigger] settled@[i0] == (
                        rs[i0].relayer,
                        (rs[i0].end - rs[i0].begin + 1) as u64,
                    ),
            decreases cut - i,
        {
            let entry = self.inbound.relayers[i];
            settled.push((entry.relayer, entry.end - entry.begin + 1));
            i = i + 1;
        }
        let mut remaining: Vec<UnrewardedRelayer> = Vec::new();
        let mut j: usize = cut;
        while j < len
            invariant
                cut <= j <= len,
                len == rs.len(),
                self.inbound.relayers@ == rs,
                remaining@.len() == j - cut,
                forall|i0: int|
                    0 <= i0 < j - cut ==> #[trigger] remaining@[i0] == rs[i0 + cut],
            decreases len - j,
        {
            remaining.push(self.inbound.relayers[j]);
            j = j + 1;
        }
        proof {
            assert(remaining@ =~= rs.subrange(k, rs.len() as int));
        }
        self.inbound.relayers = remaining;
        self.outbound.latest_received_nonce = new_latest_received_nonce;
        Ok(settled)
    }
}

} // verus!
