//! Assembling message-lane proof requests: which storage keys a proof of
//! given messages must cover, and how a proof travels on the wire.
//!
//! Reading chain state and producing the proof is transport work an outer
//! layer does; this module owns the logic — the key set for a nonce range,
//! the optional outbound-lane-state key, and the wire encoding of the proof
//! nodes.

use vstd::prelude::*;

verus! {

/// A lane identifier.
pub type LaneId = [u8; 4];

/// A bridge instance identifier.
pub type InstanceId = [u8; 4];

/// A proof-request could not be assembled.
#[derive(Clone, Copy, PartialEq, Eq, Debug)]
pub enum RpcError {
    /// The runtime knows no storage layout for the cited bridge instance.
    UnknownInstance,
}

/// How the runtime lays lane storage out: which storage key holds a
/// message, and which hold the lane state records. The layout is
/// runtime-specific, so the caller supplies this capability.
pub trait Runtime {
    /// What the runtime answers for a message key request.
    spec fn spec_message_key(&self, instance: Seq<u8>, lane: Seq<u8>, nonce: u64) -> Option<
        Seq<u8>,
    >;

    /// What the runtime answers for an outbound-lane-state key request.
    spec fn spec_outbound_lane_data_key(&self, instance: Seq<u8>, lane: Seq<u8>) -> Option<
        Seq<u8>,
    >;

    /// What the runtime answers for an inbound-lane-state key request.
    spec fn spec_inbound_lane_data_key(&self, instance: Seq<u8>, lane: Seq<u8>) -> Option<
        Seq<u8>,
    >;

    /// Storage key of the given message; `None` if the instance is unknown.
    fn message_key(&self, instance: &InstanceId, lane: &LaneId, nonce: u64) -> (r: Option<
        Vec<u8>,
    >)
        ensures
            (match r {
                Some(k) => Some(k@),
                None => None::<Seq<u8>>,
            }) == self.spec_message_key(instance@, lane@, nonce),
    ;

    /// Storage key of the outbound lane state; `None` if the instance is
    /// unknown.
    fn outbound_lane_data_key(&self, instance: &InstanceId, lane: &LaneId) -> (r: Option<Vec<u8>>)
        ensures
            (match r {
                Some(k) => Some(k@),
                None => None::<Seq<u8>>,
            }) == self.spec_outbound_lane_data_key(instance@, lane@),
    ;

    /// Storage key of the inbound lane state; `None` if the instance is
    /// unknown.
    fn inbound_lane_data_key(&self, instance: &InstanceId, lane: &LaneId) -> (r: Option<Vec<u8>>)
        ensures
            (match r {
                Some(k) => Some(k@),
                None => None::<Seq<u8>>,
            }) == self.spec_inbound_lane_data_key(instance@, lane@),
    ;
}

/// The storage keys a proof of the messages `begin..=end` must cover, in
/// nonce order; an unknown instance fails the whole request.
pub open spec fn spec_message_range_keys<R: Runtime>(
    runtime: &R,
    instance: Seq<u8>,
    lane: Seq<u8>,
    begin: u64,
    end: u64,
) -> Result<Seq<Seq<u8>>, RpcError>
    decreases end - begin,
{
    if begin > end {
        Ok(Seq::empty())
    } else {
        match runtime.spec_message_key(instance, lane, begin) {
            None => Err(RpcError::UnknownInstance),
            Some(k) => {
                if begin == end {
                    Ok(seq![k])
                } else {
                    match spec_message_range_keys(
                        runtime,
                        instance,
                        lane,
                        (begin + 1) as u64,
                        end,
                    ) {
                        Err(e) => Err(e),
                        Ok(rest) => Ok(seq![k] + rest),
                    }
                }
            },
        }
    }
}

/// Answers message-lane proof requests over an injected runtime layout.
pub struct MessageLaneRpcHandler<R> {
    /// The runtime storage layout.
    pub runtime: R,
}

impl<R: Runtime> MessageLaneRpcHandler<R> {
    /// Creates a new message-lane handler over the given runtime layout.
    pub fn new(runtime: R) -> (r: MessageLaneRpcHandler<R>)
        ensures
            r.runtime == runtime,
    {
        MessageLaneRpcHandler { runtime }
    }

    /// The storage keys a proof of the messages `begin..=end` must cover.
    /// When the outbound lane state is to be included in the proof, the
    /// outbound-lane-state key is appended after the message keys.
    pub fn message_keys_to_prove(
        &self,
        instance: &InstanceId,
        lane: &LaneId,
        begin: u64,
        end: u64,
        include_outbound_lane_state: bool,
    ) -> (r: Result<Vec<Vec<u8>>, RpcError>)
        ensures
            ({
                let range = spec_message_range_keys(&self.runtime, instance@, lane@, begin, end);
                match range {
                    Err(e) => r == Err::<Vec<Vec<u8>>, RpcError>(e),
                    Ok(keys) => {
                        if include_outbound_lane_state {
                            match self.runtime.spec_outbound_lane_data_key(instance@, lane@) {
                                None => r == Err::<Vec<Vec<u8>>, RpcError>(
                                    RpcError::UnknownInstance,
                                ),
                                Some(state_key) => r matches Ok(v) && v.deep_view() == keys.push(
                                    state_key,
                                ),
                            }
                        } else {
                            r matches Ok(v) && v.deep_view() == keys
                        }
                    },
                }
            }),
    {
        let ghost range = spec_message_range_keys(&self.runtime, instance@, lane@, begin, end);
        let mut keys: Vec<Vec<u8>> = Vec::new();
        if begin <= end {
            let count = end - begin;
            let mut i: u64 = 0;
            while i < count
                invariant
                    i <= count,
                    count == end - begin,
                    begin <= end,
                    range == spec_message_range_keys(&self.runtime, instance@, lane@, begin, end),
                    keys.deep_view().len() == i,
                    range matches Ok(all) ==> (spec_message_range_keys(
                        &self.runtime,
                        instance@,
                        lane@,
                        (begin + i) as u64,
                        end,
                    ) matches Ok(rest) && all == keys.deep_view() + rest),
                    range is Err ==> spec_message_range_keys(
                        &self.runtime,
                        instance@,
                        lane@,
                        (begin + i) as u64,
                        end,
                    ) is Err,
                decreases count - i,
            {
                let nonce = begin + i;
                let ghost old_dv = keys.deep_view();
                match self.runtime.message_key(instance, lane, nonce) {
                    None => {
                        proof {
                            assert(spec_message_range_keys(
                                &self.runtime,
                                instance@,
                                lane@,
                                nonce,
                                end,
                            ) is Err);
                        }
                        return Err(RpcError::UnknownInstance);
                    },
                    Some(key) => {
                        proof {
                            let k = self.runtime.spec_message_key(instance@, lane@, nonce)
                                ->Some_0;
                            let rest_here = spec_message_range_keys(
                                &self.runtime,
                                instance@,
                                lane@,
                                nonce,
                                end,
                            );
                            let rest_next = spec_message_range_keys(
                                &self.runtime,
                                instance@,
                                lane@,
                                (nonce + 1) as u64,
                                end,
                            );
                            if range is Ok {
                                assert(rest_here matches Ok(r0) && r0 == seq![k]
                                    + rest_next->Ok_0 && rest_next is Ok);
                                assert(old_dv.push(k) + rest_next->Ok_0 =~= old_dv + (seq![k]
                                    + rest_next->Ok_0));
                            }
                        }
                        keys.push(key);
                        proof {
                            assert(keys.deep_view() =~~= old_dv.push(
                                self.runtime.spec_message_key(instance@, lane@, nonce)->Some_0,
                            ));
                        }
                    },
                }
                i = i + 1;
            }
            let ghost old_dv = keys.deep_view();
            match self.runtime.message_key(instance, lane, end) {
                None => {
                    return Err(RpcError::UnknownInstance);
                },
                Some(key) => {
                    keys.push(key);
                    proof {
                        let k = self.runtime.spec_message_key(instance@, lane@, end)->Some_0;
                        assert(keys.deep_view() =~~= old_dv.push(k));
                        if range is Ok {
                            assert(range->Ok_0 =~~= keys.deep_view()) by {
                                assert(spec_message_range_keys(
                                    &self.runtime,
                                    instance@,
                                    lane@,
                                    end,
                                    end,
                                ) == Ok::<Seq<Seq<u8>>, RpcError>(seq![k]));
                            }
                        }
                    }
                },
            }
        }
        if include_outbound_lane_state {
            match self.runtime.outbound_lane_data_key(instance, lane) {
                None => {
                    return Err(RpcError::UnknownInstance);
                },
                Some(state_key) => {
                    keys.push(state_key);
                },
            }
        }
        proof {
            let range = spec_message_range_keys(&self.runtime, instance@, lane@, begin, end);
            if range is Ok {
                assert(keys.deep_view() =~~= (if include_outbound_lane_state {
                    range->Ok_0.push(
                        self.runtime.spec_outbound_lane_data_key(instance@, lane@)->Some_0,
                    )
                } else {
                    range->Ok_0
                }));
            }
        }
        Ok(keys)
    }

    /// The storage keys a proof of message delivery must cover: the inbound
    /// lane state record alone.
    pub fn delivery_keys_to_prove(&self, instance: &InstanceId, lane: &LaneId) -> (r: Result<
        Vec<Vec<u8>>,
        RpcError,
    >)
        ensures
            match self.runtime.spec_inbound_lane_data_key(instance@, lane@) {
                None => r == Err::<Vec<Vec<u8>>, RpcError>(RpcError::UnknownInstance),
                Some(key) => r matches Ok(v) && v.deep_view() == seq![key],
            },
    {
        match self.runtime.inbound_lane_data_key(instance, lane) {
            None => Err(RpcError::UnknownInstance),
            Some(key) => {
                let mut keys: Vec<Vec<u8>> = Vec::new();
                keys.push(key);
                proof {
                    assert(keys.deep_view() =~~= seq![
                        self.runtime.spec_inbound_lane_data_key(instance@, lane@)->Some_0,
                    ]);
                }
                Ok(keys)
            },
        }
    }
}

/// The codec's compact encoding of a collection length: two mode bits and
/// the value, in one, two, four or five bytes, little endian.
pub open spec fn spec_compact_len(n: nat) -> Seq<u8> {
    if n < 64 {
        seq![(n * 4) as u8]
    } else if n < 16384 {
        let v = n * 4 + 1;
        seq![(v % 256) as u8, ((v / 256) % 256) as u8]
    } else if n < 1073741824 {
        let v = n * 4 + 2;
        seq![
            (v % 256) as u8,
            ((v / 256) % 256) as u8,
            ((v / 65536) % 256) as u8,
            ((v / 16777216) % 256) as u8,
        ]
    } else {
        seq![
            3u8,
            (n % 256) as u8,
            ((n / 256) % 256) as u8,
            ((n / 65536) % 256) as u8,
            ((n / 16777216) % 256) as u8,
        ]
    }
}

/// The wire form of one byte string: its compact length, then its bytes.
pub open spec fn spec_scale_bytes(b: Seq<u8>) -> Seq<u8> {
    spec_compact_len(b.len()) + b
}

/// The wire forms of the given byte strings, in order.
pub open spec fn spec_scale_items(nodes: Seq<Seq<u8>>) -> Seq<u8>
    decreases nodes.len(),
{
    if nodes.len() == 0 {
        Seq::empty()
    } else {
        spec_scale_items(nodes.drop_last()) + spec_scale_bytes(nodes.last())
    }
}

/// The wire form of an ordered set of trie nodes: its compact count, then
/// each node as a compact-length-prefixed byte string.
pub open spec fn spec_scale_node_set(nodes: Seq<Seq<u8>>) -> Seq<u8> {
    spec_compact_len(nodes.len()) + spec_scale_items(nodes)
}

/// Relies on parity_scale_codec::Encode for `Vec<Vec<u8>>`: the compact
/// node count, then each node compact-length-prefixed; the codec panics on
/// collections whose length does not fit the compact length type.
#[verifier::external_body]
pub fn serialize_storage_proof(proof: &Vec<Vec<u8>>) -> (r: Vec<u8>)
    requires
        proof@.len() <= u32::MAX,
        forall|i: int| 0 <= i < proof@.len() ==> (#[trigger] proof@[i])@.len() <= u32::MAX,
    ensures
        r@ == spec_scale_node_set(proof.deep_view()),
{
    parity_scale_codec::Encode::encode(proof)
}

} // verus!
