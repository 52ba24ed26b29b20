//! Relay-loop pieces: batching, retry policy, weights, proof requests and
//! the wire encoding.

use bridge_engine::batching::select_delivery_transaction_limits;
use bridge_engine::errors::{
    OrderingError, ProofError, RelayError, StateError, TransportError,
};
use bridge_engine::hashing::{blake2_256, twox_128, twox_64, Hash32};
use bridge_engine::retry::{needs_head_relay, retry_backoff, should_retry, BackoffPolicy};
use bridge_engine::rpc::{
    serialize_storage_proof, MessageLaneRpcHandler, RpcError, Runtime,
};
use bridge_engine::storage_proof::{verify_reads, ProofDb};
use sp_trie::TrieMut;
use bridge_engine::weights::messages::WeightInfo as MessagesWeightInfo;
use bridge_engine::weights::parachains::WeightInfo as ParachainsWeightInfo;
use bridge_engine::weights::{rocks_db_weight, DbWeight, Weight};

#[test]
fn select_delivery_transaction_limits_works() {
    // A budget of nine hundred: a third is reserved, six hundred is left
    // for dispatch, fitting sixty messages of overhead ten, capped at
    // fifty unconfirmed nonces.
    let (count, dispatch) = select_delivery_transaction_limits(900, 50, 10);
    assert_eq!((count, dispatch), (50, 600));
    assert!(dispatch >= 900 / 2);

    // With a lower cap the message count is the limiting side.
    let (count, dispatch) = select_delivery_transaction_limits(900, 5, 10);
    assert_eq!((count, dispatch), (5, 600));

    // The tightest budget the contract admits still fits one message.
    let (count, dispatch) = select_delivery_transaction_limits(30, 1, 10);
    assert!(count >= 1);
    assert!(2 * dispatch >= 30);
}

#[test]
fn backoff_policy_doubles_up_to_cap() {
    let policy = BackoffPolicy { base_ms: 100, cap_ms: 60_000 };
    assert_eq!(policy.initial_delay(), 100);
    assert_eq!(policy.next_delay(100), 200);
    assert_eq!(policy.next_delay(40_000), 60_000);
    assert_eq!(policy.next_delay(60_000), 60_000);
}

#[test]
fn retry_backoff_never_gives_up() {
    let retry = retry_backoff();
    assert_eq!(retry.max_elapsed_time, None);
    assert_eq!(retry.max_interval, std::time::Duration::from_secs(60));
}

#[test]
fn only_transport_errors_are_retried() {
    assert!(should_retry(&RelayError::Transport(TransportError::Timeout)));
    assert!(should_retry(&RelayError::Transport(TransportError::ConnectionLost)));
    assert!(!should_retry(&RelayError::Proof(ProofError::Malformed)));
    assert!(!should_retry(&RelayError::Proof(ProofError::RootMismatch)));
    assert!(!should_retry(&RelayError::Ordering(OrderingError::StaleAnchor)));
    assert!(!should_retry(&RelayError::Ordering(OrderingError::NonceGap)));
    assert!(!should_retry(&RelayError::Ordering(OrderingError::AlreadyConfirmed)));
    assert!(!should_retry(&RelayError::State(StateError::Halted)));
}

#[test]
fn head_relay_runs_on_demand_only() {
    assert!(needs_head_relay(None, 3));
    assert!(needs_head_relay(Some(2), 3));
    assert!(!needs_head_relay(Some(3), 3));
    assert!(!needs_head_relay(Some(9), 3));
}

#[test]
fn weight_tables_match_benchmarked_values() {
    let messages = bridge_engine::weights::messages::BridgeWeight {
        db_weight: rocks_db_weight(),
    };
    let w = messages.receive_single_message_proof();
    assert_eq!(w.ref_time, 50_113_000 + 4 * 25_000_000 + 2 * 100_000_000);
    assert_eq!(w.proof_size, 54703);
    let w = messages.receive_delivery_proof_for_two_messages_by_two_relayers();
    assert_eq!(w.ref_time, 44_367_000 + 5 * 25_000_000 + 3 * 100_000_000);
    assert_eq!(w.proof_size, 8164);

    let parachains = bridge_engine::weights::parachains::BridgeWeight {
        db_weight: rocks_db_weight(),
    };
    let w = parachains.submit_parachain_heads_with_n_parachains(3);
    assert_eq!(w.ref_time, 52_445_014 + 4 * 25_000_000 + 3 * 100_000_000);
    assert_eq!(w.proof_size, 0);
}

#[test]
fn weight_arithmetic_saturates() {
    let a = Weight::from_parts(u64::MAX - 1, 10);
    let b = Weight::from_parts(5, 3);
    let sum = a.saturating_add(b);
    assert_eq!(sum.ref_time, u64::MAX);
    assert_eq!(sum.proof_size, 13);
    let diff = b.saturating_sub(a);
    assert_eq!(diff.ref_time, 0);
    assert_eq!(diff.proof_size, 0);
    let db = DbWeight { read: u64::MAX, write: 2 };
    assert_eq!(db.reads(3).ref_time, u64::MAX);
    assert_eq!(db.writes(3).ref_time, 6);
}

#[test]
fn hashing_matches_the_hashing_crate() {
    let data = b"bridge engine".to_vec();
    assert_eq!(blake2_256(&data).0, sp_crypto_hashing::blake2_256(&data));
    assert_eq!(twox_128(&data), sp_crypto_hashing::twox_128(&data).to_vec());
    assert_eq!(twox_64(&data), sp_crypto_hashing::twox_64(&data).to_vec());
    assert_ne!(blake2_256(&data).0.to_vec(), data);
}

#[test]
fn hash_equality_is_byte_equality() {
    let a = Hash32([1u8; 32]);
    let b = Hash32([1u8; 32]);
    let mut c_bytes = [1u8; 32];
    c_bytes[31] = 2;
    let c = Hash32(c_bytes);
    assert!(a.equals(&b));
    assert!(!a.equals(&c));
}

fn build_test_trie(items: Vec<(Vec<u8>, Vec<u8>)>) -> ([u8; 32], Vec<Vec<u8>>) {
    let mut mdb = sp_trie::MemoryDB::<sp_core::Blake2Hasher>::default();
    let mut root = sp_core::H256::default();
    {
        let mut trie = sp_trie::TrieDBMutBuilder::<
            sp_trie::LayoutV1<sp_core::Blake2Hasher>,
        >::new(&mut mdb, &mut root)
        .build();
        for (k, v) in &items {
            trie.insert(k, v).expect("insert works on fresh trie");
        }
    }
    let nodes: Vec<Vec<u8>> = mdb
        .drain()
        .into_iter()
        .filter(|(_, (_, rc))| *rc > 0)
        .map(|(_, (d, _))| d)
        .collect();
    (root.0, nodes)
}

#[test]
fn verify_reads_resolves_present_and_absent_keys() {
    let (root, nodes) = build_test_trie(vec![
        (b"alpha".to_vec(), b"one".to_vec()),
        (b"beta".to_vec(), b"two".to_vec()),
    ]);
    let keys = vec![b"alpha".to_vec(), b"gamma".to_vec(), b"beta".to_vec()];
    let values = verify_reads(&Hash32(root), &nodes, &keys).expect("full proof verifies");
    assert_eq!(
        values,
        vec![Some(b"one".to_vec()), None, Some(b"two".to_vec())]
    );
}

#[test]
fn verify_reads_rejects_wrong_root() {
    let (_root, nodes) = build_test_trie(vec![(b"alpha".to_vec(), b"one".to_vec())]);
    let r = verify_reads(&Hash32([3u8; 32]), &nodes, &vec![b"alpha".to_vec()]);
    assert_eq!(r, Err(ProofError::RootMismatch));
}

#[test]
fn verify_reads_rejects_incomplete_proof() {
    // Keep only the root node of a trie that has more nodes: the root is
    // known, but a key's path cannot be walked.
    let mut items = Vec::new();
    for i in 0..32u8 {
        items.push((vec![i; 24], vec![i; 40]));
    }
    let (root, nodes) = build_test_trie(items);
    let root_node_only: Vec<Vec<u8>> = nodes
        .into_iter()
        .filter(|n| sp_crypto_hashing::blake2_256(n) == root)
        .collect();
    assert_eq!(root_node_only.len(), 1);
    let r = verify_reads(&Hash32(root), &root_node_only, &vec![vec![31u8; 24]]);
    assert_eq!(r, Err(ProofError::Malformed));
}

#[test]
fn proof_db_reads_what_was_proven() {
    let (root, nodes) = build_test_trie(vec![(b"alpha".to_vec(), b"one".to_vec())]);
    let db = ProofDb::build(&Hash32(root), &nodes).expect("root is covered");
    assert_eq!(db.read(&b"alpha".to_vec()), Ok(Some(b"one".to_vec())));
    assert_eq!(db.read(&b"beta".to_vec()), Ok(None));
}

#[test]
fn serialized_proof_is_the_codec_encoding() {
    let proof = vec![b"node one".to_vec(), b"node two".to_vec(), Vec::new()];
    let encoded = serialize_storage_proof(&proof);
    assert_eq!(encoded, parity_scale_codec::Encode::encode(&proof));
    assert!(!encoded.is_empty());

    // Exact wire bytes: compact count two, then each node with its compact
    // length; the second node's length takes the two-byte compact mode.
    let small = vec![vec![0xAB], vec![7u8; 70]];
    let mut expected = vec![0x08u8, 0x04, 0xAB, 0x19, 0x01];
    expected.extend_from_slice(&[7u8; 70]);
    assert_eq!(serialize_storage_proof(&small), expected);
    assert_eq!(serialize_storage_proof(&Vec::new()), vec![0x00]);
}

struct TestLayout {
    known_instance: [u8; 4],
}

impl Runtime for TestLayout {
    fn spec_message_key(
        &self,
        _instance: vstd::prelude::Seq<u8>,
        _lane: vstd::prelude::Seq<u8>,
        _nonce: u64,
    ) -> Option<vstd::prelude::Seq<u8>> {
        panic!("specification-level item; never called at run time")
    }

    fn spec_outbound_lane_data_key(
        &self,
        _instance: vstd::prelude::Seq<u8>,
        _lane: vstd::prelude::Seq<u8>,
    ) -> Option<vstd::prelude::Seq<u8>> {
        panic!("specification-level item; never called at run time")
    }

    fn spec_inbound_lane_data_key(
        &self,
        _instance: vstd::prelude::Seq<u8>,
        _lane: vstd::prelude::Seq<u8>,
    ) -> Option<vstd::prelude::Seq<u8>> {
        panic!("specification-level item; never called at run time")
    }

    fn message_key(
        &self,
        instance: &[u8; 4],
        lane: &[u8; 4],
        nonce: u64,
    ) -> Option<Vec<u8>> {
        if *instance != self.known_instance {
            return None;
        }
        let mut key = b"message".to_vec();
        key.extend_from_slice(lane);
        key.extend_from_slice(&nonce.to_le_bytes());
        Some(key)
    }

    fn outbound_lane_data_key(&self, instance: &[u8; 4], lane: &[u8; 4]) -> Option<Vec<u8>> {
        if *instance != self.known_instance {
            return None;
        }
        let mut key = b"outbound".to_vec();
        key.extend_from_slice(lane);
        Some(key)
    }

    fn inbound_lane_data_key(&self, instance: &[u8; 4], lane: &[u8; 4]) -> Option<Vec<u8>> {
        if *instance != self.known_instance {
            return None;
        }
        let mut key = b"inbound".to_vec();
        key.extend_from_slice(lane);
        Some(key)
    }
}

#[test]
fn message_keys_cover_the_nonce_range_in_order() {
    let handler = MessageLaneRpcHandler::new(TestLayout { known_instance: *b"brdg" });
    let lane = *b"lane";
    let keys = handler
        .message_keys_to_prove(b"brdg", &lane, 2, 4, false)
        .expect("instance is known");
    assert_eq!(keys.len(), 3);
    for (i, nonce) in (2u64..=4).enumerate() {
        let mut expected = b"message".to_vec();
        expected.extend_from_slice(&lane);
        expected.extend_from_slice(&nonce.to_le_bytes());
        assert_eq!(keys[i], expected);
    }
}

#[test]
fn message_keys_append_lane_state_key_when_asked() {
    let handler = MessageLaneRpcHandler::new(TestLayout { known_instance: *b"brdg" });
    let lane = *b"lane";
    let keys = handler
        .message_keys_to_prove(b"brdg", &lane, 1, 1, true)
        .expect("instance is known");
    assert_eq!(keys.len(), 2);
    let mut outbound_state_key = b"outbound".to_vec();
    outbound_state_key.extend_from_slice(&lane);
    assert_eq!(keys[1], outbound_state_key);

    // The delivery proof covers the other side's record: the inbound one.
    let mut inbound_state_key = b"inbound".to_vec();
    inbound_state_key.extend_from_slice(&lane);
    let delivery = handler.delivery_keys_to_prove(b"brdg", &lane).expect("instance is known");
    assert_eq!(delivery, vec![inbound_state_key.clone()]);
    assert_ne!(outbound_state_key, inbound_state_key);
}

#[test]
fn unknown_instance_fails_the_request() {
    let handler = MessageLaneRpcHandler::new(TestLayout { known_instance: *b"brdg" });
    let lane = *b"lane";
    assert_eq!(
        handler.message_keys_to_prove(b"misc", &lane, 1, 3, false),
        Err(RpcError::UnknownInstance)
    );
    assert_eq!(
        handler.delivery_keys_to_prove(b"misc", &lane),
        Err(RpcError::UnknownInstance)
    );
}

#[test]
fn system_remark_carries_its_payload() {
    let call = bridge_engine::calls::SystemCall::remark(b"hello".to_vec());
    assert_eq!(call.remark_payload(), &b"hello".to_vec());
}
