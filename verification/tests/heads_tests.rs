//! Head-tracker behaviour against real storage proofs.

use bridge_engine::errors::{AdminError, FinalityError, OrderingError, ProofError, RelayError, StateError};
use bridge_engine::heads::{ParaTracker, UpdateOutcome};
use bridge_engine::finality::{FinalityHeadTracker, FinalizedHeader};
use bridge_engine::hashing::Hash32;
use sp_trie::TrieMut;
use bridge_engine::secondary::{
    parachain_head_storage_key_at_source, GenesisConfig, OperatingMode, Origin,
    ParaImportOutcome, ParseProofError, SecondaryHeadTracker, StateRootDecoder,
};

const PARAS_PALLET_NAME: &[u8] = b"Paras";
const UNTRACKED_PARACHAIN_ID: u32 = 42;

fn head_storage_key(para: u32) -> Vec<u8> {
    // Computed directly with the hashing crate, independently of the
    // library's own key computation.
    let mut key = sp_crypto_hashing::twox_128(PARAS_PALLET_NAME).to_vec();
    key.extend_from_slice(&sp_crypto_hashing::twox_128(b"Heads"));
    let encoded_para = para.to_le_bytes().to_vec();
    key.extend_from_slice(&sp_crypto_hashing::twox_64(&encoded_para));
    key.extend_from_slice(&encoded_para);
    key
}

fn head_data(para: u32, head_number: u32) -> Vec<u8> {
    let mut data = b"head".to_vec();
    data.extend_from_slice(&para.to_le_bytes());
    data.extend_from_slice(&head_number.to_le_bytes());
    data
}

fn head_hash_of(data: &[u8]) -> Hash32 {
    Hash32(sp_crypto_hashing::blake2_256(data))
}

/// Build a trie holding the given heads and return its root and the full
/// node set as a storage proof.
fn prepare_parachain_heads_proof(
    heads: Vec<(u32, Vec<u8>)>,
) -> ([u8; 32], Vec<Vec<u8>>, Vec<(u32, Hash32)>) {
    let mut parachains = Vec::new();
    let mut mdb = sp_trie::MemoryDB::<sp_core::Blake2Hasher>::default();
    let mut root = sp_core::H256::default();
    {
        let mut trie = sp_trie::TrieDBMutBuilder::<
            sp_trie::LayoutV1<sp_core::Blake2Hasher>,
        >::new(&mut mdb, &mut root)
        .build();
        for (para, head) in &heads {
            trie.insert(&head_storage_key(*para), head).expect("insert works on fresh trie");
            parachains.push((*para, head_hash_of(head)));
        }
    }
    let nodes: Vec<Vec<u8>> = mdb
        .drain()
        .into_iter()
        .filter(|(_, (_, rc))| *rc > 0)
        .map(|(_, (d, _))| d)
        .collect();
    (root.0, nodes, parachains)
}

fn relay_header(number: u32, state_root: [u8; 32]) -> FinalizedHeader {
    let mut tag = b"relay".to_vec();
    tag.extend_from_slice(&number.to_le_bytes());
    tag.extend_from_slice(&state_root);
    FinalizedHeader {
        number,
        hash: Hash32(sp_crypto_hashing::blake2_256(&tag)),
        state_root: Hash32(state_root),
    }
}

fn new_tracker(heads_to_keep: u32) -> SecondaryHeadTracker {
    GenesisConfig::default().build(
        heads_to_keep,
        PARAS_PALLET_NAME.to_vec(),
        vec![1, 2, 3],
    )
}

fn finality_at(header: FinalizedHeader) -> FinalityHeadTracker {
    let mut finality = FinalityHeadTracker::new();
    finality.import_finalized_header(header, true).expect("fresh tracker accepts any header");
    finality
}

#[test]
fn submit_parachain_heads_checks_operating_mode() {
    let (state_root, proof, parachains) =
        prepare_parachain_heads_proof(vec![(1, head_data(1, 0))]);
    let header = relay_header(0, state_root);
    let finality = finality_at(header);
    let mut tracker = new_tracker(4);

    tracker.set_operating_mode(Origin::Root, OperatingMode::Halted).expect("root may halt");
    let rejected = tracker.submit_parachain_heads(
        &finality,
        (0, header.hash),
        &parachains,
        &proof,
    );
    assert_eq!(rejected, Err(RelayError::State(StateError::Halted)));

    tracker.set_operating_mode(Origin::Root, OperatingMode::Normal).expect("root may resume");
    let accepted = tracker.submit_parachain_heads(
        &finality,
        (0, header.hash),
        &parachains,
        &proof,
    );
    assert!(accepted.is_ok());
}

#[test]
fn imports_initial_parachain_heads() {
    let (state_root, proof, _) =
        prepare_parachain_heads_proof(vec![(1, head_data(1, 0)), (3, head_data(3, 10))]);
    let header = relay_header(0, state_root);
    let finality = finality_at(header);
    let mut tracker = new_tracker(4);

    // Ask for heads of chains 1, 2 and 3; the proof shows no head of 2.
    let requests = vec![
        (1, head_hash_of(&head_data(1, 0))),
        (2, head_hash_of(&head_data(2, 0))),
        (3, head_hash_of(&head_data(3, 10))),
    ];
    let outcomes = tracker
        .submit_parachain_heads(&finality, (0, header.hash), &requests, &proof)
        .expect("submission is well anchored");
    assert_eq!(outcomes[0], ParaImportOutcome::Updated { prune_happened: false });
    assert_eq!(outcomes[1], ParaImportOutcome::HeadUnavailable);
    assert_eq!(outcomes[2], ParaImportOutcome::Updated { prune_happened: false });

    assert_eq!(tracker.best_parachain_head(1), Some(head_data(1, 0)));
    assert_eq!(tracker.best_parachain_head(2), None);
    assert_eq!(tracker.best_parachain_head(3), Some(head_data(3, 10)));
    assert_eq!(
        tracker.parachain_head(1, &head_hash_of(&head_data(1, 0))),
        Some(head_data(1, 0))
    );
    assert_eq!(tracker.parachain_head(2, &head_hash_of(&head_data(2, 0))), None);
}

#[test]
fn imports_parachain_heads_is_able_to_progress() {
    let (root_5, proof_5, parachains_5) =
        prepare_parachain_heads_proof(vec![(1, head_data(1, 5))]);
    let (root_10, proof_10, parachains_10) =
        prepare_parachain_heads_proof(vec![(1, head_data(1, 10))]);
    let header_0 = relay_header(0, root_5);
    let header_1 = relay_header(1, root_10);
    let mut finality = finality_at(header_0);
    let mut tracker = new_tracker(4);

    tracker
        .submit_parachain_heads(&finality, (0, header_0.hash), &parachains_5, &proof_5)
        .expect("submission at block zero works");
    assert_eq!(tracker.best_parachain_head(1), Some(head_data(1, 5)));
    assert_eq!(tracker.parachain_head(1, &head_hash_of(&head_data(1, 10))), None);

    finality.import_finalized_header(header_1, true).expect("the chain advances");
    tracker
        .submit_parachain_heads(&finality, (1, header_1.hash), &parachains_10, &proof_10)
        .expect("submission at block one works");
    assert_eq!(tracker.best_parachain_head(1), Some(head_data(1, 10)));
    assert_eq!(
        tracker.parachain_head(1, &head_hash_of(&head_data(1, 5))),
        Some(head_data(1, 5))
    );
    assert_eq!(
        tracker.parachain_head(1, &head_hash_of(&head_data(1, 10))),
        Some(head_data(1, 10))
    );
}

#[test]
fn ignores_untracked_parachain() {
    let (state_root, proof, parachains) = prepare_parachain_heads_proof(vec![
        (1, head_data(1, 5)),
        (UNTRACKED_PARACHAIN_ID, head_data(1, 5)),
        (2, head_data(1, 5)),
    ]);
    let header = relay_header(0, state_root);
    let finality = finality_at(header);
    let mut tracker = new_tracker(4);

    let outcomes = tracker
        .submit_parachain_heads(&finality, (0, header.hash), &parachains, &proof)
        .expect("submission is well anchored");
    assert_eq!(outcomes[0], ParaImportOutcome::Updated { prune_happened: false });
    assert_eq!(outcomes[1], ParaImportOutcome::Untracked);
    assert_eq!(outcomes[2], ParaImportOutcome::Updated { prune_happened: false });
    assert_eq!(tracker.best_parachain_head(1), Some(head_data(1, 5)));
    assert_eq!(tracker.best_parachain_head(UNTRACKED_PARACHAIN_ID), None);
    assert_eq!(tracker.best_parachain_head(2), Some(head_data(1, 5)));
}

#[test]
fn does_nothing_when_already_imported_this_head_at_previous_relay_header() {
    let (state_root, proof, parachains) =
        prepare_parachain_heads_proof(vec![(1, head_data(1, 0))]);
    let header_0 = relay_header(0, state_root);
    let header_1 = relay_header(1, state_root);
    let mut finality = finality_at(header_0);
    let mut tracker = new_tracker(4);

    tracker
        .submit_parachain_heads(&finality, (0, header_0.hash), &parachains, &proof)
        .expect("first import works");
    assert_eq!(tracker.best_parachain_head(1), Some(head_data(1, 0)));

    // Resubmitting the same head anchored higher is accepted as a no-op.
    finality.import_finalized_header(header_1, true).expect("the chain advances");
    let outcomes = tracker
        .submit_parachain_heads(&finality, (1, header_1.hash), &parachains, &proof)
        .expect("the resubmission is well anchored");
    assert_eq!(outcomes[0], ParaImportOutcome::NoChange);
    assert_eq!(tracker.best_parachain_head(1), Some(head_data(1, 0)));
}

#[test]
fn does_nothing_when_already_imported_head_at_better_relay_header() {
    // The update layer rejects an anchor older than the stored one.
    let mut chain = ParaTracker::new(4);
    let data_10 = head_data(1, 10);
    let updated = chain.update_parachain_head(4, 1, &data_10, &head_hash_of(&data_10));
    assert_eq!(updated, Ok(UpdateOutcome::Updated { prune_happened: false }));

    let data_5 = head_data(1, 5);
    let stale = chain.update_parachain_head(4, 0, &data_5, &head_hash_of(&data_5));
    assert_eq!(stale, Err(OrderingError::StaleAnchor));
    assert_eq!(chain.best.expect("head stays").head_hash, head_hash_of(&data_10));
    assert_eq!(chain.best.expect("head stays").at_relay_block_number, 1);
}

#[test]
fn prunes_old_heads() {
    // Ring capacity two: after importing three distinct heads, the first
    // one is gone and the last two are stored.
    let mut finality = FinalityHeadTracker::new();
    let mut tracker = new_tracker(2);
    for i in 0..3u32 {
        let (state_root, proof, parachains) =
            prepare_parachain_heads_proof(vec![(1, head_data(1, i))]);
        let header = relay_header(i, state_root);
        finality.import_finalized_header(header, true).expect("the chain advances");
        let outcomes = tracker
            .submit_parachain_heads(&finality, (i, header.hash), &parachains, &proof)
            .expect("submission is well anchored");
        let prune_expected = i >= 2;
        assert_eq!(
            outcomes[0],
            ParaImportOutcome::Updated { prune_happened: prune_expected }
        );
    }
    assert_eq!(tracker.parachain_head(1, &head_hash_of(&head_data(1, 0))), None);
    assert_eq!(
        tracker.parachain_head(1, &head_hash_of(&head_data(1, 1))),
        Some(head_data(1, 1))
    );
    assert_eq!(
        tracker.parachain_head(1, &head_hash_of(&head_data(1, 2))),
        Some(head_data(1, 2))
    );
    assert_eq!(tracker.best_parachain_head(1), Some(head_data(1, 2)));
}

#[test]
fn fails_on_unknown_relay_chain_block() {
    let (state_root, proof, parachains) =
        prepare_parachain_heads_proof(vec![(1, head_data(1, 5))]);
    let header = relay_header(0, state_root);
    let finality = finality_at(header);
    let mut tracker = new_tracker(4);

    let unknown = Hash32([7u8; 32]);
    let rejected = tracker.submit_parachain_heads(&finality, (1, unknown), &parachains, &proof);
    assert_eq!(rejected, Err(RelayError::State(StateError::UnknownAnchor)));
    assert_eq!(tracker.best_parachain_head(1), None);
}

#[test]
fn fails_on_wrong_relay_chain_block_number() {
    let (state_root, proof, parachains) =
        prepare_parachain_heads_proof(vec![(1, head_data(1, 5))]);
    let header = relay_header(5, state_root);
    let finality = finality_at(header);
    let mut tracker = new_tracker(4);

    let rejected = tracker.submit_parachain_heads(&finality, (4, header.hash), &parachains, &proof);
    assert_eq!(rejected, Err(RelayError::State(StateError::AnchorNumberMismatch)));
}

#[test]
fn fails_on_invalid_storage_proof() {
    let (_state_root, proof, parachains) =
        prepare_parachain_heads_proof(vec![(1, head_data(1, 5))]);
    // The anchor commits to an all-zero state root the proof cannot match.
    let header = relay_header(0, [0u8; 32]);
    let finality = finality_at(header);
    let mut tracker = new_tracker(4);

    let rejected = tracker.submit_parachain_heads(&finality, (0, header.hash), &parachains, &proof);
    assert_eq!(rejected, Err(RelayError::Proof(ProofError::RootMismatch)));
}

#[test]
fn is_not_rewriting_existing_head_if_failed_to_read_updated_head() {
    let (root_5, proof_5, parachains_5) =
        prepare_parachain_heads_proof(vec![(1, head_data(1, 5))]);
    let (root_10_at_20, proof_10_at_20, _) =
        prepare_parachain_heads_proof(vec![(2, head_data(2, 10))]);
    let (root_10_at_30, proof_10_at_30, parachains_10_at_30) =
        prepare_parachain_heads_proof(vec![(1, head_data(1, 10))]);
    let header_0 = relay_header(0, root_5);
    let header_20 = relay_header(20, root_10_at_20);
    let header_30 = relay_header(30, root_10_at_30);
    let mut finality = finality_at(header_0);
    let mut tracker = new_tracker(4);

    tracker
        .submit_parachain_heads(&finality, (0, header_0.hash), &parachains_5, &proof_5)
        .expect("first import works");
    assert_eq!(tracker.best_parachain_head(1), Some(head_data(1, 5)));

    // A proof that does not show chain one's head leaves its record alone.
    finality.import_finalized_header(header_20, true).expect("the chain advances");
    let claim = vec![(1, head_hash_of(&head_data(1, 10)))];
    let outcomes = tracker
        .submit_parachain_heads(&finality, (20, header_20.hash), &claim, &proof_10_at_20)
        .expect("submission is well anchored");
    assert_eq!(outcomes[0], ParaImportOutcome::HeadUnavailable);
    assert_eq!(tracker.best_parachain_head(1), Some(head_data(1, 5)));

    // A proof that does show it advances the record.
    finality.import_finalized_header(header_30, true).expect("the chain advances");
    tracker
        .submit_parachain_heads(
            &finality,
            (30, header_30.hash),
            &parachains_10_at_30,
            &proof_10_at_30,
        )
        .expect("submission is well anchored");
    assert_eq!(tracker.best_parachain_head(1), Some(head_data(1, 10)));
}

#[test]
fn rejects_head_with_misdeclared_hash() {
    let (state_root, proof, _) = prepare_parachain_heads_proof(vec![(1, head_data(1, 5))]);
    let header = relay_header(0, state_root);
    let finality = finality_at(header);
    let mut tracker = new_tracker(4);

    let wrong = vec![(1, Hash32([9u8; 32]))];
    let outcomes = tracker
        .submit_parachain_heads(&finality, (0, header.hash), &wrong, &proof)
        .expect("submission is well anchored");
    assert_eq!(outcomes[0], ParaImportOutcome::HashMismatch);
    assert_eq!(tracker.best_parachain_head(1), None);
}

#[test]
fn resubmitting_same_head_at_higher_anchor_keeps_stored_anchor() {
    // The update layer: import a head at anchor five, resubmit the same
    // head at anchor seven; the stored anchor stays five.
    let mut chain = ParaTracker::new(4);
    let data = head_data(1, 0);
    let hash = head_hash_of(&data);
    assert_eq!(
        chain.update_parachain_head(4, 5, &data, &hash),
        Ok(UpdateOutcome::Updated { prune_happened: false })
    );
    assert_eq!(chain.update_parachain_head(4, 7, &data, &hash), Ok(UpdateOutcome::NoChange));
    assert_eq!(chain.best.expect("head is stored").at_relay_block_number, 5);
}

#[test]
fn resubmitting_same_head_at_same_anchor_is_a_no_op() {
    let (state_root, proof, parachains) =
        prepare_parachain_heads_proof(vec![(1, head_data(1, 0))]);
    let header = relay_header(0, state_root);
    let finality = finality_at(header);
    let mut tracker = new_tracker(4);

    let first = tracker
        .submit_parachain_heads(&finality, (0, header.hash), &parachains, &proof)
        .expect("first submission works");
    assert_eq!(first[0], ParaImportOutcome::Updated { prune_happened: false });

    let second = tracker
        .submit_parachain_heads(&finality, (0, header.hash), &parachains, &proof)
        .expect("the resubmission is well anchored");
    assert_eq!(second[0], ParaImportOutcome::NoChange);
    assert_eq!(tracker.best_parachain_head(1), Some(head_data(1, 0)));
    assert_eq!(
        tracker.parachain_head(1, &head_hash_of(&head_data(1, 0))),
        Some(head_data(1, 0))
    );
}

#[test]
fn accepted_anchors_never_decrease() {
    let mut chain = ParaTracker::new(4);
    let mut last_anchor = 0;
    for (anchor, number) in [(1u32, 10u32), (3, 11), (7, 12)] {
        let data = head_data(1, number);
        assert!(chain.update_parachain_head(4, anchor, &data, &head_hash_of(&data)).is_ok());
        let stored = chain.best.expect("head is stored").at_relay_block_number;
        assert!(stored >= last_anchor);
        assert_eq!(stored, anchor);
        last_anchor = stored;
    }
}

#[test]
fn conflicting_head_at_same_anchor_is_stale() {
    let mut chain = ParaTracker::new(4);
    let first = head_data(1, 0);
    let second = head_data(1, 1);
    assert_eq!(
        chain.update_parachain_head(4, 3, &first, &head_hash_of(&first)),
        Ok(UpdateOutcome::Updated { prune_happened: false })
    );
    assert_eq!(
        chain.update_parachain_head(4, 3, &second, &head_hash_of(&second)),
        Err(OrderingError::StaleAnchor)
    );
    assert_eq!(chain.best.expect("first writer wins").head_hash, head_hash_of(&first));
}

#[test]
fn storage_keys_computed_properly() {
    let library_key = parachain_head_storage_key_at_source(&b"Parachains".to_vec(), 42);
    let mut expected = sp_crypto_hashing::twox_128(b"Parachains").to_vec();
    expected.extend_from_slice(&sp_crypto_hashing::twox_128(b"Heads"));
    let encoded_para = 42u32.to_le_bytes().to_vec();
    expected.extend_from_slice(&sp_crypto_hashing::twox_64(&encoded_para));
    expected.extend_from_slice(&encoded_para);
    assert_eq!(library_key, expected);
}

#[test]
fn set_owner_requires_owner_or_root() {
    let mut tracker = new_tracker(4);
    assert_eq!(tracker.set_owner(Origin::Signed(1), Some(1)), Err(AdminError::BadOrigin));
    assert_eq!(tracker.set_owner(Origin::Root, Some(1)), Ok(()));
    assert_eq!(tracker.set_owner(Origin::Signed(2), Some(2)), Err(AdminError::BadOrigin));
    assert_eq!(tracker.set_owner(Origin::Signed(1), Some(2)), Ok(()));
    assert_eq!(
        tracker.set_operating_mode(Origin::Signed(1), OperatingMode::Halted),
        Err(AdminError::BadOrigin)
    );
    assert_eq!(
        tracker.set_operating_mode(Origin::Signed(2), OperatingMode::Halted),
        Ok(())
    );
}

struct TailRootDecoder;

impl StateRootDecoder for TailRootDecoder {
    fn spec_decode(
        &self,
        _head: vstd::prelude::Seq<u8>,
    ) -> Option<vstd::prelude::Seq<u8>> {
        panic!("specification-level item; never called at run time")
    }

    fn decode_state_root(&self, head: &Vec<u8>) -> Option<Hash32> {
        if head.len() >= 32 {
            let mut root = [0u8; 32];
            root.copy_from_slice(&head[head.len() - 32..]);
            Some(Hash32(root))
        } else {
            None
        }
    }
}

#[test]
fn parse_finalized_storage_proof_checks_head_and_root() {
    // An inner trie the tracked chain's own state commits to.
    let (inner_root, inner_proof, _) =
        prepare_parachain_heads_proof(vec![(3, head_data(3, 1))]);

    // A head of chain one that carries that state root in its tail.
    let mut head = b"headx".to_vec();
    head.extend_from_slice(&inner_root);
    let head_hash = head_hash_of(&head);
    let (state_root, proof, parachains) = prepare_parachain_heads_proof(vec![(1, head.clone())]);
    let header = relay_header(0, state_root);
    let finality = finality_at(header);
    let mut tracker = new_tracker(4);
    tracker
        .submit_parachain_heads(&finality, (0, header.hash), &parachains, &proof)
        .expect("the head imports");

    // Unknown head hash.
    assert!(matches!(
        tracker.parse_finalized_storage_proof(1, &Hash32([9u8; 32]), &inner_proof, &TailRootDecoder),
        Err(ParseProofError::UnknownParaHead)
    ));

    // A proof that does not match the head's state root.
    let (_, other_proof, _) = prepare_parachain_heads_proof(vec![(2, head_data(2, 9))]);
    assert!(matches!(
        tracker.parse_finalized_storage_proof(1, &head_hash, &other_proof, &TailRootDecoder),
        Err(ParseProofError::StorageRootMismatch)
    ));

    // The right proof opens, and the proven key reads back.
    let db = tracker
        .parse_finalized_storage_proof(1, &head_hash, &inner_proof, &TailRootDecoder)
        .expect("the proof matches the embedded root");
    assert_eq!(db.read(&head_storage_key(3)), Ok(Some(head_data(3, 1))));
}

#[test]
fn parse_finalized_storage_proof_needs_a_decodable_root() {
    // A short head carries no state root the decoder could extract.
    let short_head = head_data(1, 5);
    let (state_root, proof, parachains) =
        prepare_parachain_heads_proof(vec![(1, short_head.clone())]);
    let header = relay_header(0, state_root);
    let finality = finality_at(header);
    let mut tracker = new_tracker(4);
    tracker
        .submit_parachain_heads(&finality, (0, header.hash), &parachains, &proof)
        .expect("the head imports");

    assert!(matches!(
        tracker.parse_finalized_storage_proof(
            1,
            &head_hash_of(&short_head),
            &proof,
            &TailRootDecoder,
        ),
        Err(ParseProofError::FailedToExtractStateRoot)
    ));
}

#[test]
fn finality_tracker_enforces_proof_and_order() {
    let mut finality = FinalityHeadTracker::new();
    let header_1 = relay_header(1, [1u8; 32]);
    let header_2 = relay_header(2, [2u8; 32]);

    assert_eq!(
        finality.import_finalized_header(header_1, false),
        Err(FinalityError::InvalidProof)
    );
    assert_eq!(finality.import_finalized_header(header_1, true), Ok(()));
    assert_eq!(
        finality.import_finalized_header(header_1, true),
        Err(FinalityError::OldHeader)
    );
    assert_eq!(finality.import_finalized_header(header_2, true), Ok(()));
    assert_eq!(finality.header_by_hash(&header_2.hash), Some(header_2));
    assert_eq!(finality.header_by_hash(&header_1.hash), None);
}
