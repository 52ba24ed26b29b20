//! The secondary-head tracking module: per-chain head import anchored to
//! finalized counterparty blocks, with owner and operating-mode management.
//!
//! The module owns, per watched chain, the head history of `heads.rs`; an
//! import submission carries a storage proof crafted at an anchor block that
//! the finality tracker must already hold. While halted, all proof-consuming
//! entry points reject; only owner and mode management stay open.

use vstd::prelude::*;

use crate::errors::{AdminError, ProofError, RelayError, StateError};
use crate::finality::{FinalityHeadTracker, FinalizedHeader};
use crate::hashing::{blake2_256, twox_128, twox_64, Hash32};
use crate::heads::{empty_para_state, spec_update, ParaState, ParaTracker, UpdateOutcome};
use crate::storage_proof::{trie_lookup, trie_root_known, ProofDb};

verus! {

/// Whether the module accepts proof-consuming submissions.
#[derive(Clone, Copy, PartialEq, Eq, Debug)]
pub enum OperatingMode {
    /// All submissions are accepted.
    Normal,
    /// All proof-consuming submissions are rejected until an administrator
    /// resumes operation.
    Halted,
}

/// Who signed a management call.
#[derive(Clone, Copy, PartialEq, Eq, Debug)]
pub enum Origin {
    /// The chain's root authority.
    Root,
    /// An account.
    Signed(u64),
}

/// The little-endian bytes of a 32-bit integer, as chain storage encodes it.
pub open spec fn u32_le_bytes(x: u32) -> Seq<u8> {
    seq![
        (x & 0xff) as u8,
        ((x >> 8) & 0xff) as u8,
        ((x >> 16) & 0xff) as u8,
        ((x >> 24) & 0xff) as u8,
    ]
}

/// Encode a 32-bit integer as its four little-endian bytes.
pub fn encode_u32_le(x: u32) -> (r: Vec<u8>)
    ensures
        r@ == u32_le_bytes(x),
{
    let mut r: Vec<u8> = Vec::new();
    r.push((x & 0xff) as u8);
    r.push(((x >> 8) & 0xff) as u8);
    r.push(((x >> 16) & 0xff) as u8);
    r.push(((x >> 24) & 0xff) as u8);
    proof {
        assert(r@ =~= u32_le_bytes(x));
    }
    r
}

/// The byte string `"Heads"`: name of the storage map holding chain heads
/// at the counterparty chain.
pub open spec fn heads_storage_name() -> Seq<u8> {
    seq![72u8, 101u8, 97u8, 100u8, 115u8]
}

/// The storage key under which the counterparty chain keeps the head of the
/// given chain: the pallet-name hash, the map-name hash, then the
/// hash-prefixed encoded chain id.
pub open spec fn spec_head_storage_key(pallet_name: Seq<u8>, para_id: u32) -> Seq<u8> {
    crate::hashing::twox_128_of(pallet_name) + crate::hashing::twox_128_of(heads_storage_name())
        + crate::hashing::twox_64_of(u32_le_bytes(para_id)) + u32_le_bytes(para_id)
}

/// Compute the storage key of the given chain's head at the counterparty
/// chain.
pub fn parachain_head_storage_key_at_source(paras_pallet_name: &Vec<u8>, para_id: u32) -> (r: Vec<
    u8,
>)
    ensures
        r@ == spec_head_storage_key(paras_pallet_name@, para_id),
{
    let mut heads_name: Vec<u8> = Vec::new();
    heads_name.push(72);
    heads_name.push(101);
    heads_name.push(97);
    heads_name.push(100);
    heads_name.push(115);
    proof {
        assert(heads_name@ =~= heads_storage_name());
    }
    let mut encoded_para = encode_u32_le(para_id);
    let mut key = twox_128(paras_pallet_name);
    let mut map_hash = twox_128(&heads_name);
    let mut para_hash = twox_64(&encoded_para);
    key.append(&mut map_hash);
    key.append(&mut para_hash);
    key.append(&mut encoded_para);
    key
}

/// Whether no two chain entries share an id.
pub open spec fn chains_unique(cs: Seq<(u32, ParaTracker)>) -> bool {
    forall|i: int, j: int|
        0 <= i < j < cs.len() ==> (#[trigger] cs[i]).0 != (#[trigger] cs[j]).0
}

/// The chain entries as a map from chain id to head-history state.
pub open spec fn chains_view(cs: Seq<(u32, ParaTracker)>) -> Map<int, ParaState> {
    Map::new(
        |k: int| exists|i: int| 0 <= i < cs.len() && (#[trigger] cs[i]).0 as int == k,
        |k: int|
            {
                let i = choose|i: int| 0 <= i < cs.len() && (#[trigger] cs[i]).0 as int == k;
                cs[i].1@
            },
    )
}

proof fn lemma_chains_at(cs: Seq<(u32, ParaTracker)>, i: int)
    requires
        chains_unique(cs),
        0 <= i < cs.len(),
    ensures
        chains_view(cs).contains_key(cs[i].0 as int),
        chains_view(cs)[cs[i].0 as int] == cs[i].1@,
{
    assert(chains_view(cs).contains_key(cs[i].0 as int));
    let j = choose|j: int| 0 <= j < cs.len() && (#[trigger] cs[j]).0 as int == cs[i].0 as int;
    assert(j == i);
}

proof fn lemma_chains_after_update(
    old_cs: Seq<(u32, ParaTracker)>,
    new_cs: Seq<(u32, ParaTracker)>,
    i: int,
)
    requires
        chains_unique(old_cs),
        0 <= i < old_cs.len(),
        new_cs.len() == old_cs.len(),
        new_cs[i].0 == old_cs[i].0,
        forall|j: int| 0 <= j < old_cs.len() && j != i ==> new_cs[j] == old_cs[j],
    ensures
        chains_unique(new_cs),
        chains_view(new_cs) == chains_view(old_cs).insert(old_cs[i].0 as int, new_cs[i].1@),
{
    let k0 = old_cs[i].0 as int;
    assert forall|p: int, q: int| 0 <= p < q < new_cs.len() implies (#[trigger] new_cs[p]).0 != (
    #[trigger] new_cs[q]).0 by {
        assert(old_cs[p].0 != old_cs[q].0);
        if p == i {
            assert(new_cs[q] == old_cs[q]);
        } else if q == i {
            assert(new_cs[p] == old_cs[p]);
        }
    }
    let lhs = chains_view(new_cs);
    let rhs = chains_view(old_cs).insert(k0, new_cs[i].1@);
    assert forall|k: int| lhs.contains_key(k) <==> rhs.contains_key(k) by {
        if k == k0 {
            assert(new_cs[i].0 as int == k);
        } else {
            if lhs.contains_key(k) {
                let j = choose|j: int| 0 <= j < new_cs.len() && (#[trigger] new_cs[j]).0 as int
                    == k;
                assert(j != i);
                assert(old_cs[j].0 as int == k);
            }
            if rhs.contains_key(k) {
                let j = choose|j: int| 0 <= j < old_cs.len() && (#[trigger] old_cs[j]).0 as int
                    == k;
                assert(j != i);
                assert(new_cs[j].0 as int == k);
            }
        }
    }
    assert forall|k: int| #[trigger] lhs.contains_key(k) implies lhs[k] == rhs[k] by {
        let j = choose|j: int| 0 <= j < new_cs.len() && (#[trigger] new_cs[j]).0 as int == k;
        if k == k0 {
            assert(j == i);
        } else {
            assert(j != i);
            assert(old_cs[j].0 as int == k);
            lemma_chains_at(old_cs, j);
            assert(new_cs[j] == old_cs[j]);
        }
    }
    assert(lhs =~= rhs);
}

proof fn lemma_chains_after_push(
    old_cs: Seq<(u32, ParaTracker)>,
    new_cs: Seq<(u32, ParaTracker)>,
    para: u32,
)
    requires
        chains_unique(old_cs),
        forall|j: int| 0 <= j < old_cs.len() ==> (#[trigger] old_cs[j]).0 != para,
        new_cs.len() == old_cs.len() + 1,
        new_cs[old_cs.len() as int].0 == para,
        forall|j: int| 0 <= j < old_cs.len() ==> #[trigger] new_cs[j] == old_cs[j],
    ensures
        chains_unique(new_cs),
        chains_view(new_cs) == chains_view(old_cs).insert(
            para as int,
            new_cs[old_cs.len() as int].1@,
        ),
        !chains_view(old_cs).contains_key(para as int),
{
    let n = old_cs.len() as int;
    assert forall|p: int, q: int| 0 <= p < q < new_cs.len() implies (#[trigger] new_cs[p]).0 != (
    #[trigger] new_cs[q]).0 by {
        if q < n {
            assert(new_cs[p] == old_cs[p]);
            assert(new_cs[q] == old_cs[q]);
        } else {
            assert(new_cs[p] == old_cs[p]);
            assert(new_cs[q].0 == para);
        }
    }
    let lhs = chains_view(new_cs);
    let rhs = chains_view(old_cs).insert(para as int, new_cs[n].1@);
    assert forall|k: int| lhs.contains_key(k) <==> rhs.contains_key(k) by {
        if k == para as int {
            assert(new_cs[n].0 as int == k);
        } else {
            if lhs.contains_key(k) {
                let j = choose|j: int| 0 <= j < new_cs.len() && (#[trigger] new_cs[j]).0 as int
                    == k;
                assert(j != n);
                assert(old_cs[j].0 as int == k);
            }
            if rhs.contains_key(k) {
                let j = choose|j: int| 0 <= j < old_cs.len() && (#[trigger] old_cs[j]).0 as int
                    == k;
                assert(new_cs[j].0 as int == k);
            }
        }
    }
    assert forall|k: int| #[trigger] lhs.contains_key(k) implies lhs[k] == rhs[k] by {
        let j = choose|j: int| 0 <= j < new_cs.len() && (#[trigger] new_cs[j]).0 as int == k;
        if k == para as int {
            assert(j == n);
        } else {
            assert(j != n);
            assert(old_cs[j].0 as int == k);
            lemma_chains_at(old_cs, j);
            assert(new_cs[j] == old_cs[j]);
        }
    }
    assert(lhs =~= rhs);
}

/// The module state as the contracts speak of it.
#[verifier::ext_equal]
pub ghost struct TrackerState {
    /// Operating mode.
    pub mode: OperatingMode,
    /// Module owner, if set.
    pub owner: Option<u64>,
    /// Ring capacity per chain.
    pub heads_to_keep: int,
    /// Name of the counterparty pallet the head storage keys cite.
    pub pallet_name: Seq<u8>,
    /// The ids of the chains whose heads this module follows.
    pub tracked_parachains: Set<int>,
    /// Per-chain head history, present once a chain had an accepted import.
    pub chains: Map<int, ParaState>,
}

/// What one head of a submission led to. Heads that cannot be used are
/// skipped, never failing the surrounding submission.
#[derive(Clone, Copy, PartialEq, Eq, Debug)]
pub enum ParaImportOutcome {
    /// The module does not follow this chain.
    Untracked,
    /// The proof does not show a head for this chain, or the read failed.
    HeadUnavailable,
    /// The submitter declared a head hash that is not the hash of the head
    /// the proof shows.
    HashMismatch,
    /// A better head was already imported, or a conflicting head holds the
    /// same anchor.
    Stale,
    /// The stored head already is this one; an idempotent resubmission.
    NoChange,
    /// The head advanced.
    Updated {
        /// Whether an old head was evicted from the ring position taken.
        prune_happened: bool,
    },
}

/// What one head of a submission does to the per-chain states: the outcome,
/// and the chain map after.
pub open spec fn spec_submit_para(
    tracked_ids: Set<int>,
    pallet_name: Seq<u8>,
    n: int,
    chains: Map<int, ParaState>,
    root: Seq<u8>,
    nodes: Seq<Seq<u8>>,
    at: int,
    para: u32,
    expected: Hash32,
) -> (ParaImportOutcome, Map<int, ParaState>) {
    if !tracked_ids.contains(para as int) {
        (ParaImportOutcome::Untracked, chains)
    } else {
        match trie_lookup(root, nodes, spec_head_storage_key(pallet_name, para)) {
            None => (ParaImportOutcome::HeadUnavailable, chains),
            Some(None) => (ParaImportOutcome::HeadUnavailable, chains),
            Some(Some(head)) => {
                if crate::hashing::blake2_256_of(head) != expected@ {
                    (ParaImportOutcome::HashMismatch, chains)
                } else {
                    let cur = if chains.contains_key(para as int) {
                        chains[para as int]
                    } else {
                        empty_para_state(n)
                    };
                    let (ur, ns) = spec_update(cur, n, at, expected@, head);
                    match ur {
                        Ok(UpdateOutcome::Updated { prune_happened }) => (
                            ParaImportOutcome::Updated { prune_happened },
                            chains.insert(para as int, ns),
                        ),
                        Ok(UpdateOutcome::NoChange) => (ParaImportOutcome::NoChange, chains),
                        Err(_) => (ParaImportOutcome::Stale, chains),
                    }
                }
            },
        }
    }
}

/// What a submission's heads, processed in order, do to the per-chain
/// states.
pub open spec fn spec_submit_heads(
    tracked_ids: Set<int>,
    pallet_name: Seq<u8>,
    n: int,
    chains: Map<int, ParaState>,
    root: Seq<u8>,
    nodes: Seq<Seq<u8>>,
    at: int,
    reqs: Seq<(u32, Hash32)>,
) -> (Seq<ParaImportOutcome>, Map<int, ParaState>)
    decreases reqs.len(),
{
    if reqs.len() == 0 {
        (Seq::empty(), chains)
    } else {
        let (outs, chains1) = spec_submit_heads(
            tracked_ids,
            pallet_name,
            n,
            chains,
            root,
            nodes,
            at,
            reqs.drop_last(),
        );
        let (out, chains2) = spec_submit_para(
            tracked_ids,
            pallet_name,
            n,
            chains1,
            root,
            nodes,
            at,
            reqs.last().0,
            reqs.last().1,
        );
        (outs.push(out), chains2)
    }
}

/// What a whole submission returns and does to the per-chain states: the
/// module must not be halted, the anchor must be the finality tracker's
/// best header under the cited number, and the proof must carry the anchor
/// state root; the heads are then processed in order.
pub open spec fn spec_submit(
    s: TrackerState,
    fin: Option<FinalizedHeader>,
    at_relay_block: (u32, Hash32),
    reqs: Seq<(u32, Hash32)>,
    nodes: Seq<Seq<u8>>,
) -> (Result<Seq<ParaImportOutcome>, RelayError>, Map<int, ParaState>) {
    if s.mode == OperatingMode::Halted {
        (Err(RelayError::State(StateError::Halted)), s.chains)
    } else {
        match fin {
            None => (Err(RelayError::State(StateError::UnknownAnchor)), s.chains),
            Some(h) => {
                if h.hash@ != at_relay_block.1@ {
                    (Err(RelayError::State(StateError::UnknownAnchor)), s.chains)
                } else if h.number != at_relay_block.0 {
                    (Err(RelayError::State(StateError::AnchorNumberMismatch)), s.chains)
                } else if !trie_root_known(h.state_root@, nodes) {
                    (Err(RelayError::Proof(ProofError::RootMismatch)), s.chains)
                } else {
                    let (outs, chains) = spec_submit_heads(
                        s.tracked_parachains,
                        s.pallet_name,
                        s.heads_to_keep,
                        s.chains,
                        h.state_root@,
                        nodes,
                        at_relay_block.0 as int,
                        reqs,
                    );
                    (Ok(outs), chains)
                }
            },
        }
    }
}

/// Extracting a state root from opaque head bytes: how to read a head is
/// chain-specific, so the caller supplies this capability.
pub trait StateRootDecoder {
    /// What the decoder extracts from the given head bytes.
    spec fn spec_decode(&self, head: Seq<u8>) -> Option<Seq<u8>>;

    /// Extract the state root from the given head bytes, if they carry one.
    fn decode_state_root(&self, head: &Vec<u8>) -> (r: Option<Hash32>)
        ensures
            (match r {
                Some(h) => Some(h@),
                None => None::<Seq<u8>>,
            }) == self.spec_decode(head@),
    ;
}

/// Why a storage proof over a tracked chain's own state could not be opened.
#[derive(Clone, Copy, PartialEq, Eq, Debug)]
pub enum ParseProofError {
    /// The cited head is not among the imported heads.
    UnknownParaHead,
    /// The head bytes carry no state root the decoder could extract.
    FailedToExtractStateRoot,
    /// The proof nodes do not combine to the head's state root.
    StorageRootMismatch,
}

/// Initial administrative state of the module.
pub struct GenesisConfig {
    /// Initial operating mode.
    pub operating_mode: OperatingMode,
    /// Initial owner, if any.
    pub owner: Option<u64>,
}

impl Default for GenesisConfig {
    /// Normal operation with no owner.
    fn default() -> (r: GenesisConfig)
        ensures
            r.operating_mode == OperatingMode::Normal,
            r.owner is None,
    {
        GenesisConfig { operating_mode: OperatingMode::Normal, owner: None }
    }
}

impl GenesisConfig {
    /// Build the module in this administrative state, following the given
    /// chains with the given ring capacity.
    pub fn build(
        self,
        heads_to_keep: u32,
        paras_pallet_name: Vec<u8>,
        tracked_parachains: Vec<u32>,
    ) -> (r: SecondaryHeadTracker)
        requires
            heads_to_keep >= 1,
        ensures
            r.wf(),
            r.operating_mode == self.operating_mode,
            r.owner == self.owner,
            r.heads_to_keep == heads_to_keep,
            r.paras_pallet_name == paras_pallet_name,
            r.tracked_parachains == tracked_parachains,
            r@.chains =~= Map::<int, ParaState>::empty(),
    {
        SecondaryHeadTracker::new(
            self.operating_mode,
            self.owner,
            heads_to_keep,
            paras_pallet_name,
            tracked_parachains,
        )
    }
}

/// Per-chain head tracking anchored to finalized counterparty blocks.
pub struct SecondaryHeadTracker {
    /// Operating mode.
    pub operating_mode: OperatingMode,
    /// Module owner: may halt and resume operations.
    pub owner: Option<u64>,
    /// Ring capacity per chain.
    pub heads_to_keep: u32,
    /// Name of the counterparty pallet whose storage holds the heads.
    pub paras_pallet_name: Vec<u8>,
    /// Ids of the chains this module tracks; heads of other chains are
    /// ignored.
    pub tracked_parachains: Vec<u32>,
    /// Head history per chain.
    pub chains: Vec<(u32, ParaTracker)>,
}

impl View for SecondaryHeadTracker {
    type V = TrackerState;

    open spec fn view(&self) -> TrackerState {
        TrackerState {
            mode: self.operating_mode,
            owner: self.owner,
            heads_to_keep: self.heads_to_keep as int,
            pallet_name: self.paras_pallet_name@,
            tracked_parachains: Set::new(
                |k: int| exists|i: int| 0 <= i < self.tracked_parachains@.len() && (#[trigger] self.tracked_parachains@[i])
                    as int == k,
            ),
            chains: chains_view(self.chains@),
        }
    }
}

impl SecondaryHeadTracker {
    /// Structural soundness: a positive ring capacity, unique chain
    /// entries, each well-formed under that capacity.
    pub open spec fn wf(self) -> bool {
        &&& self.heads_to_keep >= 1
        &&& chains_unique(self.chains@)
        &&& forall|i: int|
            0 <= i < self.chains@.len() ==> (#[trigger] self.chains@[i]).1.wf(
                self.heads_to_keep as int,
            )
    }

    /// A module tracking the given chains with the given ring capacity, in
    /// the given administrative state.
    pub fn new(
        operating_mode: OperatingMode,
        owner: Option<u64>,
        heads_to_keep: u32,
        paras_pallet_name: Vec<u8>,
        tracked_parachains: Vec<u32>,
    ) -> (r: SecondaryHeadTracker)
        requires
            heads_to_keep >= 1,
        ensures
            r.wf(),
            r.operating_mode == operating_mode,
            r.owner == owner,
            r.heads_to_keep == heads_to_keep,
            r.paras_pallet_name == paras_pallet_name,
            r.tracked_parachains == tracked_parachains,
            r@.chains =~= Map::<int, ParaState>::empty(),
    {
        let r = SecondaryHeadTracker {
            operating_mode,
            owner,
            heads_to_keep,
            paras_pallet_name,
            tracked_parachains,
            chains: Vec::new(),
        };
        proof {
            assert(r@.chains =~= Map::<int, ParaState>::empty());
        }
        r
    }

    /// Whether the module currently rejects proof-consuming submissions.
    pub fn is_halted(&self) -> (r: bool)
        ensures
            r <==> self.operating_mode == OperatingMode::Halted,
    {
        match self.operating_mode {
            OperatingMode::Halted => true,
            OperatingMode::Normal => false,
        }
    }

    /// Whether the origin may manage this module: the root authority, or
    /// the signed owner.
    pub fn ensure_owner_or_root(&self, origin: &Origin) -> (r: Result<(), AdminError>)
        ensures
            r is Ok <==> (*origin == Origin::Root || (match (self.owner, *origin) {
                (Some(owner), Origin::Signed(s)) => owner == s,
                _ => false,
            })),
            r is Err ==> r == Err::<(), AdminError>(AdminError::BadOrigin),
    {
        match origin {
            Origin::Root => Ok(()),
            Origin::Signed(s) => {
                match &self.owner {
                    Some(owner) => {
                        if *owner == *s {
                            Ok(())
                        } else {
                            Err(AdminError::BadOrigin)
                        }
                    },
                    None => Err(AdminError::BadOrigin),
                }
            },
        }
    }

    /// Change the module owner. May only be called by root or the current
    /// owner; nothing else changes.
    pub fn set_owner(&mut self, origin: Origin, new_owner: Option<u64>) -> (r: Result<
        (),
        AdminError,
    >)
        ensures
            r is Ok ==> final(self).owner == new_owner,
            r is Err ==> final(self).owner == old(self).owner && r == Err::<(), AdminError>(
                AdminError::BadOrigin,
            ),
            r is Ok <==> (origin == Origin::Root || (match (old(self).owner, origin) {
                (Some(owner), Origin::Signed(s)) => owner == s,
                _ => false,
            })),
            final(self).operating_mode == old(self).operating_mode,
            final(self).heads_to_keep == old(self).heads_to_keep,
            final(self).paras_pallet_name == old(self).paras_pallet_name,
            final(self).tracked_parachains == old(self).tracked_parachains,
            final(self).chains == old(self).chains,
    {
        let check = self.ensure_owner_or_root(&origin);
        match check {
            Ok(()) => {
                self.owner = new_owner;
                Ok(())
            },
            Err(e) => Err(e),
        }
    }

    /// Halt or resume all module operations. May only be called by root or
    /// the current owner; nothing else changes.
    pub fn set_operating_mode(&mut self, origin: Origin, operating_mode: OperatingMode) -> (r:
        Result<(), AdminError>)
        ensures
            r is Ok ==> final(self).operating_mode == operating_mode,
            r is Err ==> final(self).operating_mode == old(self).operating_mode && r == Err::<
                (),
                AdminError,
            >(AdminError::BadOrigin),
            r is Ok <==> (origin == Origin::Root || (match (old(self).owner, origin) {
                (Some(owner), Origin::Signed(s)) => owner == s,
                _ => false,
            })),
            final(self).owner == old(self).owner,
            final(self).heads_to_keep == old(self).heads_to_keep,
            final(self).paras_pallet_name == old(self).paras_pallet_name,
            final(self).tracked_parachains == old(self).tracked_parachains,
            final(self).chains == old(self).chains,
    {
        let check = self.ensure_owner_or_root(&origin);
        match check {
            Ok(()) => {
                self.operating_mode = operating_mode;
                Ok(())
            },
            Err(e) => Err(e),
        }
    }

    /// Whether this module follows the given chain id.
    pub fn is_tracked(&self, para: u32) -> (r: bool)
        ensures
            r <==> self@.tracked_parachains.contains(para as int),
    {
        let mut i: usize = 0;
        while i < self.tracked_parachains.len()
            invariant
                i <= self.tracked_parachains@.len(),
                forall|j: int| 0 <= j < i ==> (#[trigger] self.tracked_parachains@[j]) != para,
            decreases self.tracked_parachains@.len() - i,
        {
            if self.tracked_parachains[i] == para {
                return true;
            }
            i = i + 1;
        }
        false
    }

    /// The position of the given chain's entry, if one exists.
    fn chain_index(&self, para: u32) -> (r: Option<usize>)
        requires
            chains_unique(self.chains@),
        ensures
            match r {
                Some(i) => i < self.chains@.len() && self.chains@[i as int].0 == para
                    && self@.chains.contains_key(para as int),
                None => !self@.chains.contains_key(para as int),
            },
    {
        let mut i: usize = 0;
        while i < self.chains.len()
            invariant
                i <= self.chains@.len(),
                forall|j: int| 0 <= j < i ==> (#[trigger] self.chains@[j]).0 != para,
            decreases self.chains@.len() - i,
        {
            if self.chains[i].0 == para {
                proof {
                    lemma_chains_at(self.chains@, i as int);
                }
                return Some(i);
            }
            i = i + 1;
        }
        None
    }

    /// Best imported head data of the given chain, if any.
    pub fn best_parachain_head(&self, parachain: u32) -> (r: Option<Vec<u8>>)
        requires
            self.wf(),
        ensures
            match r {
                Some(v) => self@.chains.contains_key(parachain as int) && (match self@.chains[
                    parachain as int].best {
                    Some(b) => self@.chains[parachain as int].heads.contains_key(b.head_hash)
                        && v@ == self@.chains[parachain as int].heads[b.head_hash],
                    None => false,
                }),
                None => !self@.chains.contains_key(parachain as int) || (match self@.chains[
                    parachain as int].best {
                    Some(b) => !self@.chains[parachain as int].heads.contains_key(b.head_hash),
                    None => true,
                }),
            },
    {
        match self.chain_index(parachain) {
            Some(i) => {
                proof {
                    lemma_chains_at(self.chains@, i as int);
                }
                let tracker = &self.chains[i].1;
                match &tracker.best {
                    Some(best) => {
                        let hash = best.head_hash;
                        crate::heads::lookup_imported_head(&tracker.imported_heads, &hash)
                    },
                    None => None,
                }
            },
            None => None,
        }
    }

    /// Submit proofs of one or several chain heads, all crafted at the same
    /// anchor block. The anchor must already be held by the finality
    /// tracker under the cited number, and the proof must carry the anchor
    /// state root; each head is then read from the proof and imported,
    /// and heads that are untracked, unreadable, misdeclared or stale are
    /// skipped without failing the submission.
    pub fn submit_parachain_heads(
        &mut self,
        finality: &FinalityHeadTracker,
        at_relay_block: (u32, Hash32),
        parachains: &Vec<(u32, Hash32)>,
        parachain_heads_proof: &Vec<Vec<u8>>,
    ) -> (r: Result<Vec<ParaImportOutcome>, RelayError>)
        requires
            old(self).wf(),
        ensures
            final(self).wf(),
            final(self).operating_mode == old(self).operating_mode,
            final(self).owner == old(self).owner,
            final(self).heads_to_keep == old(self).heads_to_keep,
            final(self).paras_pallet_name == old(self).paras_pallet_name,
            final(self).tracked_parachains == old(self).tracked_parachains,
            ({
                let (sr, chains) = spec_submit(
                    old(self)@,
                    finality.best,
                    at_relay_block,
                    parachains@,
                    parachain_heads_proof.deep_view(),
                );
                &&& final(self)@.chains == chains
                &&& (match sr {
                    Ok(outs) => r matches Ok(v) && v@ == outs,
                    Err(e) => r == Err::<Vec<ParaImportOutcome>, RelayError>(e),
                })
            }),
    {
        let ghost s0 = self@;
        if self.is_halted() {
            return Err(RelayError::State(StateError::Halted));
        }
        let relay_header = match finality.header_by_hash(&at_relay_block.1) {
            Some(h) => h,
            None => {
                return Err(RelayError::State(StateError::UnknownAnchor));
            },
        };
        if relay_header.number != at_relay_block.0 {
            return Err(RelayError::State(StateError::AnchorNumberMismatch));
        }
        let db = match ProofDb::build(&relay_header.state_root, parachain_heads_proof) {
            Ok(db) => db,
            Err(e) => {
                return Err(RelayError::Proof(e));
            },
        };
        let ghost root = relay_header.state_root@;
        let ghost nodes = parachain_heads_proof.deep_view();
        let ghost at = at_relay_block.0 as int;
        let mut outcomes: Vec<ParaImportOutcome> = Vec::new();
        let mut i: usize = 0;
        while i < parachains.len()
            invariant
                i <= parachains@.len(),
                outcomes@.len() == i,
                self.wf(),
                self.operating_mode == old(self).operating_mode,
                self.owner == old(self).owner,
                self.heads_to_keep == old(self).heads_to_keep,
                self.paras_pallet_name == old(self).paras_pallet_name,
                self.tracked_parachains == old(self).tracked_parachains,
                crate::storage_proof::proof_db_root(db) == root,
                crate::storage_proof::proof_db_nodes(db) == nodes,
                ({
                    let (outs, chains) = spec_submit_heads(
                        s0.tracked_parachains,
                        s0.pallet_name,
                        s0.heads_to_keep,
                        s0.chains,
                        root,
                        nodes,
                        at,
                        parachains@.subrange(0, i as int),
                    );
                    outs == outcomes@ && chains == chains_view(self.chains@)
                }),
            decreases parachains@.len() - i,
        {
            let ghost prefix = parachains@.subrange(0, i as int);
            let ghost chains_before = chains_view(self.chains@);
            let (para, expected_hash) = parachains[i];
            let outcome = self.import_one_head(&db, at_relay_block.0, para, &expected_hash);
            outcomes.push(outcome);
            proof {
                assert(parachains@.subrange(0, i + 1 as int).drop_last() =~= prefix);
                assert(parachains@.subrange(0, i + 1 as int).last() == (para, expected_hash));
            }
            i = i + 1;
        }
        proof {
            assert(parachains@.subrange(0, parachains@.len() as int) =~= parachains@);
        }
        Ok(outcomes)
    }

    /// Import one head read from an already-checked proof database; the
    /// per-head step of `submit_parachain_heads`.
    fn import_one_head(
        &mut self,
        db: &ProofDb,
        at_relay_block_number: u32,
        para: u32,
        expected_hash: &Hash32,
    ) -> (r: ParaImportOutcome)
        requires
            old(self).wf(),
        ensures
            final(self).wf(),
            final(self).operating_mode == old(self).operating_mode,
            final(self).owner == old(self).owner,
            final(self).heads_to_keep == old(self).heads_to_keep,
            final(self).paras_pallet_name == old(self).paras_pallet_name,
            final(self).tracked_parachains == old(self).tracked_parachains,
            ({
                let (out, chains) = spec_submit_para(
                    old(self)@.tracked_parachains,
                    old(self)@.pallet_name,
                    old(self)@.heads_to_keep,
                    old(self)@.chains,
                    crate::storage_proof::proof_db_root(*db),
                    crate::storage_proof::proof_db_nodes(*db),
                    at_relay_block_number as int,
                    para,
                    *expected_hash,
                );
                r == out && chains == chains_view(final(self).chains@)
            }),
    {
        let ghost root = crate::storage_proof::proof_db_root(*db);
        let ghost nodes = crate::storage_proof::proof_db_nodes(*db);
        if !self.is_tracked(para) {
            return ParaImportOutcome::Untracked;
        }
        let key = parachain_head_storage_key_at_source(&self.paras_pallet_name, para);
        let head = match db.read(&key) {
            Ok(Some(head)) => head,
            Ok(None) => {
                return ParaImportOutcome::HeadUnavailable;
            },
            Err(_) => {
                return ParaImportOutcome::HeadUnavailable;
            },
        };
        proof {
            assert(head.deep_view() =~= head@);
        }
        let actual_hash = blake2_256(&head);
        if !actual_hash.equals(expected_hash) {
            return ParaImportOutcome::HashMismatch;
        }
        let ghost old_cs = self.chains@;
        match self.chain_index(para) {
            Some(idx) => {
                proof {
                    lemma_chains_at(old_cs, idx as int);
                }
                let mut entry = self.chains.remove(idx);
                let updated = entry.1.update_parachain_head(
                    self.heads_to_keep,
                    at_relay_block_number,
                    &head,
                    expected_hash,
                );
                self.chains.insert(idx, entry);
                proof {
                    assert(self.chains@ =~= old_cs.update(idx as int, self.chains@[idx as int]));
                    lemma_chains_after_update(old_cs, self.chains@, idx as int);
                }
                match updated {
                    Ok(UpdateOutcome::Updated { prune_happened }) => ParaImportOutcome::Updated {
                        prune_happened,
                    },
                    Ok(UpdateOutcome::NoChange) => {
                        proof {
                            assert(chains_view(self.chains@) =~= chains_view(old_cs));
                        }
                        ParaImportOutcome::NoChange
                    },
                    Err(_) => {
                        proof {
                            assert(chains_view(self.chains@) =~= chains_view(old_cs));
                        }
                        ParaImportOutcome::Stale
                    },
                }
            },
            None => {
                let mut fresh = ParaTracker::new(self.heads_to_keep);
                let updated = fresh.update_parachain_head(
                    self.heads_to_keep,
                    at_relay_block_number,
                    &head,
                    expected_hash,
                );
                match updated {
                    Ok(UpdateOutcome::Updated { prune_happened }) => {
                        self.chains.push((para, fresh));
                        proof {
                            lemma_chains_after_push(old_cs, self.chains@, para);
                        }
                        ParaImportOutcome::Updated { prune_happened }
                    },
                    Ok(UpdateOutcome::NoChange) => {
                        proof {
                            assert(false);
                        }
                        ParaImportOutcome::NoChange
                    },
                    Err(_) => {
                        proof {
                            assert(false);
                        }
                        ParaImportOutcome::Stale
                    },
                }
            },
        }
    }

    /// Open a storage proof over a tracked chain's own state: the cited
    /// head must be imported here, the decoder must extract its state root,
    /// and the proof nodes must combine to that root. On success the caller
    /// reads the proven values from the returned database.
    pub fn parse_finalized_storage_proof<D: StateRootDecoder>(
        &self,
        parachain: u32,
        hash: &Hash32,
        storage_proof: &Vec<Vec<u8>>,
        decode_state_root: &D,
    ) -> (r: Result<ProofDb, ParseProofError>)
        requires
            self.wf(),
        ensures
            ({
                let known = self@.chains.contains_key(parachain as int) && self@.chains[
                    parachain as int].heads.contains_key(hash@);
                if !known {
                    r == Err::<ProofDb, ParseProofError>(ParseProofError::UnknownParaHead)
                } else {
                    let head = self@.chains[parachain as int].heads[hash@];
                    match decode_state_root.spec_decode(head) {
                        None => r == Err::<ProofDb, ParseProofError>(
                            ParseProofError::FailedToExtractStateRoot,
                        ),
                        Some(root) => {
                            if trie_root_known(root, storage_proof.deep_view()) {
                                r matches Ok(db)
                                    && crate::storage_proof::proof_db_root(db) == root
                                    && crate::storage_proof::proof_db_nodes(db)
                                    == storage_proof.deep_view()
                            } else {
                                r == Err::<ProofDb, ParseProofError>(
                                    ParseProofError::StorageRootMismatch,
                                )
                            }
                        },
                    }
                }
            }),
    {
        let head = match self.parachain_head(parachain, hash) {
            Some(head) => head,
            None => {
                return Err(ParseProofError::UnknownParaHead);
            },
        };
        let state_root = match decode_state_root.decode_state_root(&head) {
            Some(root) => root,
            None => {
                return Err(ParseProofError::FailedToExtractStateRoot);
            },
        };
        match ProofDb::build(&state_root, storage_proof) {
            Ok(db) => Ok(db),
            Err(_) => Err(ParseProofError::StorageRootMismatch),
        }
    }

    /// Imported head data of the given chain with the given hash, if any.
    pub fn parachain_head(&self, parachain: u32, hash: &Hash32) -> (r: Option<Vec<u8>>)
        requires
            self.wf(),
        ensures
            match r {
                Some(v) => self@.chains.contains_key(parachain as int) && self@.chains[
                    parachain as int].heads.contains_key(hash@) && v@ == self@.chains[
                    parachain as int].heads[hash@],
                None => !self@.chains.contains_key(parachain as int) || !self@.chains[
                    parachain as int].heads.contains_key(hash@),
            },
    {
        match self.chain_index(parachain) {
            Some(i) => {
                proof {
                    lemma_chains_at(self.chains@, i as int);
                }
                crate::heads::lookup_imported_head(&self.chains[i].1.imported_heads, hash)
            },
            None => None,
        }
    }
}

} // verus!
