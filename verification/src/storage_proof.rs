//! Storage-proof verification against a trusted state root.
//!
//! A proof is an ordered set of opaque trie-node byte strings. Verification
//! rebuilds a node database from them, checks the trusted root is among the
//! nodes, and resolves each requested key to an optional value. The trie
//! reconstruction itself is done by the bridged ecosystem's trie crate; this
//! module states what it returns and verifies everything around it.

use vstd::prelude::*;

use crate::errors::ProofError;
use crate::hashing::Hash32;

verus! {

/// Whether the trusted root is among the hashes of the given proof nodes.
pub uninterp spec fn trie_root_known(root: Seq<u8>, nodes: Seq<Seq<u8>>) -> bool;

/// What looking a key up in the trie rebuilt from the given nodes under the
/// given root yields: `None` when the lookup fails (nodes missing or
/// unparsable along the key's path), `Some(value)` when it succeeds, where
/// `value` is `None` for a key that has no value in the trie.
pub uninterp spec fn trie_lookup(
    root: Seq<u8>,
    nodes: Seq<Seq<u8>>,
    key: Seq<u8>,
) -> Option<Option<Seq<u8>>>;

/// The proof nodes a node database was built from.
pub uninterp spec fn proof_db_nodes(db: ProofDb) -> Seq<Seq<u8>>;

/// The trusted root a node database was built under.
pub uninterp spec fn proof_db_root(db: ProofDb) -> Seq<u8>;

/// An in-memory trie-node database built from one storage proof, together
/// with the trusted root it was checked against. The database is the trie
/// crate's own collection; Verus sees it only through `proof_db_nodes` and
/// `proof_db_root`.
#[verifier::external_body]
pub struct ProofDb {
    db: sp_trie::MemoryDB<sp_core::Blake2Hasher>,
    root: sp_core::H256,
}

impl ProofDb {
    /// Relies on sp_trie::StorageProof::new and StorageProof::into_memory_db
    /// to turn the proof nodes into a node database, and on
    /// hash_db::HashDB::contains to check that the database resolves the
    /// trusted root; all three depend on the nodes and the root alone.
    #[verifier::external_body]
    pub fn build(root: &Hash32, nodes: &Vec<Vec<u8>>) -> (r: Result<ProofDb, ProofError>)
        ensures
            r is Ok <==> trie_root_known(root@, nodes.deep_view()),
            r matches Ok(db) ==> proof_db_root(db) == root@ && proof_db_nodes(db)
                == nodes.deep_view(),
            r matches Err(e) ==> e == ProofError::RootMismatch,
    {
        let proof = sp_trie::StorageProof::new(nodes.iter().cloned());
        let db = proof.into_memory_db::<sp_core::Blake2Hasher>();
        let root_hash = sp_core::H256(root.0);
        if !sp_trie::HashDBT::contains(&db, &root_hash, sp_trie::EMPTY_PREFIX) {
            return Err(ProofError::RootMismatch);
        }
        Ok(ProofDb { db, root: root_hash })
    }

    /// Relies on sp_trie::read_trie_value over the Blake2b layout: the result
    /// depends on the root, the proof nodes and the key alone.
    #[verifier::external_body]
    pub fn read(&self, key: &Vec<u8>) -> (r: Result<Option<Vec<u8>>, ProofError>)
        ensures
            match trie_lookup(proof_db_root(*self), proof_db_nodes(*self), key@) {
                Some(value) => r matches Ok(v) && v.deep_view() == value,
                None => r matches Err(e) && e == ProofError::Malformed,
            },
    {
        let read = sp_trie::read_trie_value::<sp_trie::LayoutV1<sp_core::Blake2Hasher>, _>(
            &self.db,
            &self.root,
            key,
            None,
            None,
        );
        match read {
            Ok(value) => Ok(value),
            Err(_) => Err(ProofError::Malformed),
        }
    }
}

/// What verifying a batch of key reads against a root yields: the proof must
/// cover the root and every requested key; each key then resolves to its
/// optional value.
pub open spec fn spec_verify_reads(
    root: Seq<u8>,
    nodes: Seq<Seq<u8>>,
    keys: Seq<Seq<u8>>,
) -> Result<Seq<Option<Seq<u8>>>, ProofError> {
    if !trie_root_known(root, nodes) {
        Err(ProofError::RootMismatch)
    } else if exists|i: int|
        0 <= i < keys.len() && trie_lookup(root, nodes, keys[i]) is None {
        Err(ProofError::Malformed)
    } else {
        Ok(Seq::new(keys.len(), |i: int| trie_lookup(root, nodes, keys[i])->Some_0))
    }
}

/// Verify a batch of key reads against a trusted root: a pure function of the
/// root, the proof nodes and the keys. Each requested key resolves to its
/// optional value; a key that is absent from the trie yields `None` rather
/// than an error.
pub fn verify_reads(root: &Hash32, nodes: &Vec<Vec<u8>>, keys: &Vec<Vec<u8>>) -> (r: Result<
    Vec<Option<Vec<u8>>>,
    ProofError,
>)
    ensures
        match spec_verify_reads(root@, nodes.deep_view(), keys.deep_view()) {
            Ok(values) => r matches Ok(v) && v.deep_view() == values,
            Err(e) => r matches Err(got) && got == e,
        },
{
    let db = match ProofDb::build(root, nodes) {
        Ok(db) => db,
        Err(e) => {
            return Err(e);
        },
    };
    let mut values: Vec<Option<Vec<u8>>> = Vec::new();
    let mut i: usize = 0;
    while i < keys.len()
        invariant
            i <= keys.len(),
            proof_db_root(db) == root@,
            proof_db_nodes(db) == nodes.deep_view(),
            trie_root_known(root@, nodes.deep_view()),
            values@.len() == i,
            forall|j: int| 0 <= j < i ==> trie_lookup(
                root@,
                nodes.deep_view(),
                keys.deep_view()[j],
            ) is Some,
            forall|j: int| 0 <= j < i ==> #[trigger] values@[j].deep_view() == trie_lookup(
                root@,
                nodes.deep_view(),
                keys.deep_view()[j],
            )->Some_0,
        decreases keys.len() - i,
    {
        let key = &keys[i];
        assert(key@ == keys.deep_view()[i as int]);
        match db.read(key) {
            Ok(value) => {
                values.push(value);
            },
            Err(e) => {
                return Err(e);
            },
        }
        i = i + 1;
    }
    proof {
        let spec_r = spec_verify_reads(root@, nodes.deep_view(), keys.deep_view());
        assert(spec_r is Ok);
        assert(values.deep_view() =~= spec_r->Ok_0);
    }
    Ok(values)
}

} // verus!
