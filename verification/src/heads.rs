//! Tracking best heads of secondary chains, with bounded history.
//!
//! Every update is anchored to an already-finalized counterparty block: the
//! head bytes are read from a storage proof checked against that block's
//! state root. Per tracked chain the module keeps the best head record, a
//! fixed-capacity ring of recently imported head hashes, and the imported
//! head data keyed by hash; importing over an occupied ring position evicts
//! the head that held it, so the history never outgrows the ring.

use vstd::prelude::*;

use crate::errors::OrderingError;
use crate::hashing::Hash32;

verus! {

/// Best known head of one tracked chain, as stored.
#[derive(Clone, Copy, PartialEq, Eq, Debug)]
pub struct BestParaHead {
    /// Number of the anchor (relay) block this head was updated at.
    pub at_relay_block_number: u32,
    /// Hash of the head.
    pub head_hash: Hash32,
    /// Ring position the next imported head hash will take.
    pub next_imported_hash_position: u32,
}

/// The best-head record as the contracts speak of it.
pub ghost struct BestState {
    /// Anchor block number.
    pub anchor: int,
    /// Head hash bytes.
    pub head_hash: Seq<u8>,
    /// Next ring position.
    pub next_pos: int,
}

impl View for BestParaHead {
    type V = BestState;

    open spec fn view(&self) -> BestState {
        BestState {
            anchor: self.at_relay_block_number as int,
            head_hash: self.head_hash@,
            next_pos: self.next_imported_hash_position as int,
        }
    }
}

/// Whether no two entries of the imported-heads store share a hash.
pub open spec fn unique_keys(pairs: Seq<(Hash32, Vec<u8>)>) -> bool {
    forall|i: int, j: int|
        0 <= i < j < pairs.len() ==> (#[trigger] pairs[i]).0@ != (#[trigger] pairs[j]).0@
}

/// The imported-heads store as a map from head hash to head data.
pub open spec fn heads_view(pairs: Seq<(Hash32, Vec<u8>)>) -> Map<Seq<u8>, Seq<u8>> {
    Map::new(
        |k: Seq<u8>| exists|i: int| 0 <= i < pairs.len() && (#[trigger] pairs[i]).0@ == k,
        |k: Seq<u8>|
            {
                let i = choose|i: int| 0 <= i < pairs.len() && (#[trigger] pairs[i]).0@ == k;
                pairs[i].1@
            },
    )
}

proof fn lemma_heads_view_at(pairs: Seq<(Hash32, Vec<u8>)>, i: int)
    requires
        unique_keys(pairs),
        0 <= i < pairs.len(),
    ensures
        heads_view(pairs).contains_key(pairs[i].0@),
        heads_view(pairs)[pairs[i].0@] == pairs[i].1@,
{
    assert(heads_view(pairs).contains_key(pairs[i].0@));
    let j = choose|j: int| 0 <= j < pairs.len() && (#[trigger] pairs[j]).0@ == pairs[i].0@;
    assert(j == i);
}

/// Look a head hash up in the imported-heads store.
pub(crate) fn lookup_imported_head(pairs: &Vec<(Hash32, Vec<u8>)>, h: &Hash32) -> (r: Option<Vec<u8>>)
    requires
        unique_keys(pairs@),
    ensures
        match r {
            Some(v) => heads_view(pairs@).contains_key(h@) && v@ == heads_view(pairs@)[h@],
            None => !heads_view(pairs@).contains_key(h@),
        },
{
    let mut i: usize = 0;
    while i < pairs.len()
        invariant
            i <= pairs@.len(),
            unique_keys(pairs@),
            forall|j: int| 0 <= j < i ==> (#[trigger] pairs@[j]).0@ != h@,
        decreases pairs@.len() - i,
    {
        if pairs[i].0.equals(h) {
            proof {
                lemma_heads_view_at(pairs@, i as int);
            }
            return Some(pairs[i].1.clone());
        }
        i = i + 1;
    }
    None
}

/// Insert or overwrite one head in the imported-heads store.
fn heads_upsert(pairs: &mut Vec<(Hash32, Vec<u8>)>, h: Hash32, data: Vec<u8>)
    requires
        unique_keys(old(pairs)@),
        old(pairs)@.len() < usize::MAX,
    ensures
        unique_keys(final(pairs)@),
        heads_view(final(pairs)@) == heads_view(old(pairs)@).insert(h@, data@),
        final(pairs)@.len() == old(pairs)@.len() + (if heads_view(old(pairs)@).contains_key(h@) {
            0int
        } else {
            1int
        }),
{
    let ghost old_pairs = pairs@;
    let mut i: usize = 0;
    while i < pairs.len()
        invariant
            i <= pairs@.len(),
            pairs@ == old_pairs,
            unique_keys(pairs@),
            forall|j: int| 0 <= j < i ==> (#[trigger] pairs@[j]).0@ != h@,
        decreases pairs@.len() - i,
    {
        if pairs[i].0.equals(&h) {
            proof {
                lemma_heads_view_at(old_pairs, i as int);
            }
            pairs[i] = (h, data);
            proof {
                lemma_view_after_update(old_pairs, pairs@, i as int, h, data@);
            }
            return ;
        }
        i = i + 1;
    }
    pairs.push((h, data));
    proof {
        lemma_view_after_push(old_pairs, pairs@, h, data@);
    }
}

proof fn lemma_view_after_update(
    old_pairs: Seq<(Hash32, Vec<u8>)>,
    new_pairs: Seq<(Hash32, Vec<u8>)>,
    i: int,
    h: Hash32,
    data: Seq<u8>,
)
    requires
        unique_keys(old_pairs),
        0 <= i < old_pairs.len(),
        old_pairs[i].0@ == h@,
        new_pairs.len() == old_pairs.len(),
        new_pairs[i].0@ == h@,
        new_pairs[i].1@ == data,
        forall|j: int| 0 <= j < old_pairs.len() && j != i ==> new_pairs[j] == old_pairs[j],
    ensures
        unique_keys(new_pairs),
        heads_view(new_pairs) == heads_view(old_pairs).insert(h@, data),
{
    assert forall|p: int, q: int| 0 <= p < q < new_pairs.len() implies (#[trigger] new_pairs[p]).0@
        != (#[trigger] new_pairs[q]).0@ by {
        assert(old_pairs[p].0@ != old_pairs[q].0@);
        if p != i && q != i {
        } else if p == i {
            assert(new_pairs[q] == old_pairs[q]);
            assert(old_pairs[i].0@ != old_pairs[q].0@);
        } else {
            assert(new_pairs[p] == old_pairs[p]);
            assert(old_pairs[p].0@ != old_pairs[i].0@);
        }
    }
    let lhs = heads_view(new_pairs);
    let rhs = heads_view(old_pairs).insert(h@, data);
    assert forall|k: Seq<u8>| lhs.contains_key(k) <==> rhs.contains_key(k) by {
        if k == h@ {
            assert(new_pairs[i].0@ == k);
        } else {
            assert forall|j: int| 0 <= j < new_pairs.len() implies ((#[trigger] new_pairs[j]).0@
                == k <==> (#[trigger] old_pairs[j]).0@ == k) by {
                if j == i {
                    assert(new_pairs[j].0@ == h@);
                    assert(old_pairs[j].0@ == h@);
                }
            }
        }
    }
    assert forall|k: Seq<u8>| #[trigger] lhs.contains_key(k) implies lhs[k] == rhs[k] by {
        let j = choose|j: int| 0 <= j < new_pairs.len() && (#[trigger] new_pairs[j]).0@ == k;
        assert(unique_keys(new_pairs));
        if k == h@ {
            assert(j == i);
            assert(lhs[k] == data);
        } else {
            assert(j != i);
            assert(old_pairs[j].0@ == k);
            lemma_heads_view_at(old_pairs, j);
            assert(lhs[k] == new_pairs[j].1@);
            assert(new_pairs[j] == old_pairs[j]);
        }
    }
    assert(lhs =~= rhs);
}

proof fn lemma_view_after_push(
    old_pairs: Seq<(Hash32, Vec<u8>)>,
    new_pairs: Seq<(Hash32, Vec<u8>)>,
    h: Hash32,
    data: Seq<u8>,
)
    requires
        unique_keys(old_pairs),
        forall|j: int| 0 <= j < old_pairs.len() ==> (#[trigger] old_pairs[j]).0@ != h@,
        new_pairs.len() == old_pairs.len() + 1,
        new_pairs[old_pairs.len() as int].0@ == h@,
        new_pairs[old_pairs.len() as int].1@ == data,
        forall|j: int| 0 <= j < old_pairs.len() ==> #[trigger] new_pairs[j] == old_pairs[j],
    ensures
        unique_keys(new_pairs),
        heads_view(new_pairs) == heads_view(old_pairs).insert(h@, data),
        !heads_view(old_pairs).contains_key(h@),
{
    let n = old_pairs.len() as int;
    assert forall|p: int, q: int| 0 <= p < q < new_pairs.len() implies (#[trigger] new_pairs[p]).0@
        != (#[trigger] new_pairs[q]).0@ by {
        if q < n {
            assert(new_pairs[p] == old_pairs[p]);
            assert(new_pairs[q] == old_pairs[q]);
        } else {
            assert(new_pairs[q].0@ == h@);
            assert(new_pairs[p] == old_pairs[p]);
        }
    }
    let lhs = heads_view(new_pairs);
    let rhs = heads_view(old_pairs).insert(h@, data);
    assert forall|k: Seq<u8>| lhs.contains_key(k) <==> rhs.contains_key(k) by {
        if k == h@ {
            assert(new_pairs[n].0@ == k);
        } else {
            if lhs.contains_key(k) {
                let j = choose|j: int|
                    0 <= j < new_pairs.len() && (#[trigger] new_pairs[j]).0@ == k;
                assert(j != n);
                assert(new_pairs[j] == old_pairs[j]);
                assert(old_pairs[j].0@ == k);
            }
            if rhs.contains_key(k) {
                let j = choose|j: int|
                    0 <= j < old_pairs.len() && (#[trigger] old_pairs[j]).0@ == k;
                assert(new_pairs[j] == old_pairs[j]);
                assert(new_pairs[j].0@ == k);
            }
        }
    }
    assert forall|k: Seq<u8>| #[trigger] lhs.contains_key(k) implies lhs[k] == rhs[k] by {
        let j = choose|j: int| 0 <= j < new_pairs.len() && (#[trigger] new_pairs[j]).0@ == k;
        if k == h@ {
            assert(j == n);
            assert(lhs[k] == data);
        } else {
            assert(j != n);
            assert(old_pairs[j].0@ == k);
            lemma_heads_view_at(old_pairs, j);
            assert(lhs[k] == new_pairs[j].1@);
            assert(new_pairs[j] == old_pairs[j]);
        }
    }
    assert(lhs =~= rhs);
}

/// Remove one head from the imported-heads store, if it is there.
fn heads_remove(pairs: &mut Vec<(Hash32, Vec<u8>)>, h: &Hash32)
    requires
        unique_keys(old(pairs)@),
    ensures
        unique_keys(final(pairs)@),
        heads_view(final(pairs)@) == heads_view(old(pairs)@).remove(h@),
        final(pairs)@.len() == old(pairs)@.len() - (if heads_view(old(pairs)@).contains_key(h@) {
            1int
        } else {
            0int
        }),
{
    let ghost old_pairs = pairs@;
    let mut i: usize = 0;
    while i < pairs.len()
        invariant
            i <= pairs@.len(),
            pairs@ == old_pairs,
            unique_keys(pairs@),
            forall|j: int| 0 <= j < i ==> (#[trigger] pairs@[j]).0@ != h@,
        decreases pairs@.len() - i,
    {
        if pairs[i].0.equals(h) {
            proof {
                lemma_heads_view_at(old_pairs, i as int);
            }
            pairs.remove(i);
            proof {
                lemma_view_after_remove(old_pairs, pairs@, i as int, *h);
            }
            return ;
        }
        i = i + 1;
    }
    proof {
        assert(!heads_view(old_pairs).contains_key(h@));
        assert(heads_view(pairs@) =~= heads_view(old_pairs).remove(h@));
    }
}

proof fn lemma_view_after_remove(
    old_pairs: Seq<(Hash32, Vec<u8>)>,
    new_pairs: Seq<(Hash32, Vec<u8>)>,
    i: int,
    h: Hash32,
)
    requires
        unique_keys(old_pairs),
        0 <= i < old_pairs.len(),
        old_pairs[i].0@ == h@,
        new_pairs == old_pairs.remove(i),
    ensures
        unique_keys(new_pairs),
        heads_view(new_pairs) == heads_view(old_pairs).remove(h@),
{
    let n = old_pairs.len() as int;
    assert(new_pairs.len() == n - 1);
    assert forall|j: int| 0 <= j < new_pairs.len() implies #[trigger] new_pairs[j] == old_pairs[
        if j < i {
            j
        } else {
            j + 1
        }] by {}
    assert forall|p: int, q: int| 0 <= p < q < new_pairs.len() implies (#[trigger] new_pairs[p]).0@
        != (#[trigger] new_pairs[q]).0@ by {
        let p0 = if p < i { p } else { p + 1 };
        let q0 = if q < i { q } else { q + 1 };
        assert(new_pairs[p] == old_pairs[p0]);
        assert(new_pairs[q] == old_pairs[q0]);
        assert(old_pairs[p0].0@ != old_pairs[q0].0@);
    }
    let lhs = heads_view(new_pairs);
    let rhs = heads_view(old_pairs).remove(h@);
    assert forall|k: Seq<u8>| lhs.contains_key(k) <==> rhs.contains_key(k) by {
        if k == h@ {
            assert forall|j: int| 0 <= j < new_pairs.len() implies (#[trigger] new_pairs[j]).0@
                != h@ by {
                let j0 = if j < i { j } else { j + 1 };
                assert(new_pairs[j] == old_pairs[j0]);
                if j0 != i {
                    assert(old_pairs[j0].0@ != old_pairs[i].0@);
                }
            }
        } else {
            if exists|j: int| 0 <= j < old_pairs.len() && (#[trigger] old_pairs[j]).0@ == k {
                let j = choose|j: int|
                    0 <= j < old_pairs.len() && (#[trigger] old_pairs[j]).0@ == k;
                assert(j != i);
                let j1 = if j < i { j } else { j - 1 };
                assert(new_pairs[j1] == old_pairs[j]);
            }
            if exists|j: int| 0 <= j < new_pairs.len() && (#[trigger] new_pairs[j]).0@ == k {
                let j = choose|j: int|
                    0 <= j < new_pairs.len() && (#[trigger] new_pairs[j]).0@ == k;
                let j0 = if j < i { j } else { j + 1 };
                assert(old_pairs[j0].0@ == k);
            }
        }
    }
    assert forall|k: Seq<u8>| #[trigger] lhs.contains_key(k) implies lhs[k] == rhs[k] by {
        let j = choose|j: int| 0 <= j < new_pairs.len() && (#[trigger] new_pairs[j]).0@ == k;
        let j0 = if j < i { j } else { j + 1 };
        assert(new_pairs[j] == old_pairs[j0]);
        lemma_heads_view_at(old_pairs, j0);
        assert(rhs.contains_key(k));
        assert(rhs[k] == heads_view(old_pairs)[k]);
        assert(lhs[k] == new_pairs[j].1@);
    }
    assert(lhs =~= rhs);
}

/// How a head update request relates to the stored best head.
#[derive(Clone, Copy, PartialEq, Eq, Debug)]
pub enum UpdateValidity {
    /// The update advances the best head.
    Accept,
    /// The stored head already is the submitted one: an idempotent
    /// resubmission, accepted as a no-op.
    NoChange,
    /// A better update already landed, or a conflicting head was submitted
    /// at the stored anchor; the first writer at a given anchor wins.
    Stale,
}

/// What an accepted head update did.
#[derive(Clone, Copy, PartialEq, Eq, Debug)]
pub enum UpdateOutcome {
    /// The best head advanced.
    Updated {
        /// Whether an old head was evicted from the occupied ring position;
        /// pruning has a real cost that is only charged when it happened.
        prune_happened: bool,
    },
    /// An idempotent resubmission; nothing changed.
    NoChange,
}

/// Head history of one tracked chain: the best head record, the ring of
/// recently imported head hashes, and the imported head data keyed by hash.
pub struct ParaTracker {
    /// Best head, absent until the first accepted import.
    pub best: Option<BestParaHead>,
    /// Ring buffer of imported head hashes, ordered by insertion time.
    pub imported_hashes: Vec<Option<Hash32>>,
    /// Imported head data, keyed by head hash.
    pub imported_heads: Vec<(Hash32, Vec<u8>)>,
}

/// The head history as the contracts speak of it.
#[verifier::ext_equal]
pub ghost struct ParaState {
    /// Best head record.
    pub best: Option<BestState>,
    /// Ring of imported head hashes by position.
    pub ring: Seq<Option<Seq<u8>>>,
    /// Imported head data by head hash.
    pub heads: Map<Seq<u8>, Seq<u8>>,
}

/// The ring as a sequence of optional hash byte strings.
pub open spec fn ring_view(ring: Seq<Option<Hash32>>) -> Seq<Option<Seq<u8>>> {
    ring.map_values(
        |o: Option<Hash32>|
            match o {
                Some(h) => Some(h@),
                None => None,
            },
    )
}

/// The set of head hashes the ring currently holds.
pub open spec fn ring_hash_set(ring: Seq<Option<Seq<u8>>>) -> Set<Seq<u8>> {
    Set::new(|k: Seq<u8>| exists|j: int| 0 <= j < ring.len() && ring[j] == Some(k))
}

/// The ring holds at most as many distinct hashes as it has positions.
proof fn lemma_ring_set_card(ring: Seq<Option<Seq<u8>>>)
    ensures
        ring_hash_set(ring).finite(),
        ring_hash_set(ring).len() <= ring.len(),
    decreases ring.len(),
{
    if ring.len() == 0 {
        assert(ring_hash_set(ring) =~= Set::empty());
    } else {
        let t = ring.drop_last();
        lemma_ring_set_card(t);
        let s_t = ring_hash_set(t);
        let last = ring.last();
        match last {
            Some(k) => {
                assert forall|x: Seq<u8>|
                    ring_hash_set(ring).contains(x) <==> s_t.insert(k).contains(x) by {
                    if ring_hash_set(ring).contains(x) {
                        let j = choose|j: int| 0 <= j < ring.len() && ring[j] == Some(x);
                        if j < ring.len() - 1 {
                            assert(t[j] == Some(x));
                        } else {
                            assert(x == k);
                        }
                    }
                    if s_t.contains(x) {
                        let j = choose|j: int| 0 <= j < t.len() && t[j] == Some(x);
                        assert(ring[j] == Some(x));
                    }
                    if x == k {
                        assert(ring[ring.len() - 1] == Some(x));
                    }
                }
                assert(ring_hash_set(ring) =~= s_t.insert(k));
            },
            None => {
                assert forall|x: Seq<u8>| ring_hash_set(ring).contains(x) <==> s_t.contains(
                    x,
                ) by {
                    if ring_hash_set(ring).contains(x) {
                        let j = choose|j: int| 0 <= j < ring.len() && ring[j] == Some(x);
                        assert(j < ring.len() - 1);
                        assert(t[j] == Some(x));
                    }
                    if s_t.contains(x) {
                        let j = choose|j: int| 0 <= j < t.len() && t[j] == Some(x);
                        assert(ring[j] == Some(x));
                    }
                }
                assert(ring_hash_set(ring) =~= s_t);
            },
        }
    }
}

/// A ring with an empty position holds at most one hash fewer than it has
/// positions.
proof fn lemma_ring_set_none_slot(ring: Seq<Option<Seq<u8>>>, pos: int)
    requires
        0 <= pos < ring.len(),
        ring[pos] is None,
    ensures
        ring_hash_set(ring).finite(),
        ring_hash_set(ring).len() <= ring.len() - 1,
{
    let rem = ring.remove(pos);
    lemma_ring_set_card(rem);
    assert forall|x: Seq<u8>| ring_hash_set(ring).contains(x) implies ring_hash_set(rem).contains(
        x,
    ) by {
        let j = choose|j: int| 0 <= j < ring.len() && ring[j] == Some(x);
        assert(j != pos);
        let j2 = if j < pos { j } else { j - 1 };
        assert(rem[j2] == ring[j]);
    }
    vstd::set_lib::lemma_len_subset(ring_hash_set(ring), ring_hash_set(rem));
}

/// With unique keys, the imported-heads store has exactly one entry per key
/// of its map view.
proof fn lemma_unique_view_card(pairs: Seq<(Hash32, Vec<u8>)>)
    requires
        unique_keys(pairs),
    ensures
        heads_view(pairs).dom().finite(),
        heads_view(pairs).dom().len() == pairs.len(),
    decreases pairs.len(),
{
    if pairs.len() == 0 {
        assert(heads_view(pairs) =~= Map::empty());
    } else {
        let t = pairs.drop_last();
        let lastp = pairs.last();
        assert(unique_keys(t));
        assert forall|j: int| 0 <= j < t.len() implies (#[trigger] t[j]).0@ != lastp.0@ by {
            assert(pairs[j].0@ != pairs[pairs.len() - 1].0@);
        }
        lemma_unique_view_card(t);
        lemma_view_after_push(t, pairs, lastp.0, lastp.1@);
        assert(heads_view(pairs).dom() =~= heads_view(t).dom().insert(lastp.0@));
    }
}

impl View for ParaTracker {
    type V = ParaState;

    open spec fn view(&self) -> ParaState {
        ParaState {
            best: match self.best {
                Some(b) => Some(b@),
                None => None,
            },
            ring: ring_view(self.imported_hashes@),
            heads: heads_view(self.imported_heads@),
        }
    }
}

impl ParaTracker {
    /// Structural soundness under ring capacity `n`: the ring has exactly
    /// `n` positions, the next position is one of them, the imported heads
    /// have unique hashes, and every imported head's hash is held by some
    /// ring position — so the history never outgrows the ring.
    pub open spec fn wf(self, n: int) -> bool {
        &&& self.imported_hashes@.len() == n
        &&& (self.best matches Some(b) ==> b.next_imported_hash_position < n)
        &&& unique_keys(self.imported_heads@)
        &&& heads_view(self.imported_heads@).dom().subset_of(
            ring_hash_set(ring_view(self.imported_hashes@)),
        )
    }
}

/// With ring capacity `n`, at most `n` imported heads are stored at any
/// time.
pub proof fn lemma_bounded_history(t: ParaTracker, n: int)
    requires
        t.wf(n),
    ensures
        t.imported_heads@.len() <= n,
{
    lemma_unique_view_card(t.imported_heads@);
    lemma_ring_set_card(ring_view(t.imported_hashes@));
    vstd::set_lib::lemma_len_subset(
        heads_view(t.imported_heads@).dom(),
        ring_hash_set(ring_view(t.imported_hashes@)),
    );
}

impl ParaTracker {

    /// A tracker with no imported head and an empty ring of the given
    /// capacity.
    pub fn new(heads_to_keep: u32) -> (r: ParaTracker)
        ensures
            r.wf(heads_to_keep as int),
            r@ == empty_para_state(heads_to_keep as int),
    {
        let mut ring: Vec<Option<Hash32>> = Vec::new();
        let mut i: u32 = 0;
        while i < heads_to_keep
            invariant
                i <= heads_to_keep,
                ring@.len() == i,
                forall|j: int| 0 <= j < i ==> ring@[j] is None,
            decreases heads_to_keep - i,
        {
            ring.push(None);
            i = i + 1;
        }
        let r = ParaTracker { best: None, imported_hashes: ring, imported_heads: Vec::new() };
        proof {
            assert(r@.ring =~= empty_para_state(heads_to_keep as int).ring);
            assert(r@.heads =~= empty_para_state(heads_to_keep as int).heads);
            assert(r@ =~= empty_para_state(heads_to_keep as int));
        }
        r
    }
}

/// The state of a chain nothing was imported for yet.
pub open spec fn empty_para_state(n: int) -> ParaState {
    ParaState { best: None, ring: Seq::new(n as nat, |i: int| None), heads: Map::empty() }
}

/// Whether an update at the given anchor with the given head hash advances
/// the stored best head, repeats it, or is stale.
pub open spec fn spec_validate(stored: Option<BestState>, at: int, hash: Seq<u8>) -> UpdateValidity {
    match stored {
        None => UpdateValidity::Accept,
        Some(b) => {
            if at < b.anchor {
                UpdateValidity::Stale
            } else if hash == b.head_hash {
                UpdateValidity::NoChange
            } else if at == b.anchor {
                UpdateValidity::Stale
            } else {
                UpdateValidity::Accept
            }
        },
    }
}

/// What one head update does to the state of one chain under ring capacity
/// `n`: the outcome or rejection, and the state after.
pub open spec fn spec_update(s: ParaState, n: int, at: int, hash: Seq<u8>, data: Seq<u8>) -> (
    Result<UpdateOutcome, OrderingError>,
    ParaState,
) {
    match spec_validate(s.best, at, hash) {
        UpdateValidity::Stale => (Err(OrderingError::StaleAnchor), s),
        UpdateValidity::NoChange => (Ok(UpdateOutcome::NoChange), s),
        UpdateValidity::Accept => {
            let pos = match s.best {
                Some(b) => b.next_pos,
                None => 0,
            };
            let evicted = s.ring[pos];
            let pruned_heads = match evicted {
                Some(e) => s.heads.remove(e),
                None => s.heads,
            };
            (
                Ok(UpdateOutcome::Updated { prune_happened: evicted is Some }),
                ParaState {
                    best: Some(
                        BestState { anchor: at, head_hash: hash, next_pos: (pos + 1) % n },
                    ),
                    ring: s.ring.update(pos, Some(hash)),
                    heads: pruned_heads.insert(hash, data),
                },
            )
        },
    }
}

/// Check whether a head update may proceed, repeat the stored head, or must
/// be rejected; a stale update never mutates state, so a correct
/// resubmission can follow later.
pub fn validate_updated_parachain_head(
    maybe_stored_best_head: &Option<BestParaHead>,
    updated_at_relay_block_number: u32,
    updated_head_hash: &Hash32,
) -> (r: UpdateValidity)
    ensures
        r == spec_validate(
            match *maybe_stored_best_head {
                Some(b) => Some(b@),
                None => None,
            },
            updated_at_relay_block_number as int,
            updated_head_hash@,
        ),
{
    match maybe_stored_best_head {
        None => UpdateValidity::Accept,
        Some(b) => {
            if updated_at_relay_block_number < b.at_relay_block_number {
                UpdateValidity::Stale
            } else if b.head_hash.equals(updated_head_hash) {
                UpdateValidity::NoChange
            } else if updated_at_relay_block_number == b.at_relay_block_number {
                UpdateValidity::Stale
            } else {
                UpdateValidity::Accept
            }
        },
    }
}

impl ParaTracker {
    /// Try to update this chain's head: validate the anchor order, then
    /// write the head at the current ring position, evicting whatever head
    /// occupied it.
    pub fn update_parachain_head(
        &mut self,
        heads_to_keep: u32,
        updated_at_relay_block_number: u32,
        updated_head: &Vec<u8>,
        updated_head_hash: &Hash32,
    ) -> (r: Result<UpdateOutcome, OrderingError>)
        requires
            old(self).wf(heads_to_keep as int),
            heads_to_keep >= 1,
        ensures
            final(self).wf(heads_to_keep as int),
            ({
                let (sr, ss) = spec_update(
                    old(self)@,
                    heads_to_keep as int,
                    updated_at_relay_block_number as int,
                    updated_head_hash@,
                    updated_head@,
                );
                r == sr && final(self)@ == ss
            }),
    {
        let ghost old_state = self@;
        match validate_updated_parachain_head(
            &self.best,
            updated_at_relay_block_number,
            updated_head_hash,
        ) {
            UpdateValidity::Stale => Err(OrderingError::StaleAnchor),
            UpdateValidity::NoChange => Ok(UpdateOutcome::NoChange),
            UpdateValidity::Accept => {
                let pos: u32 = match &self.best {
                    Some(b) => b.next_imported_hash_position,
                    None => 0,
                };
                let evicted: Option<Hash32> = self.imported_hashes[pos as usize];
                match &evicted {
                    Some(e) => {
                        heads_remove(&mut self.imported_heads, e);
                    },
                    None => {
                        proof {
                            assert(old_state.ring[pos as int] is None);
                        }
                    },
                }
                proof {
                    let cur_dom = heads_view(self.imported_heads@).dom();
                    let old_dom = old_state.heads.dom();
                    let ringset = ring_hash_set(old_state.ring);
                    lemma_unique_view_card(self.imported_heads@);
                    lemma_unique_view_card(old(self).imported_heads@);
                    match evicted {
                        None => {
                            lemma_ring_set_none_slot(old_state.ring, pos as int);
                            vstd::set_lib::lemma_len_subset(cur_dom, ringset);
                        },
                        Some(e) => {
                            lemma_ring_set_card(old_state.ring);
                            assert(ringset.contains(e@)) by {
                                assert(old_state.ring[pos as int] == Some(e@));
                            }
                            if old_dom.contains(e@) {
                                vstd::set_lib::lemma_len_subset(old_dom, ringset);
                                assert(cur_dom =~= old_dom.remove(e@));
                            } else {
                                assert(cur_dom =~= old_dom);
                                old_dom.lemma_subset_not_in_lt(ringset, e@);
                            }
                        },
                    }
                    assert(self.imported_heads@.len() < heads_to_keep);
                }
                heads_upsert(&mut self.imported_heads, *updated_head_hash, updated_head.clone());
                self.imported_hashes[pos as usize] = Some(*updated_head_hash);
                self.best = Some(
                    BestParaHead {
                        at_relay_block_number: updated_at_relay_block_number,
                        head_hash: *updated_head_hash,
                        next_imported_hash_position: (pos + 1) % heads_to_keep,
                    },
                );
                proof {
                    let (sr, ss) = spec_update(
                        old_state,
                        heads_to_keep as int,
                        updated_at_relay_block_number as int,
                        updated_head_hash@,
                        updated_head@,
                    );
                    assert(self@.ring =~= ss.ring);
                    assert(self@.heads =~= ss.heads);
                    assert(self@ =~= ss);
                    assert forall|k: Seq<u8>| self@.heads.contains_key(k) implies ring_hash_set(
                        self@.ring,
                    ).contains(k) by {
                        if k == updated_head_hash@ {
                            assert(self@.ring[pos as int] == Some(k));
                        } else {
                            assert(old_state.heads.contains_key(k));
                            let j = choose|j: int|
                                0 <= j < old_state.ring.len() && old_state.ring[j] == Some(k);
                            if j == pos as int {
                                assert(old_state.ring[j] == Some(k));
                                assert(evicted matches Some(e) && e@ == k);
                                assert(!self@.heads.contains_key(k));
                            } else {
                                assert(self@.ring[j] == Some(k));
                            }
                        }
                    }
                }
                Ok(UpdateOutcome::Updated { prune_happened: evicted.is_some() })
            },
        }
    }
}

/// Idempotence: submitting the same anchor and head hash right after any
/// import of that pair changes nothing — the second call is accepted as a
/// no-op when the first was accepted, and the state stays exactly as the
/// first call left it.
pub proof fn lemma_import_idempotent(s: ParaState, n: int, at: int, hash: Seq<u8>, data: Seq<u8>)
    requires
        n >= 1,
    ensures
        ({
            let (r1, s1) = spec_update(s, n, at, hash, data);
            let (r2, s2) = spec_update(s1, n, at, hash, data);
            &&& s2 == s1
            &&& (r1 is Ok ==> r2 == Ok::<UpdateOutcome, OrderingError>(UpdateOutcome::NoChange))
        }),
{
}

/// What a sequence of head updates, applied in order, leaves behind.
pub open spec fn spec_run_updates(
    s: ParaState,
    n: int,
    reqs: Seq<(int, Seq<u8>, Seq<u8>)>,
) -> ParaState
    decreases reqs.len(),
{
    if reqs.len() == 0 {
        s
    } else {
        let s1 = spec_run_updates(s, n, reqs.drop_last());
        spec_update(s1, n, reqs.last().0, reqs.last().1, reqs.last().2).1
    }
}

/// The anchors of the accepted updates of a sequence, in submission order.
pub open spec fn spec_accepted_anchors(
    s: ParaState,
    n: int,
    reqs: Seq<(int, Seq<u8>, Seq<u8>)>,
) -> Seq<int>
    decreases reqs.len(),
{
    if reqs.len() == 0 {
        Seq::empty()
    } else {
        let pre = spec_accepted_anchors(s, n, reqs.drop_last());
        let s1 = spec_run_updates(s, n, reqs.drop_last());
        if spec_update(s1, n, reqs.last().0, reqs.last().1, reqs.last().2).0 matches Ok(
            UpdateOutcome::Updated { .. },
        ) {
            pre.push(reqs.last().0)
        } else {
            pre
        }
    }
}

/// Monotonicity: over any sequence of updates, the accepted anchors
/// strictly increase in submission order — in particular they are
/// non-decreasing — and the stored best anchor never moves backwards.
pub proof fn lemma_accepted_anchors_monotonic(
    s: ParaState,
    n: int,
    reqs: Seq<(int, Seq<u8>, Seq<u8>)>,
)
    requires
        n >= 1,
    ensures
        ({
            let acc = spec_accepted_anchors(s, n, reqs);
            let sf = spec_run_updates(s, n, reqs);
            &&& forall|i: int, j: int| 0 <= i < j < acc.len() ==> acc[i] < acc[j]
            &&& forall|i: int|
                0 <= i < acc.len() ==> (sf.best matches Some(b) && #[trigger] acc[i] <= b.anchor)
            &&& (s.best matches Some(b0) ==> (sf.best matches Some(bf) && b0.anchor <= bf.anchor))
        }),
    decreases reqs.len(),
{
    if reqs.len() > 0 {
        let pre = reqs.drop_last();
        lemma_accepted_anchors_monotonic(s, n, pre);
        let acc0 = spec_accepted_anchors(s, n, pre);
        let s1 = spec_run_updates(s, n, pre);
        let last = reqs.last();
        let (r, s2) = spec_update(s1, n, last.0, last.1, last.2);
        let acc = spec_accepted_anchors(s, n, reqs);
        if r matches Ok(UpdateOutcome::Updated { .. }) {
            assert(acc == acc0.push(last.0));
            assert(s2.best matches Some(b) && b.anchor == last.0);
            assert(match s1.best {
                Some(b1) => b1.anchor < last.0,
                None => true,
            });
            assert forall|i: int, j: int| 0 <= i < j < acc.len() implies acc[i] < acc[j] by {
                if j < acc0.len() {
                } else {
                    assert(acc[j] == last.0);
                    assert(acc[i] == acc0[i]);
                    assert(s1.best matches Some(b1) && acc0[i] <= b1.anchor);
                }
            }
        } else {
            assert(acc == acc0);
            assert(s2 == s1);
        }
    }
}

/// Structural soundness of a run's model under capacity `n`.
proof fn lemma_run_window(n: int, reqs: Seq<(int, Seq<u8>, Seq<u8>)>)
    requires
        n >= 1,
        forall|p: int, q: int|
            0 <= p < q < reqs.len() ==> (#[trigger] reqs[p]).0 < (#[trigger] reqs[q]).0,
        forall|p: int, q: int|
            0 <= p < q < reqs.len() ==> (#[trigger] reqs[p]).1 != (#[trigger] reqs[q]).1,
    ensures
        ({
            let i = reqs.len() as int;
            let s = spec_run_updates(empty_para_state(n), n, reqs);
            &&& s.ring.len() == n
            &&& (i == 0 ==> s == empty_para_state(n))
            &&& (i > 0 ==> s.best == Some(
                BestState {
                    anchor: reqs[i - 1].0,
                    head_hash: reqs[i - 1].1,
                    next_pos: i % n,
                },
            ))
            &&& (forall|j: int|
                0 <= j < n ==> s.ring[j] == (if j < i {
                    Some(reqs[i - 1 - ((i - 1 - j) % n)].1)
                } else {
                    None::<Seq<u8>>
                }))
            &&& (forall|t: int|
                0 <= t < i ==> (s.heads.contains_key((#[trigger] reqs[t]).1) <==> t >= i - n))
            &&& (forall|t: int|
                0 <= t < i && t >= i - n ==> s.heads[(#[trigger] reqs[t]).1] == reqs[t].2)
            &&& (forall|k: Seq<u8>|
                s.heads.contains_key(k) ==> exists|t: int|
                    0 <= t < i && t >= i - n && (#[trigger] reqs[t]).1 == k)
            &&& (i > 0 ==> spec_update(
                spec_run_updates(empty_para_state(n), n, reqs.drop_last()),
                n,
                reqs[i - 1].0,
                reqs[i - 1].1,
                reqs[i - 1].2,
            ).0 == Ok::<UpdateOutcome, OrderingError>(
                UpdateOutcome::Updated { prune_happened: i - 1 >= n },
            ))
        }),
    decreases reqs.len(),
{
    broadcast use vstd::arithmetic::div_mod::group_div_basics;

    let i = reqs.len() as int;
    if i == 0 {
        return ;
    }
    let pre = reqs.drop_last();
    lemma_run_window(n, pre);
    let s1 = spec_run_updates(empty_para_state(n), n, pre);
    let at = reqs[i - 1].0;
    let hash = reqs[i - 1].1;
    let data = reqs[i - 1].2;
    let (r, s) = spec_update(s1, n, at, hash, data);
    assert(spec_run_updates(empty_para_state(n), n, reqs) == s);

    // The update is accepted: the anchor strictly grew and the hash is new.
    if i - 1 > 0 {
        assert(s1.best == Some(
            BestState {
                anchor: reqs[i - 2].0,
                head_hash: reqs[i - 2].1,
                next_pos: (i - 1) % n,
            },
        ));
        assert(reqs[i - 2].0 < at);
        assert(reqs[i - 2].1 != hash);
    }
    assert(spec_validate(s1.best, at, hash) == UpdateValidity::Accept);

    let pos = if s1.best is Some {
        s1.best->Some_0.next_pos
    } else {
        0
    };
    assert(pos == (i - 1) % n) by {
        if i - 1 == 0 {
            vstd::arithmetic::div_mod::lemma_small_mod(0nat, n as nat);
        }
    }
    vstd::arithmetic::div_mod::lemma_mod_bound(i - 1, n);

    // The evicted slot: occupied exactly when the ring has wrapped, and
    // then by the head imported `n` steps ago.
    let evicted = s1.ring[pos];
    if i - 1 >= n {
        assert(pos < i - 1) by {
            vstd::arithmetic::div_mod::lemma_mod_bound(i - 1, n);
        }
        assert(s1.ring[pos] == Some(reqs[i - 2 - ((i - 2 - pos) % n)].1));
        assert((i - 2 - pos) % n == n - 1) by {
            let q = (i - 1) / n;
            vstd::arithmetic::div_mod::lemma_fundamental_div_mod(i - 1, n);
            assert(i - 1 == q * n + pos);
            assert(i - 2 - pos == q * n + -1) by {
                assert(q * n == n * q) by (nonlinear_arith);
            }
            assert((n * q + -1) % n == (-1) % n) by {
                vstd::arithmetic::div_mod::lemma_mod_multiples_vanish(q, -1, n);
            }
            assert((n * 1 + -1) % n == (-1) % n) by {
                vstd::arithmetic::div_mod::lemma_mod_multiples_vanish(1, -1, n);
            }
            assert(n * 1 + -1 == n - 1);
            vstd::arithmetic::div_mod::lemma_small_mod((n - 1) as nat, n as nat);
            assert(i - 2 - pos == n * q + -1);
        }
        assert(i - 2 - (n - 1) == i - 1 - n);
        assert(evicted == Some(reqs[i - 1 - n].1));
    } else {
        assert(pos == i - 1) by {
            vstd::arithmetic::div_mod::lemma_small_mod((i - 1) as nat, n as nat);
        }
        assert(s1.ring[pos] is None);
    }

    assert(r == Ok::<UpdateOutcome, OrderingError>(
        UpdateOutcome::Updated { prune_happened: i - 1 >= n },
    ));

    // New best record.
    assert(s.best == Some(BestState { anchor: at, head_hash: hash, next_pos: (pos + 1) % n }));
    assert((pos + 1) % n == i % n) by {
        let q = (i - 1) / n;
        vstd::arithmetic::div_mod::lemma_fundamental_div_mod(i - 1, n);
        assert(pos + 1 == i - q * n);
        assert(i - q * n == n * (-q) + i) by {
            assert(q * n == n * q) by (nonlinear_arith);
            assert(n * (-q) == -(n * q)) by (nonlinear_arith);
        }
        assert((n * (-q) + i) % n == i % n) by {
            vstd::arithmetic::div_mod::lemma_mod_multiples_vanish(-q, i, n);
        }
    }

    // Ring slots.
    assert forall|j: int| 0 <= j < n implies s.ring[j] == (if j < i {
        Some(reqs[i - 1 - ((i - 1 - j) % n)].1)
    } else {
        None::<Seq<u8>>
    }) by {
        if j == pos {
            assert(s.ring[j] == Some(hash));
            assert((i - 1 - pos) % n == 0) by {
                let q = (i - 1) / n;
                vstd::arithmetic::div_mod::lemma_fundamental_div_mod(i - 1, n);
                assert(i - 1 - pos == n * q + 0) by {
                    assert(q * n == n * q) by (nonlinear_arith);
                }
                assert((n * q + 0) % n == 0int % n) by {
                    vstd::arithmetic::div_mod::lemma_mod_multiples_vanish(q, 0, n);
                }
                vstd::arithmetic::div_mod::lemma_small_mod(0nat, n as nat);
            }
        } else {
            assert(s.ring[j] == s1.ring[j]);
            if j < i - 1 {
                // The last use of slot `j` is unchanged by this import.
                let d = (i - 1 - j) % n;
                assert(d != 0) by {
                    if d == 0 {
                        let q = (i - 1 - j) / n;
                        vstd::arithmetic::div_mod::lemma_fundamental_div_mod(i - 1 - j, n);
                        assert(i - 1 - j == q * n);
                        assert(i - 1 == q * n + j);
                        assert(j == (i - 1) % n) by {
                            assert(q * n == n * q) by (nonlinear_arith);
                            vstd::arithmetic::div_mod::lemma_mod_multiples_vanish(q, j, n);
                            vstd::arithmetic::div_mod::lemma_small_mod(j as nat, n as nat);
                        }
                    }
                }
                vstd::arithmetic::div_mod::lemma_mod_bound(i - 1 - j, n);
                assert((i - 2 - j) % n == d - 1) by {
                    let q = (i - 1 - j) / n;
                    vstd::arithmetic::div_mod::lemma_fundamental_div_mod(i - 1 - j, n);
                    assert(i - 2 - j == n * q + (d - 1)) by {
                        assert(q * n == n * q) by (nonlinear_arith);
                    }
                    assert((n * q + (d - 1)) % n == (d - 1) % n) by {
                        vstd::arithmetic::div_mod::lemma_mod_multiples_vanish(q, d - 1, n);
                    }
                    vstd::arithmetic::div_mod::lemma_small_mod((d - 1) as nat, n as nat);
                }
                assert(i - 2 - ((i - 2 - j) % n) == i - 1 - d);
                let idx = i - 1 - d;
                assert(0 <= idx < i - 1) by {
                    vstd::arithmetic::div_mod::lemma_mod_decreases(
                        (i - 1 - j) as nat,
                        n as nat,
                    );
                }
                assert(pre[idx] == reqs[idx]);
                assert(s1.ring[j] == Some(pre[i - 2 - ((i - 2 - j) % n)].1));
            } else {
                // Slot untouched and never used: `j` is not `pos`, and the
                // only slot first used by this import is `pos`.
                if j == i - 1 {
                    assert(pos == i - 1) by {
                        vstd::arithmetic::div_mod::lemma_small_mod((i - 1) as nat, n as nat);
                    }
                }
                assert(j > i - 1);
                assert(s1.ring[j] is None);
            }
        }
    }

    // Imported heads: the window slides forward by one.
    let removed = if i - 1 >= n {
        s1.heads.remove(reqs[i - 1 - n].1)
    } else {
        s1.heads
    };
    assert(s.heads == removed.insert(hash, data));
    assert forall|t: int| 0 <= t < i implies (s.heads.contains_key((#[trigger] reqs[t]).1) <==> t
        >= i - n) by {
        if t == i - 1 {
        } else {
            assert(pre[t] == reqs[t]);
            assert(reqs[t].1 != hash);
            if t >= i - n && t >= 0 {
                assert(t >= i - 1 - n);
                assert(s1.heads.contains_key(pre[t].1));
                if i - 1 >= n {
                    assert(pre[i - 1 - n] == reqs[i - 1 - n]);
                    assert(reqs[t].1 != reqs[i - 1 - n].1);
                }
            } else if t < i - n {
                if t == i - 1 - n {
                    assert(i - 1 >= n);
                    assert(!removed.contains_key(reqs[t].1));
                } else {
                    assert(!s1.heads.contains_key(pre[t].1));
                }
            }
        }
    }
    assert forall|t: int| 0 <= t < i && t >= i - n implies s.heads[(#[trigger] reqs[t]).1]
        == reqs[t].2 by {
        if t == i - 1 {
        } else {
            assert(pre[t] == reqs[t]);
            assert(reqs[t].1 != hash);
            assert(s1.heads.contains_key(pre[t].1));
            assert(s1.heads[pre[t].1] == pre[t].2);
            if i - 1 >= n {
                assert(pre[i - 1 - n] == reqs[i - 1 - n]);
                assert(reqs[t].1 != reqs[i - 1 - n].1);
            }
        }
    }
    assert forall|k: Seq<u8>| s.heads.contains_key(k) implies exists|t: int|
        0 <= t < i && t >= i - n && (#[trigger] reqs[t]).1 == k by {
        if k == hash {
            assert(reqs[i - 1].1 == k);
        } else {
            assert(s1.heads.contains_key(k));
            let t = choose|t: int|
                0 <= t < i - 1 && t >= i - 1 - n && (#[trigger] pre[t]).1 == k;
            assert(reqs[t].1 == k);
            assert(t != i - 1 - n || !(i - 1 >= n)) by {
                if i - 1 >= n && t == i - 1 - n {
                    assert(!removed.contains_key(k));
                }
            }
            assert(t >= i - n);
        }
    }
}

/// Bounded history: starting from nothing, importing more distinct heads
/// than the ring holds — at strictly increasing anchors — accepts every
/// import, keeps exactly as many heads as the ring has positions, and the
/// oldest imported head is gone while the newest are all present.
pub proof fn lemma_bounded_history_run(n: int, reqs: Seq<(int, Seq<u8>, Seq<u8>)>)
    requires
        n >= 1,
        reqs.len() > n,
        forall|p: int, q: int|
            0 <= p < q < reqs.len() ==> (#[trigger] reqs[p]).0 < (#[trigger] reqs[q]).0,
        forall|p: int, q: int|
            0 <= p < q < reqs.len() ==> (#[trigger] reqs[p]).1 != (#[trigger] reqs[q]).1,
    ensures
        ({
            let i = reqs.len() as int;
            let s = spec_run_updates(empty_para_state(n), n, reqs);
            &&& s.heads.dom().finite()
            &&& s.heads.dom().len() == n
            &&& !s.heads.contains_key(reqs[0].1)
            &&& forall|t: int|
                i - n <= t < i ==> s.heads.contains_key((#[trigger] reqs[t]).1)
                    && s.heads[reqs[t].1] == reqs[t].2
        }),
{
    let i = reqs.len() as int;
    let s = spec_run_updates(empty_para_state(n), n, reqs);
    lemma_run_window(n, reqs);
    let window = reqs.subrange(i - n, i).map_values(|r: (int, Seq<u8>, Seq<u8>)| r.1);
    assert(window.no_duplicates()) by {
        assert forall|p: int, q: int|
            0 <= p < window.len() && 0 <= q < window.len() && p != q implies window[p] != window[
            q] by {
            assert(window[p] == reqs[i - n + p].1);
            assert(window[q] == reqs[i - n + q].1);
        }
    }
    window.unique_seq_to_set();
    assert(s.heads.dom() =~= window.to_set()) by {
        assert forall|k: Seq<u8>| s.heads.dom().contains(k) <==> window.to_set().contains(k) by {
            if s.heads.contains_key(k) {
                let t = choose|t: int|
                    0 <= t < i && t >= i - n && (#[trigger] reqs[t]).1 == k;
                assert(window[t - (i - n)] == k);
                assert(window.contains(k));
            }
            if window.to_set().contains(k) {
                let p = choose|p: int| 0 <= p < window.len() && window[p] == k;
                assert(reqs[i - n + p].1 == k);
                assert(s.heads.contains_key(k));
            }
        }
    }
}

} // verus!
