//! What a persister stores, as a mathematical value, and what each
//! operation does to it. Every backend is described against this model.

use vstd::prelude::*;
use crate::sizes::{blob_len, total_len, visible};

verus! {

/// The map after the entries of `batch` were stored in order: a later entry
/// replaces an earlier one with the same key.
pub open spec fn insert_all<K>(m: Map<K, Seq<u8>>, batch: Seq<(K, Seq<u8>)>) -> Map<K, Seq<u8>>
    decreases batch.len(),
{
    if batch.len() == 0 {
        m
    } else {
        insert_all(m, batch.drop_last()).insert(batch.last().0, batch.last().1)
    }
}

/// The map after the keys of `keys` were removed; a key that is not stored
/// changes nothing.
pub open spec fn remove_all<K>(m: Map<K, Seq<u8>>, keys: Seq<K>) -> Map<K, Seq<u8>>
    decreases keys.len(),
{
    if keys.len() == 0 {
        m
    } else {
        remove_all(m, keys.drop_last()).remove(keys.last())
    }
}

/// Sum of the lengths of the blobs of a batch.
pub open spec fn batch_len<K>(batch: Seq<(K, Seq<u8>)>) -> nat
    decreases batch.len(),
{
    if batch.len() == 0 {
        0
    } else {
        batch_len(batch.drop_last()) + batch.last().1.len()
    }
}

/// The blob stored under `k`, if there is one.
pub open spec fn lookup<K>(m: Map<K, Seq<u8>>, k: K) -> Option<Seq<u8>> {
    if m.contains_key(k) {
        Some(m[k])
    } else {
        None
    }
}

/// A prefix of a batch is no longer than the batch.
pub proof fn lemma_batch_len_take<K>(batch: Seq<(K, Seq<u8>)>, n: int)
    requires
        0 <= n <= batch.len(),
    ensures
        batch_len(batch.take(n)) <= batch_len(batch),
    decreases batch.len(),
{
    if n == batch.len() {
        assert(batch.take(n) =~= batch);
    } else {
        assert(batch.take(n) =~= batch.drop_last().take(n));
        lemma_batch_len_take(batch.drop_last(), n);
    }
}

/// One more entry of a batch: what it does to the map and to the length.
pub proof fn lemma_batch_step<K>(m: Map<K, Seq<u8>>, batch: Seq<(K, Seq<u8>)>, n: int)
    requires
        0 <= n < batch.len(),
    ensures
        insert_all(m, batch.take(n + 1)) == insert_all(m, batch.take(n)).insert(
            batch[n].0,
            batch[n].1,
        ),
        batch_len(batch.take(n + 1)) == batch_len(batch.take(n)) + batch[n].1.len(),
{
    assert(batch.take(n + 1).drop_last() =~= batch.take(n));
}

/// One more key of a batch of removals.
pub proof fn lemma_remove_step<K>(m: Map<K, Seq<u8>>, keys: Seq<K>, n: int)
    requires
        0 <= n < keys.len(),
    ensures
        remove_all(m, keys.take(n + 1)) == remove_all(m, keys.take(n)).remove(keys[n]),
{
    assert(keys.take(n + 1).drop_last() =~= keys.take(n));
}

/// A batch of one entry stores that entry, and a batch of one key removes
/// that key.
pub proof fn lemma_batch_of_one<K>(m: Map<K, Seq<u8>>, k: K, v: Seq<u8>)
    ensures
        insert_all(m, seq![(k, v)]) == m.insert(k, v),
        remove_all(m, seq![k]) == m.remove(k),
        batch_len(seq![(k, v)]) == v.len(),
{
    reveal_with_fuel(insert_all, 2);
    reveal_with_fuel(remove_all, 2);
    reveal_with_fuel(batch_len, 2);
    assert(seq![(k, v)].drop_last() =~= Seq::<(K, Seq<u8>)>::empty());
    assert(seq![k].drop_last() =~= Seq::<K>::empty());
}

/// The length of the blob stored under `k`, zero where there is none: what
/// storing under `k` replaces and what removing `k` frees.
pub open spec fn held_len<K>(m: Map<K, Seq<u8>>, k: K) -> nat {
    if m.contains_key(k) {
        m[k].len()
    } else {
        0
    }
}

/// One operation on what is stored.
pub enum Op<C, P> {
    /// Store a change under an identity.
    InsertChange(C, Seq<u8>),
    /// Remove the change with an identity.
    RemoveChange(C),
    /// Put a document in the place of the stored one.
    SetDocument(Seq<u8>),
    /// Store a sync state for a peer.
    SetSyncState(P, Seq<u8>),
    /// Remove the sync state of a peer.
    RemoveSyncState(P),
}

/// The three sizes, as they are kept along a sequence of operations.
pub struct Tally {
    /// The size of the changes.
    pub changes: int,
    /// The size of the document.
    pub document: int,
    /// The size of the sync states.
    pub sync_states: int,
}

/// What a persister stores: changes by identity, the document snapshot and
/// sync states by peer. `C` is the type of the identities of changes and `P`
/// the type of the identifiers of peers.
#[verifier::ext_equal]
#[verifier::reject_recursive_types(C)]
#[verifier::reject_recursive_types(P)]
pub struct Stored<C, P> {
    /// The stored changes.
    pub changes: Map<C, Seq<u8>>,
    /// The stored document snapshot, `None` until one is set.
    pub document: Option<Seq<u8>>,
    /// The stored sync states.
    pub sync_states: Map<P, Seq<u8>>,
}

impl<C, P> Stored<C, P> {
    /// Nothing is stored.
    pub open spec fn empty() -> Self {
        Stored { changes: Map::empty(), document: None, sync_states: Map::empty() }
    }

    /// Finitely many changes and sync states are stored.
    pub open spec fn finite(self) -> bool {
        self.changes.dom().finite() && self.sync_states.dom().finite()
    }

    /// After the changes of `batch` were stored in order.
    pub open spec fn insert_changes(self, batch: Seq<(C, Seq<u8>)>) -> Self {
        Stored { changes: insert_all(self.changes, batch), ..self }
    }

    /// After the changes with the identities of `ids` were removed.
    pub open spec fn remove_changes(self, ids: Seq<C>) -> Self {
        Stored { changes: remove_all(self.changes, ids), ..self }
    }

    /// Every stored change.
    pub open spec fn get_changes(self) -> Map<C, Seq<u8>> {
        self.changes
    }

    /// After `data` was put in the place of the document.
    pub open spec fn set_document(self, data: Seq<u8>) -> Self {
        Stored { document: Some(data), ..self }
    }

    /// The document as a reader sees it: an empty one reads as absent.
    pub open spec fn get_document(self) -> Option<Seq<u8>> {
        visible(self.document)
    }

    /// After `state` was stored for `peer`.
    pub open spec fn set_sync_state(self, peer: P, state: Seq<u8>) -> Self {
        Stored { sync_states: self.sync_states.insert(peer, state), ..self }
    }

    /// After the sync states of `peers` were removed.
    pub open spec fn remove_sync_states(self, peers: Seq<P>) -> Self {
        Stored { sync_states: remove_all(self.sync_states, peers), ..self }
    }

    /// The sync state of `peer` as a reader sees it: an empty one reads as
    /// absent.
    pub open spec fn get_sync_state(self, peer: P) -> Option<Seq<u8>> {
        visible(lookup(self.sync_states, peer))
    }

    /// The peers with a stored sync state.
    pub open spec fn get_peer_ids(self) -> Set<P> {
        self.sync_states.dom()
    }

    /// After one operation.
    pub open spec fn apply(self, op: Op<C, P>) -> Self {
        match op {
            Op::InsertChange(c, blob) => Stored { changes: self.changes.insert(c, blob), ..self },
            Op::RemoveChange(c) => Stored { changes: self.changes.remove(c), ..self },
            Op::SetDocument(data) => Stored { document: Some(data), ..self },
            Op::SetSyncState(p, state) => Stored {
                sync_states: self.sync_states.insert(p, state),
                ..self
            },
            Op::RemoveSyncState(p) => Stored { sync_states: self.sync_states.remove(p), ..self },
        }
    }

    /// After a sequence of operations, in order.
    pub open spec fn run(self, ops: Seq<Op<C, P>>) -> Self
        decreases ops.len(),
    {
        if ops.len() == 0 {
            self
        } else {
            self.run(ops.drop_last()).apply(ops.last())
        }
    }

    /// The sizes of what is stored: the sums of the lengths of the stored
    /// values.
    pub open spec fn tally(self) -> Tally {
        Tally {
            changes: self.changes_size() as int,
            document: self.document_size() as int,
            sync_states: self.sync_states_size() as int,
        }
    }

    /// The sizes after one operation, computed from the sizes before it: a
    /// store adds the new length and takes off the length it replaces, a
    /// removal takes off the length it frees, and a document counts alone.
    pub open spec fn tally_step(self, t: Tally, op: Op<C, P>) -> Tally {
        match op {
            Op::InsertChange(c, blob) => Tally {
                changes: t.changes - held_len(self.changes, c) + blob.len(),
                ..t
            },
            Op::RemoveChange(c) => Tally { changes: t.changes - held_len(self.changes, c), ..t },
            Op::SetDocument(data) => Tally { document: data.len() as int, ..t },
            Op::SetSyncState(p, state) => Tally {
                sync_states: t.sync_states - held_len(self.sync_states, p) + state.len(),
                ..t
            },
            Op::RemoveSyncState(p) => Tally {
                sync_states: t.sync_states - held_len(self.sync_states, p),
                ..t
            },
        }
    }

    /// The sizes after a sequence of operations, kept step by step.
    pub open spec fn tally_run(self, t: Tally, ops: Seq<Op<C, P>>) -> Tally
        decreases ops.len(),
    {
        if ops.len() == 0 {
            t
        } else {
            self.run(ops.drop_last()).tally_step(self.tally_run(t, ops.drop_last()), ops.last())
        }
    }

    /// Sum of the lengths of the stored changes.
    pub open spec fn changes_size(self) -> nat {
        total_len(self.changes)
    }

    /// Length of the stored document, zero where there is none.
    pub open spec fn document_size(self) -> nat {
        blob_len(self.document)
    }

    /// Sum of the lengths of the stored sync states.
    pub open spec fn sync_states_size(self) -> nat {
        total_len(self.sync_states)
    }
}

} // verus!
