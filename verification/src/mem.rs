//! The in-memory backend: the baseline that the other backends are measured
//! against. It keeps everything in volatile maps and cannot fail.

use std::convert::Infallible;
use vstd::prelude::*;
use crate::actor::{ActorId, ChangeId};
use crate::keyed::{copy_bytes, BlobMap, Key};
use crate::model::{
    batch_len, held_len, insert_all, lemma_batch_len_take, lemma_batch_step, lemma_remove_step,
    remove_all, Stored,
};
use crate::persister::{blob_view, change_views, id_views, peer_views, Persister};
use crate::sizes::{blob_len, lemma_total_insert, lemma_total_remove, total_len, visible, StoredSizes};

verus! {

/// A persister that keeps its state in memory.
///
/// It provides no durability and is meant for tests and as the reference for
/// what the other backends do.
#[derive(Debug)]
pub struct MemoryPersister {
    changes: BlobMap<ChangeId>,
    document: Option<Vec<u8>>,
    sync_states: BlobMap<Vec<u8>>,
    sizes: StoredSizes,
}

/// A copy of a blob that reads as present: `None` for an empty or absent one.
pub fn read_blob(stored: Option<&Vec<u8>>) -> (r: Option<Vec<u8>>)
    ensures
        blob_view(r) == visible(
            match stored {
                Some(b) => Some(b@),
                None => None,
            },
        ),
{
    match stored {
        Some(b) => {
            if b.len() == 0 {
                None
            } else {
                Some(copy_bytes(b))
            }
        },
        None => None,
    }
}

impl MemoryPersister {
    /// A persister that holds nothing.
    pub fn new() -> (p: Self)
        ensures
            p.wf(),
            p.stored() == Stored::<(Seq<u8>, u64), Seq<u8>>::empty(),
    {
        MemoryPersister {
            changes: BlobMap::new(),
            document: None,
            sync_states: BlobMap::new(),
            sizes: StoredSizes::default(),
        }
    }
}

impl MemoryPersister {
    /// Finitely many changes and sync states are stored, so that the sizes
    /// follow the rule of the model: a store adds the new length and takes
    /// off the length it replaces.
    pub proof fn lemma_stored_finite(&self)
        requires
            self.wf(),
        ensures
            self.stored().finite(),
    {
        self.changes.lemma_finite();
        self.sync_states.lemma_finite();
    }

    /// Whether the sizes allow to store `changes`: whether their lengths and
    /// the size of the stored changes are no more in sum than `usize` holds.
    pub fn can_insert(&self, changes: &Vec<(ActorId, u64, Vec<u8>)>) -> (b: bool)
        requires
            self.wf(),
        ensures
            b == (self.stored().changes_size() + batch_len(change_views(changes@)) <= usize::MAX),
    {
        let ghost batch = change_views(changes@);
        let mut room: usize = usize::MAX - self.sizes.changes;
        let mut i: usize = 0;
        proof {
            assert(batch.take(0) =~= Seq::empty());
        }
        while i < changes.len()
            invariant
                i <= changes.len(),
                batch == change_views(changes@),
                self.wf(),
                room == usize::MAX - total_len(self.changes@) - batch_len(batch.take(i as int)),
            decreases changes.len() - i,
        {
            proof {
                lemma_batch_step(self.changes@, batch, i as int);
                lemma_batch_len_take(batch, i + 1);
            }
            if changes[i].2.len() > room {
                return false;
            }
            room = room - changes[i].2.len();
            i = i + 1;
        }
        proof {
            assert(batch.take(changes.len() as int) =~= batch);
        }
        true
    }

    /// Whether the sizes allow to store a sync state of `len` bytes for
    /// `peer_id`, in the place of what the peer holds.
    pub fn can_set_sync_state(&self, peer_id: &[u8], len: usize) -> (b: bool)
        requires
            self.wf(),
        ensures
            b == (total_len(self.stored().sync_states.remove(peer_id@)) + len <= usize::MAX),
    {
        let key = slice_to_vec(peer_id);
        proof {
            self.sync_states.lemma_finite();
            if self.sync_states@.contains_key(key@) {
                lemma_total_remove(self.sync_states@, key@);
            } else {
                assert(self.sync_states@.remove(key@) =~= self.sync_states@);
            }
        }
        match self.sync_states.get(&key) {
            Some(held) => len <= usize::MAX - (self.sizes.sync_states - held.len()),
            None => len <= usize::MAX - self.sizes.sync_states,
        }
    }
}

impl Default for MemoryPersister {
    fn default() -> (p: Self)
        ensures
            p.wf(),
            p.stored() == Stored::<(Seq<u8>, u64), Seq<u8>>::empty(),
    {
        MemoryPersister::new()
    }
}

impl Persister for MemoryPersister {
    type Error = Infallible;

    closed spec fn wf(&self) -> bool {
        &&& self.changes.wf()
        &&& self.sync_states.wf()
        &&& self.sizes.changes == total_len(self.changes@)
        &&& self.sizes.document == blob_len(blob_view(self.document))
        &&& self.sizes.sync_states == total_len(self.sync_states@)
    }

    closed spec fn stored(&self) -> Stored<(Seq<u8>, u64), Seq<u8>> {
        Stored {
            changes: self.changes@,
            document: blob_view(self.document),
            sync_states: self.sync_states@,
        }
    }

    fn get_changes(&self) -> (r: Result<Vec<Vec<u8>>, Infallible>)
        ensures
            r is Ok,
    {
        Ok(self.changes.values())
    }

    fn insert_changes(&mut self, changes: Vec<(ActorId, u64, Vec<u8>)>) -> (r: Result<
        (),
        Infallible,
    >)
        ensures
            r is Ok,
    {
        let ghost start = self.changes@;
        let ghost all = changes@;
        let ghost batch = change_views(changes@);
        proof {
            assert(batch.take(0) =~= Seq::empty());
        }
        for item in it: changes
            invariant
                it.seq() == all,
                batch == change_views(all),
                self.wf(),
                self.document == old(self).document,
                self.sync_states == old(self).sync_states,
                start == old(self).changes@,
                self.changes@ == insert_all(start, batch.take(it.index() as int)),
                total_len(self.changes@) <= total_len(start) + batch_len(
                    batch.take(it.index() as int),
                ),
                total_len(start) + batch_len(batch) <= usize::MAX,
        {
            let ghost n = it.index() as int;
            let (actor, seq, blob) = item;
            let len: usize = blob.len();
            let id = ChangeId { actor, seq };
            proof {
                assert(batch[n] == (id@, blob@));
                lemma_batch_step(start, batch, n);
                lemma_batch_len_take(batch, n + 1);
                self.changes.lemma_finite();
                lemma_total_insert(self.changes@, id@, blob@);
            }
            let replaced = self.changes.insert(id, blob);
            match replaced {
                Some(b) => self.sizes.change_stored(Some(b.len()), len),
                None => self.sizes.change_stored(None, len),
            }
        }
        proof {
            assert(batch.take(all.len() as int) =~= batch);
        }
        Ok(())
    }

    fn remove_changes(&mut self, changes: Vec<(&ActorId, u64)>) -> (r: Result<(), Infallible>)
        ensures
            r is Ok,
    {
        let ghost start = self.changes@;
        let ghost ids = id_views(changes@);
        proof {
            assert(ids.take(0) =~= Seq::empty());
        }
        let mut i: usize = 0;
        while i < changes.len()
            invariant
                i <= changes.len(),
                ids == id_views(changes@),
                self.wf(),
                self.document == old(self).document,
                self.sync_states == old(self).sync_states,
                start == old(self).changes@,
                self.changes@ == remove_all(start, ids.take(i as int)),
            decreases changes.len() - i,
        {
            let id = ChangeId { actor: changes[i].0.clone(), seq: changes[i].1 };
            proof {
                assert(ids[i as int] == id@);
                lemma_remove_step(start, ids, i as int);
                self.changes.lemma_finite();
                if self.changes@.contains_key(id@) {
                    lemma_total_remove(self.changes@, id@);
                } else {
                    assert(self.changes@.remove(id@) =~= self.changes@);
                }
            }
            match self.changes.remove(&id) {
                Some(b) => self.sizes.change_removed(b.len()),
                None => {},
            }
            i = i + 1;
        }
        proof {
            assert(ids.take(changes.len() as int) =~= ids);
        }
        Ok(())
    }

    fn get_document(&self) -> (r: Result<Option<Vec<u8>>, Infallible>)
        ensures
            r is Ok,
    {
        Ok(read_blob(self.document.as_ref()))
    }

    fn set_document(&mut self, data: Vec<u8>) -> (r: Result<(), Infallible>)
        ensures
            r is Ok,
    {
        self.sizes.document_stored(data.len());
        self.document = Some(data);
        Ok(())
    }

    fn get_sync_state(&self, peer_id: &[u8]) -> (r: Result<Option<Vec<u8>>, Infallible>)
        ensures
            r is Ok,
    {
        let key = slice_to_vec(peer_id);
        Ok(read_blob(self.sync_states.get(&key)))
    }

    fn set_sync_state(&mut self, peer_id: Vec<u8>, sync_state: Vec<u8>) -> (r: Result<
        (),
        Infallible,
    >)
        ensures
            r is Ok,
            final(self).stored().sync_states_size() == old(self).stored().sync_states_size()
                - held_len(old(self).stored().sync_states, peer_id@) + sync_state@.len(),
    {
        let len: usize = sync_state.len();
        proof {
            self.sync_states.lemma_finite();
            lemma_total_insert(self.sync_states@, peer_id@, sync_state@);
        }
        let replaced = self.sync_states.insert(peer_id, sync_state);
        match replaced {
            Some(b) => self.sizes.sync_state_stored(Some(b.len()), len),
            None => self.sizes.sync_state_stored(None, len),
        }
        Ok(())
    }

    fn remove_sync_states(&mut self, peer_ids: &[&[u8]]) -> (r: Result<(), Infallible>)
        ensures
            r is Ok,
    {
        let ghost start = self.sync_states@;
        let ghost peers = peer_views(peer_ids@);
        proof {
            assert(peers.take(0) =~= Seq::empty());
        }
        let mut i: usize = 0;
        while i < peer_ids.len()
            invariant
                i <= peer_ids.len(),
                peers == peer_views(peer_ids@),
                self.wf(),
                self.document == old(self).document,
                self.changes == old(self).changes,
                start == old(self).sync_states@,
                self.sync_states@ == remove_all(start, peers.take(i as int)),
            decreases peer_ids.len() - i,
        {
            let key = slice_to_vec(peer_ids[i]);
            proof {
                assert(peers[i as int] == key@);
                lemma_remove_step(start, peers, i as int);
                self.sync_states.lemma_finite();
                if self.sync_states@.contains_key(key@) {
                    lemma_total_remove(self.sync_states@, key@);
                } else {
                    assert(self.sync_states@.remove(key@) =~= self.sync_states@);
                }
            }
            match self.sync_states.remove(&key) {
                Some(b) => self.sizes.sync_state_removed(b.len()),
                None => {},
            }
            i = i + 1;
        }
        proof {
            assert(peers.take(peer_ids.len() as int) =~= peers);
        }
        Ok(())
    }

    fn get_peer_ids(&self) -> (r: Result<Vec<Vec<u8>>, Infallible>)
        ensures
            r is Ok,
    {
        Ok(copy_keys(self.sync_states.keys()))
    }

    fn sizes(&self) -> (s: StoredSizes) {
        self.sizes
    }

    fn flush(&mut self) -> (r: Result<usize, Infallible>)
        ensures
            r == Ok::<usize, Infallible>(0),
    {
        Ok(0)
    }
}

/// The bytes of a slice as a vector.
pub fn slice_to_vec(data: &[u8]) -> (out: Vec<u8>)
    ensures
        out@ == data@,
{
    let mut out: Vec<u8> = Vec::new();
    let mut i: usize = 0;
    while i < data.len()
        invariant
            i <= data.len(),
            out@ == data@.take(i as int),
        decreases data.len() - i,
    {
        out.push(data[i]);
        i = i + 1;
        assert(out@ =~= data@.take(i as int));
    }
    assert(data@.take(data.len() as int) =~= data@);
    out
}

/// Copies of the keys of a list, in order.
pub fn copy_keys<K: Key>(keys: &Vec<K>) -> (out: Vec<K>)
    ensures
        crate::keyed::views(out@) == crate::keyed::views(keys@),
{
    let mut out: Vec<K> = Vec::new();
    let mut i: usize = 0;
    while i < keys.len()
        invariant
            i <= keys.len(),
            out@.len() == i,
            forall|j: int| 0 <= j < i ==> out@[j]@ == keys@[j]@,
        decreases keys.len() - i,
    {
        out.push(keys[i].duplicate());
        i = i + 1;
    }
    assert(crate::keyed::views(out@) =~= crate::keyed::views(keys@));
    out
}

} // verus!
