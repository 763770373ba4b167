//! The contract that every backend follows.
//!
//! What a persister holds is one value of the model, [`Stored`]; every
//! operation says how this value changes and what is read from it.

use vstd::prelude::*;
use crate::actor::ActorId;
use crate::keyed::{lists_values, views};
use crate::model::{batch_len, Stored};
use crate::sizes::{total_len, visible, StoredSizes};

verus! {

/// The bytes of an optional blob.
pub open spec fn blob_view(blob: Option<Vec<u8>>) -> Option<Seq<u8>> {
    match blob {
        Some(b) => Some(b@),
        None => None,
    }
}

/// A blob as a reader sees it: an empty one reads as absent.
pub fn present(blob: Vec<u8>) -> (r: Option<Vec<u8>>)
    ensures
        blob_view(r) == visible(Some(blob@)),
{
    if blob.len() == 0 {
        None
    } else {
        Some(blob)
    }
}

/// A batch of changes as identities and blobs.
pub open spec fn change_views(batch: Seq<(ActorId, u64, Vec<u8>)>) -> Seq<((Seq<u8>, u64), Seq<u8>)> {
    Seq::new(batch.len(), |i: int| ((batch[i].0@, batch[i].1), batch[i].2@))
}

/// A batch of change identities.
pub open spec fn id_views(batch: Seq<(&ActorId, u64)>) -> Seq<(Seq<u8>, u64)> {
    Seq::new(batch.len(), |i: int| (batch[i].0@, batch[i].1))
}

/// A batch of peer identifiers.
pub open spec fn peer_views(batch: Seq<&[u8]>) -> Seq<Seq<u8>> {
    Seq::new(batch.len(), |i: int| batch[i]@)
}

/// Durable storage for the three categories of state of a document.
///
/// `stored` is what the persister holds. An empty document or sync state is
/// stored like any other, and reads as absent.
pub trait Persister: Sized {
    /// What a failed operation reports.
    type Error;

    /// The invariant of the persister, under which the contracts below
    /// hold. A verified implementation states its invariant here. One that
    /// is not verified keeps this default, which never holds: verified code
    /// cannot call it and learns nothing from it.
    open spec fn wf(&self) -> bool {
        false
    }

    /// What the persister holds: changes by actor and sequence number, the
    /// document, and sync states by peer. A verified implementation says
    /// here what it holds; the default leaves it open.
    open spec fn stored(&self) -> Stored<(Seq<u8>, u64), Seq<u8>> {
        arbitrary()
    }

    /// Every stored change, once per identity, in no particular order.
    fn get_changes(&self) -> (r: Result<Vec<Vec<u8>>, Self::Error>)
        requires
            self.wf(),
        ensures
            r matches Ok(blobs) ==> lists_values(views(blobs@), self.stored().get_changes()),
    ;

    /// Stores the changes in order. A change whose identity is already
    /// stored replaces the stored one. On failure a prefix of the batch has
    /// been stored.
    fn insert_changes(&mut self, changes: Vec<(ActorId, u64, Vec<u8>)>) -> (r: Result<
        (),
        Self::Error,
    >)
        requires
            old(self).wf(),
            old(self).stored().changes_size() + batch_len(change_views(changes@)) <= usize::MAX,
        ensures
            final(self).wf(),
            r is Ok ==> final(self).stored() == old(self).stored().insert_changes(
                change_views(changes@),
            ),
            r is Err ==> exists|n: int|
                0 <= n <= changes@.len() && final(self).stored() == old(self).stored().insert_changes(
                    #[trigger] change_views(changes@).take(n),
                ),
    ;

    /// Removes the changes with the given identities. An identity that is
    /// not stored is passed over. On failure a prefix of the batch has been
    /// removed.
    fn remove_changes(&mut self, changes: Vec<(&ActorId, u64)>) -> (r: Result<(), Self::Error>)
        requires
            old(self).wf(),
        ensures
            final(self).wf(),
            r is Ok ==> final(self).stored() == old(self).stored().remove_changes(
                id_views(changes@),
            ),
            r is Err ==> exists|n: int|
                0 <= n <= changes@.len() && final(self).stored() == old(self).stored().remove_changes(
                    #[trigger] id_views(changes@).take(n),
                ),
    ;

    /// The stored document; `None` when none was set or the stored one is
    /// empty.
    fn get_document(&self) -> (r: Result<Option<Vec<u8>>, Self::Error>)
        requires
            self.wf(),
        ensures
            r matches Ok(doc) ==> blob_view(doc) == self.stored().get_document(),
    ;

    /// Puts `data` in the place of the stored document. On failure the
    /// changes and the sync states are as they were.
    fn set_document(&mut self, data: Vec<u8>) -> (r: Result<(), Self::Error>)
        requires
            old(self).wf(),
        ensures
            final(self).wf(),
            r is Ok ==> final(self).stored() == old(self).stored().set_document(data@),
            r is Err ==> final(self).stored().changes == old(self).stored().changes
                && final(self).stored().sync_states == old(self).stored().sync_states,
    ;

    /// The sync state stored for `peer_id`; `None` when there is none or the
    /// stored one is empty.
    fn get_sync_state(&self, peer_id: &[u8]) -> (r: Result<Option<Vec<u8>>, Self::Error>)
        requires
            self.wf(),
        ensures
            r matches Ok(state) ==> blob_view(state) == self.stored().get_sync_state(peer_id@),
    ;

    /// Stores `sync_state` for `peer_id`, in the place of what was stored for
    /// that peer. On failure either nothing has changed or the sync state is
    /// stored.
    fn set_sync_state(&mut self, peer_id: Vec<u8>, sync_state: Vec<u8>) -> (r: Result<
        (),
        Self::Error,
    >)
        requires
            old(self).wf(),
            total_len(old(self).stored().sync_states.remove(peer_id@)) + sync_state@.len()
                <= usize::MAX,
        ensures
            final(self).wf(),
            r is Ok ==> final(self).stored() == old(self).stored().set_sync_state(
                peer_id@,
                sync_state@,
            ),
            r is Err ==> final(self).stored() == old(self).stored() || final(self).stored() == old(self).stored().set_sync_state(peer_id@, sync_state@),
    ;

    /// Removes the sync states of the given peers. A peer without a sync
    /// state is passed over. On failure a prefix of the batch has been
    /// removed.
    fn remove_sync_states(&mut self, peer_ids: &[&[u8]]) -> (r: Result<(), Self::Error>)
        requires
            old(self).wf(),
        ensures
            final(self).wf(),
            r is Ok ==> final(self).stored() == old(self).stored().remove_sync_states(
                peer_views(peer_ids@),
            ),
            r is Err ==> exists|n: int|
                0 <= n <= peer_ids@.len() && final(self).stored() == old(self).stored().remove_sync_states(#[trigger] peer_views(peer_ids@).take(n)),
    ;

    /// Every peer with a stored sync state, once each, in no particular
    /// order.
    fn get_peer_ids(&self) -> (r: Result<Vec<Vec<u8>>, Self::Error>)
        requires
            self.wf(),
        ensures
            r matches Ok(peers) ==> views(peers@).no_duplicates() && views(peers@).to_set()
                == self.stored().get_peer_ids(),
    ;

    /// The byte totals of what is stored: each is the sum of the lengths of
    /// the stored values of its category.
    fn sizes(&self) -> (s: StoredSizes)
        requires
            self.wf(),
        ensures
            s.changes == self.stored().changes_size(),
            s.document == self.stored().document_size(),
            s.sync_states == self.stored().sync_states_size(),
    ;

    /// Forces buffered writes to stable storage and returns the number of
    /// bytes written. What is stored does not change.
    fn flush(&mut self) -> (r: Result<usize, Self::Error>)
        requires
            old(self).wf(),
        ensures
            final(self).wf(),
            final(self).stored() == old(self).stored(),
    ;
}

} // verus!
