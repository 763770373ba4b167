//! The browser-storage backend, apart from the calls to the storage itself.
//!
//! The host offers a small store from text keys to text values. The
//! persister keeps all changes in one map and all sync states in another,
//! both in memory, and after every mutation hands its caller the entry to
//! write: the whole map as JSON text, under the key it was given for it. The
//! document snapshot is a third entry. Changes are keyed by the hexadecimal
//! actor followed by the decimal sequence number, sync states by the base64
//! text of the peer identifier.

use vstd::prelude::*;
use crate::actor::ActorId;
use crate::encoding::{
    base64_data, base64_decode, base64_encode, base64_text, decimal_string, decimal_text, hex_text,
    lemma_decimal_injective, lemma_hex_text,
};
use crate::laws::{
    injective_on, law_encoded_backend_matches_run, named_changes, named_peers, rekeyed,
    rekeyed_ops,
};
use crate::json::{
    blob_json, decode_blob, decode_map, encode_blob, encode_map, entry_views, json_blob,
    map_json, map_of_text,
};
use crate::keyed::{lists_values, views, BlobMap};
use crate::mem::read_blob;
use crate::model::{
    batch_len, held_len, insert_all, lemma_batch_len_take, lemma_batch_step, lemma_remove_step,
    lookup, remove_all, Op, Stored,
};
use crate::persister::{blob_view, present};
use crate::sizes::{
    lemma_listing_total, lemma_total_insert, lemma_total_remove, total_len, total_of, visible,
    StoredSizes,
};

verus! {

/// `wasm_bindgen::JsValue`: the error value of the storage, handed on as it
/// is.
#[verifier::external_type_specification]
#[verifier::external_body]
pub struct ExJsValue(wasm_bindgen::JsValue);

/// Possible errors of the browser-storage backend.
#[derive(Debug)]
pub enum LocalStoragePersisterError {
    /// Text could not be turned into JSON, or JSON into a blob or a map.
    SerdeError(serde_json::Error),
    /// The storage reported an error.
    StorageError(wasm_bindgen::JsValue),
}

/// An entry that the caller is to write to the storage.
#[derive(Debug, PartialEq, Eq)]
pub struct StorageWrite {
    /// The key of the entry.
    pub key: String,
    /// The text to store under the key.
    pub value: String,
}

/// The key of a change: hexadecimal actor, then decimal sequence number.
pub open spec fn change_key(actor: Seq<u8>, seq: u64) -> Seq<char> {
    hex_text(actor) + decimal_text(seq as nat)
}

/// The key of a change, as a function of the identity of the change.
pub open spec fn change_key_of() -> spec_fn((Seq<u8>, u64)) -> Seq<char> {
    |id: (Seq<u8>, u64)| change_key(id.0, id.1)
}

/// Two changes of actors of the same length have the same key only if they
/// have the same actor and the same sequence number. Actors of different
/// lengths can share a key: the actor `ab12` with sequence number 3 and the
/// actor `ab` with sequence number 123 both have the key `ab123`.
pub proof fn lemma_change_key_injective(actor1: Seq<u8>, seq1: u64, actor2: Seq<u8>, seq2: u64)
    requires
        change_key(actor1, seq1) == change_key(actor2, seq2),
        actor1.len() == actor2.len(),
    ensures
        actor1 == actor2,
        seq1 == seq2,
{
    let h1 = hex_text(actor1);
    let h2 = hex_text(actor2);
    let k1 = change_key(actor1, seq1);
    let k2 = change_key(actor2, seq2);
    lemma_hex_text(actor1, actor2);
    lemma_hex_text(actor2, actor1);
    let l = h1.len() as int;
    assert(h1 =~= k1.take(l));
    assert(h2 =~= k2.take(l));
    assert(decimal_text(seq1 as nat) =~= k1.skip(l));
    assert(decimal_text(seq2 as nat) =~= k2.skip(l));
    lemma_decimal_injective(seq1 as nat, seq2 as nat);
}

/// The keys of the browser-storage backend keep apart all changes whose
/// actors have one and the same length.
pub proof fn law_change_keys_keep_apart(changes: Set<(Seq<u8>, u64)>, actor_len: nat)
    requires
        forall|id: (Seq<u8>, u64)| changes.contains(id) ==> (#[trigger] id.0).len() == actor_len,
    ensures
        injective_on(change_key_of(), changes),
{
    assert forall|x: (Seq<u8>, u64), y: (Seq<u8>, u64)|
        changes.contains(x) && changes.contains(y) && #[trigger] change_key_of()(x)
            == #[trigger] change_key_of()(y) implies x == y by {
        assert(x.0.len() == actor_len);
        assert(y.0.len() == actor_len);
        lemma_change_key_injective(x.0, x.1, y.0, y.1);
    }
}

/// The browser-storage backend does along every sequence of operations
/// what the baseline does and reports the same sizes, as long as no two
/// changes that are stored or named share a key, and no two peers.
/// `peer_key` is the key of a peer, its base64 text.
pub proof fn law_browser_backend_matches(
    s: Stored<(Seq<u8>, u64), Seq<u8>>,
    peer_key: spec_fn(Seq<u8>) -> Seq<char>,
    ops: Seq<Op<(Seq<u8>, u64), Seq<u8>>>,
)
    requires
        s.finite(),
        injective_on(change_key_of(), s.changes.dom() + named_changes(ops)),
        injective_on(peer_key, s.sync_states.dom() + named_peers(ops)),
    ensures
        rekeyed(s, change_key_of(), peer_key).run(rekeyed_ops(ops, change_key_of(), peer_key))
            == rekeyed(s.run(ops), change_key_of(), peer_key),
        rekeyed(s, change_key_of(), peer_key).tally_run(
            rekeyed(s, change_key_of(), peer_key).tally(),
            rekeyed_ops(ops, change_key_of(), peer_key),
        ) == s.run(ops).tally(),
        rekeyed(s.run(ops), change_key_of(), peer_key).tally() == s.run(ops).tally(),
{
    law_encoded_backend_matches_run(s, change_key_of(), peer_key, ops);
}

/// A batch of changes as keys and blobs.
pub open spec fn keyed_changes(batch: Seq<(ActorId, u64, Vec<u8>)>) -> Seq<(Seq<char>, Seq<u8>)> {
    Seq::new(batch.len(), |i: int| (change_key(batch[i].0@, batch[i].1), batch[i].2@))
}

/// A batch of change identities as keys.
pub open spec fn keyed_ids(batch: Seq<(&ActorId, u64)>) -> Seq<Seq<char>> {
    Seq::new(batch.len(), |i: int| change_key(batch[i].0@, batch[i].1))
}

/// A batch of peer identifiers as keys.
pub open spec fn keyed_peers(batch: Seq<&[u8]>) -> Seq<Seq<char>> {
    Seq::new(batch.len(), |i: int| base64_text(batch[i]@))
}

/// The peers that a list of keys stands for: each key that is base64 text,
/// decoded, in order.
pub open spec fn decoded_peers(keys: Seq<Seq<char>>) -> Seq<Seq<u8>>
    decreases keys.len(),
{
    if keys.len() == 0 {
        Seq::empty()
    } else {
        match base64_data(keys.last()) {
            Some(peer) => decoded_peers(keys.drop_last()).push(peer),
            None => decoded_peers(keys.drop_last()),
        }
    }
}

/// The keys of a list that are no base64 text, in order.
pub open spec fn foreign_keys(keys: Seq<Seq<char>>) -> Seq<Seq<char>>
    decreases keys.len(),
{
    if keys.len() == 0 {
        Seq::empty()
    } else {
        match base64_data(keys.last()) {
            Some(_) => foreign_keys(keys.drop_last()),
            None => foreign_keys(keys.drop_last()).push(keys.last()),
        }
    }
}

/// Every key stands for a peer or is foreign.
pub proof fn lemma_peers_and_foreign_keys(keys: Seq<Seq<char>>)
    ensures
        decoded_peers(keys).len() + foreign_keys(keys).len() == keys.len(),
    decreases keys.len(),
{
    if keys.len() > 0 {
        lemma_peers_and_foreign_keys(keys.drop_last());
    }
}

/// Keys that are the base64 text of peers stand for these peers.
pub proof fn lemma_decoded_peers(keys: Seq<Seq<char>>, peers: Seq<Seq<u8>>)
    requires
        keys.len() == peers.len(),
        forall|i: int| 0 <= i < keys.len() ==> base64_data(#[trigger] keys[i]) == Some(peers[i]),
    ensures
        decoded_peers(keys) == peers,
    decreases keys.len(),
{
    if keys.len() > 0 {
        lemma_decoded_peers(keys.drop_last(), peers.drop_last());
        assert(base64_data(keys[keys.len() - 1]) == Some(peers[keys.len() - 1]));
        assert(peers.drop_last().push(peers.last()) =~= peers);
    } else {
        assert(peers =~= Seq::<Seq<u8>>::empty());
    }
}

/// The map that a stored entry holds: the empty map where there is no
/// entry, `None` where the entry cannot be read.
pub open spec fn stored_map(stored: Option<String>) -> Option<Map<Seq<char>, Seq<u8>>> {
    match stored {
        None => Some(Map::empty()),
        Some(text) => map_of_text(text@),
    }
}

/// The blob that a stored entry holds: `Some(None)` where there is no
/// entry, `None` where the entry cannot be read.
pub open spec fn stored_blob(stored: Option<String>) -> Option<Option<Seq<u8>>> {
    match stored {
        None => Some(None),
        Some(text) => match json_blob(text@) {
            Some(blob) => Some(Some(blob)),
            None => None,
        },
    }
}

/// Make a key from the actor and the sequence number.
pub fn make_key(actor_id: &ActorId, seq: u64) -> (key: String)
    ensures
        key@ == change_key(actor_id@, seq),
{
    let mut key = actor_id.to_hex_string();
    key.append(decimal_string(seq).as_str());
    key
}

/// The map with the given entries, stored in order: of two entries with the
/// same key the later one stays.
pub fn map_of_entries(entries: Vec<(String, Vec<u8>)>) -> (m: BlobMap<String>)
    ensures
        m.wf(),
        m@ == insert_all(Map::empty(), entry_views(entries@)),
{
    let mut map: BlobMap<String> = BlobMap::new();
    let ghost all = entries@;
    let ghost batch = entry_views(entries@);
    proof {
        assert(batch.take(0) =~= Seq::empty());
    }
    for entry in it: entries
        invariant
            it.seq() == all,
            batch == entry_views(all),
            map.wf(),
            map@ == insert_all(Map::empty(), batch.take(it.index() as int)),
    {
        let ghost n = it.index() as int;
        let (key, blob) = entry;
        proof {
            assert(batch[n] == (key@, blob@));
            lemma_batch_step(Map::empty(), batch, n);
        }
        map.insert(key, blob);
    }
    proof {
        assert(batch.take(all.len() as int) =~= batch);
    }
    map
}

/// The map that a stored entry holds, see [`stored_map`].
fn load_map(stored: Option<String>) -> (r: Result<BlobMap<String>, serde_json::Error>)
    ensures
        match r {
            Ok(m) => m.wf() && stored_map(stored) == Some(m@),
            Err(_) => stored_map(stored) is None,
        },
{
    match stored {
        None => Ok(BlobMap::new()),
        Some(text) => {
            match decode_map(text.as_str()) {
                Err(e) => Err(e),
                Ok(entries) => Ok(map_of_entries(entries)),
            }
        },
    }
}

/// Whether `w` is the entry that holds the map `m` under `key`: its text is
/// the JSON of the map, and reads back as the map.
pub open spec fn holds_map(w: StorageWrite, key: Seq<char>, m: Map<Seq<char>, Seq<u8>>) -> bool {
    &&& w.key@ == key
    &&& w.value@ == map_json(m)
    &&& map_of_text(w.value@) == Some(m)
}

/// The entry that holds `map` under `key`.
fn map_write(map: &BlobMap<String>, key: &String) -> (r: Result<
    StorageWrite,
    LocalStoragePersisterError,
>)
    requires
        map.wf(),
    ensures
        r matches Ok(w) && holds_map(w, key@, map@),
{
    proof {
        map.lemma_listing();
    }
    match encode_map(map.keys(), map.blobs()) {
        Ok(value) => Ok(StorageWrite { key: key.clone(), value }),
        Err(e) => Err(LocalStoragePersisterError::SerdeError(e)),
    }
}

/// The browser-storage backend's state: both maps, the three keys and the
/// sizes.
#[derive(Debug)]
pub struct LocalStoragePersister {
    changes: BlobMap<String>,
    sync_states: BlobMap<String>,
    document_key: String,
    changes_key: String,
    sync_states_key: String,
    sizes: StoredSizes,
}

impl LocalStoragePersister {
    /// The invariant of the persister: the sizes of the two maps are exact.
    pub closed spec fn wf(&self) -> bool {
        &&& self.changes.wf()
        &&& self.sync_states.wf()
        &&& self.sizes.changes == total_len(self.changes@)
        &&& self.sizes.sync_states == total_len(self.sync_states@)
    }

    /// The changes, by key.
    pub closed spec fn changes(&self) -> Map<Seq<char>, Seq<u8>> {
        self.changes@
    }

    /// The sync states, by key.
    pub closed spec fn sync_states(&self) -> Map<Seq<char>, Seq<u8>> {
        self.sync_states@
    }

    /// The keys of the sync states, in the order in which the map holds
    /// them.
    pub closed spec fn sync_keys(&self) -> Seq<Seq<char>> {
        self.sync_states.key_seq()
    }

    /// The sizes that the persister reports.
    pub closed spec fn spec_sizes(&self) -> StoredSizes {
        self.sizes
    }

    /// The key under which the document is stored.
    pub closed spec fn document_key(&self) -> Seq<char> {
        self.document_key@
    }

    /// The key under which the changes are stored.
    pub closed spec fn changes_key(&self) -> Seq<char> {
        self.changes_key@
    }

    /// The key under which the sync states are stored.
    pub closed spec fn sync_states_key(&self) -> Seq<char> {
        self.sync_states_key@
    }

    /// Finitely many changes and sync states are stored, so that the sizes
    /// follow the rule of the model: a store adds the new length and takes
    /// off the length it replaces.
    pub proof fn lemma_stored_finite(&self)
        requires
            self.wf(),
        ensures
            self.changes().dom().finite(),
            self.sync_states().dom().finite(),
    {
        self.changes.lemma_finite();
        self.sync_states.lemma_finite();
    }

    /// The keys of the sync states list the map of sync states.
    pub proof fn lemma_sync_keys(&self)
        requires
            self.wf(),
        ensures
            self.sync_keys().no_duplicates(),
            self.sync_keys().to_set() == self.sync_states().dom(),
    {
        self.sync_states.lemma_listing();
    }

    /// The persister for what the storage holds under the three keys. Each
    /// of the first three arguments is what the storage answered when asked
    /// for the entry under the changes key, the sync states key and the
    /// document key. The first entry that could not be fetched or read
    /// decides the error. `Ok(None)` says that the stored blobs are longer in
    /// sum than `usize` can count.
    pub fn new(
        stored_changes: Result<Option<String>, wasm_bindgen::JsValue>,
        stored_sync_states: Result<Option<String>, wasm_bindgen::JsValue>,
        stored_document: Result<Option<String>, wasm_bindgen::JsValue>,
        document_key: String,
        changes_key: String,
        sync_states_key: String,
    ) -> (r: Result<Option<Self>, LocalStoragePersisterError>)
        ensures
            match stored_changes {
                Err(fault) => r matches Err(LocalStoragePersisterError::StorageError(f)) && f
                    == fault,
                Ok(c) => match stored_map(c) {
                    None => r matches Err(LocalStoragePersisterError::SerdeError(_)),
                    Some(changes) => match stored_sync_states {
                        Err(fault) => r matches Err(LocalStoragePersisterError::StorageError(f))
                            && f == fault,
                        Ok(s) => match stored_map(s) {
                            None => r matches Err(LocalStoragePersisterError::SerdeError(_)),
                            Some(sync_states) => match stored_document {
                                Err(fault) => r matches Err(
                                    LocalStoragePersisterError::StorageError(f),
                                ) && f == fault,
                                Ok(d) => match stored_blob(d) {
                                    None => r matches Err(
                                        LocalStoragePersisterError::SerdeError(_),
                                    ),
                                    Some(document) => match r {
                                        Ok(Some(p)) => {
                                            &&& p.wf()
                                            &&& p.changes() == changes
                                            &&& p.sync_states() == sync_states
                                            &&& p.spec_sizes().changes == total_len(changes)
                                            &&& p.spec_sizes().document == crate::sizes::blob_len(
                                                document,
                                            )
                                            &&& p.spec_sizes().sync_states == total_len(
                                                sync_states,
                                            )
                                            &&& p.document_key() == document_key@
                                            &&& p.changes_key() == changes_key@
                                            &&& p.sync_states_key() == sync_states_key@
                                        },
                                        Ok(None) => total_len(changes) > usize::MAX || total_len(
                                            sync_states,
                                        ) > usize::MAX,
                                        Err(_) => false,
                                    },
                                },
                            },
                        },
                    },
                },
            },
    {
        let changes = match stored_changes {
            Err(fault) => {
                return Err(LocalStoragePersisterError::StorageError(fault));
            },
            Ok(c) => match load_map(c) {
                Err(e) => {
                    return Err(LocalStoragePersisterError::SerdeError(e));
                },
                Ok(m) => m,
            },
        };
        let sync_states = match stored_sync_states {
            Err(fault) => {
                return Err(LocalStoragePersisterError::StorageError(fault));
            },
            Ok(s) => match load_map(s) {
                Err(e) => {
                    return Err(LocalStoragePersisterError::SerdeError(e));
                },
                Ok(m) => m,
            },
        };
        let document: Option<Vec<u8>> = match stored_document {
            Err(fault) => {
                return Err(LocalStoragePersisterError::StorageError(fault));
            },
            Ok(None) => None,
            Ok(Some(text)) => match decode_blob(text.as_str()) {
                Err(e) => {
                    return Err(LocalStoragePersisterError::SerdeError(e));
                },
                Ok(doc) => Some(doc),
            },
        };
        proof {
            changes.lemma_listing();
            sync_states.lemma_listing();
            lemma_listing_total(changes.key_seq(), changes.blob_seq(), changes@);
            lemma_listing_total(sync_states.key_seq(), sync_states.blob_seq(), sync_states@);
        }
        let changes_total = match total_of(changes.blobs()) {
            Some(n) => n,
            None => {
                return Ok(None);
            },
        };
        let sync_total = match total_of(sync_states.blobs()) {
            Some(n) => n,
            None => {
                return Ok(None);
            },
        };
        let document_len: usize = match &document {
            Some(d) => d.len(),
            None => 0,
        };
        Ok(
            Some(
                LocalStoragePersister {
                    changes,
                    sync_states,
                    document_key,
                    changes_key,
                    sync_states_key,
                    sizes: StoredSizes {
                        changes: changes_total,
                        document: document_len,
                        sync_states: sync_total,
                    },
                },
            ),
        )
    }

    /// Every stored change, once per key, in no particular order.
    pub fn get_changes(&self) -> (blobs: Vec<Vec<u8>>)
        requires
            self.wf(),
        ensures
            lists_values(views(blobs@), self.changes()),
    {
        self.changes.values()
    }

    /// Stores the changes in order and returns the entry to write: the map
    /// of changes under the changes key. The entry can always be made; its
    /// text reads back as the map.
    pub fn insert_changes(&mut self, changes: Vec<(ActorId, u64, Vec<u8>)>) -> (r: Result<
        StorageWrite,
        LocalStoragePersisterError,
    >)
        requires
            old(self).wf(),
            total_len(old(self).changes()) + batch_len(keyed_changes(changes@)) <= usize::MAX,
        ensures
            final(self).wf(),
            final(self).changes() == insert_all(old(self).changes(), keyed_changes(changes@)),
            final(self).sync_states() == old(self).sync_states(),
            final(self).spec_sizes().document == old(self).spec_sizes().document,
            final(self).same_keys(old(self)),
            r matches Ok(w) && holds_map(w, final(self).changes_key(), final(self).changes()),
    {
        let ghost start = self.changes@;
        let ghost all = changes@;
        let ghost batch = keyed_changes(changes@);
        proof {
            assert(batch.take(0) =~= Seq::empty());
        }
        for item in it: changes
            invariant
                it.seq() == all,
                batch == keyed_changes(all),
                self.wf(),
                self.sync_states == old(self).sync_states,
                self.sizes.document == old(self).sizes.document,
                self.same_keys(old(self)),
                start == old(self).changes@,
                self.changes@ == insert_all(start, batch.take(it.index() as int)),
                total_len(self.changes@) <= total_len(start) + batch_len(
                    batch.take(it.index() as int),
                ),
                total_len(start) + batch_len(batch) <= usize::MAX,
        {
            let ghost n = it.index() as int;
            let (actor, seq, blob) = item;
            let key = make_key(&actor, seq);
            let len: usize = blob.len();
            proof {
                assert(batch[n] == (key@, blob@));
                lemma_batch_step(start, batch, n);
                lemma_batch_len_take(batch, n + 1);
                self.changes.lemma_finite();
                lemma_total_insert(self.changes@, key@, blob@);
            }
            let replaced = self.changes.insert(key, blob);
            match replaced {
                Some(b) => self.sizes.change_stored(Some(b.len()), len),
                None => self.sizes.change_stored(None, len),
            }
        }
        proof {
            assert(batch.take(all.len() as int) =~= batch);
        }
        map_write(&self.changes, &self.changes_key)
    }

    /// Whether the sizes allow to store `changes`: whether their lengths and
    /// the size of the stored changes are no more in sum than `usize` holds.
    pub fn can_insert(&self, changes: &Vec<(ActorId, u64, Vec<u8>)>) -> (b: bool)
        requires
            self.wf(),
        ensures
            b == (total_len(self.changes()) + batch_len(keyed_changes(changes@)) <= usize::MAX),
    {
        let ghost batch = keyed_changes(changes@);
        let mut room: usize = usize::MAX - self.sizes.changes;
        let mut i: usize = 0;
        proof {
            assert(batch.take(0) =~= Seq::empty());
        }
        while i < changes.len()
            invariant
                i <= changes.len(),
                batch == keyed_changes(changes@),
                self.wf(),
                room == usize::MAX - total_len(self.changes()) - batch_len(batch.take(i as int)),
            decreases changes.len() - i,
        {
            proof {
                lemma_batch_step(self.changes(), batch, i as int);
                lemma_batch_len_take(batch, i + 1);
            }
            if changes[i].2.len() > room {
                return false;
            }
            room = room - changes[i].2.len();
            i = i + 1;
        }
        proof {
            assert(batch.take(changes.len() as int) =~= batch);
        }
        true
    }

    /// Whether the sizes allow to store a sync state of `len` bytes: whether
    /// `len` and the size of the stored sync states are no more in sum than
    /// `usize` holds.
    pub fn can_set_sync_state(&self, len: usize) -> (b: bool)
        requires
            self.wf(),
        ensures
            b == (total_len(self.sync_states()) + len <= usize::MAX),
    {
        len <= usize::MAX - self.sizes.sync_states
    }

    /// Removes the changes with the given identities and returns the entry
    /// to write, if any change was removed: the map of changes under the
    /// changes key.
    pub fn remove_changes(&mut self, changes: Vec<(&ActorId, u64)>) -> (r: Result<
        Option<StorageWrite>,
        LocalStoragePersisterError,
    >)
        requires
            old(self).wf(),
        ensures
            final(self).wf(),
            final(self).changes() == remove_all(old(self).changes(), keyed_ids(changes@)),
            final(self).sync_states() == old(self).sync_states(),
            final(self).spec_sizes().document == old(self).spec_sizes().document,
            final(self).same_keys(old(self)),
            match r {
                Ok(Some(w)) => final(self).changes() != old(self).changes() && holds_map(
                    w,
                    final(self).changes_key(),
                    final(self).changes(),
                ),
                Ok(None) => final(self).changes() == old(self).changes(),
                Err(_) => false,
            },
    {
        let ghost start = self.changes@;
        let ghost keys = keyed_ids(changes@);
        proof {
            assert(keys.take(0) =~= Seq::empty());
        }
        let mut some_removal = false;
        let mut i: usize = 0;
        while i < changes.len()
            invariant
                i <= changes.len(),
                keys == keyed_ids(changes@),
                self.wf(),
                self.sync_states == old(self).sync_states,
                self.sizes.document == old(self).sizes.document,
                self.same_keys(old(self)),
                start == old(self).changes@,
                self.changes@ == remove_all(start, keys.take(i as int)),
                self.changes@.submap_of(start),
                some_removal <==> self.changes@ != start,
            decreases changes.len() - i,
        {
            let key = make_key(changes[i].0, changes[i].1);
            let ghost before = self.changes@;
            proof {
                assert(keys[i as int] == key@);
                lemma_remove_step(start, keys, i as int);
                self.changes.lemma_finite();
                if before.contains_key(key@) {
                    lemma_total_remove(before, key@);
                    assert(start.contains_key(key@));
                    assert(!before.remove(key@).contains_key(key@));
                } else {
                    assert(before.remove(key@) =~= before);
                }
            }
            match self.changes.remove(&key) {
                Some(b) => {
                    self.sizes.change_removed(b.len());
                    some_removal = true;
                },
                None => {},
            }
            i = i + 1;
        }
        proof {
            assert(keys.take(changes.len() as int) =~= keys);
        }
        if some_removal {
            match map_write(&self.changes, &self.changes_key) {
                Ok(w) => Ok(Some(w)),
                Err(e) => Err(e),
            }
        } else {
            Ok(None)
        }
    }

    /// The document that the storage holds: `stored` is what the storage
    /// answered when asked for the entry under the document key. An empty
    /// document reads as absent.
    pub fn get_document(stored: Result<Option<String>, wasm_bindgen::JsValue>) -> (r: Result<
        Option<Vec<u8>>,
        LocalStoragePersisterError,
    >)
        ensures
            match stored {
                Err(fault) => r matches Err(LocalStoragePersisterError::StorageError(f)) && f
                    == fault,
                Ok(entry) => match stored_blob(entry) {
                    None => r matches Err(LocalStoragePersisterError::SerdeError(_)),
                    Some(blob) => r matches Ok(doc) && blob_view(doc) == visible(blob),
                },
            },
    {
        match stored {
            Err(fault) => Err(LocalStoragePersisterError::StorageError(fault)),
            Ok(None) => Ok(None),
            Ok(Some(text)) => match decode_blob(text.as_str()) {
                Err(e) => Err(LocalStoragePersisterError::SerdeError(e)),
                Ok(doc) => Ok(present(doc)),
            },
        }
    }

    /// Accounts for `data` as the new document and returns the entry to
    /// write: the document as JSON text under the document key.
    pub fn set_document(&mut self, data: Vec<u8>) -> (r: Result<
        StorageWrite,
        LocalStoragePersisterError,
    >)
        requires
            old(self).wf(),
        ensures
            final(self).wf(),
            final(self).changes() == old(self).changes(),
            final(self).sync_states() == old(self).sync_states(),
            final(self).spec_sizes().document == data@.len(),
            final(self).same_keys(old(self)),
            r matches Ok(w) && w.key@ == final(self).document_key() && w.value@ == blob_json(
                data@,
            ) && json_blob(w.value@) == Some(data@),
    {
        self.sizes.document_stored(data.len());
        match encode_blob(&data) {
            Ok(value) => Ok(StorageWrite { key: self.document_key.clone(), value }),
            Err(e) => Err(LocalStoragePersisterError::SerdeError(e)),
        }
    }

    /// The sync state stored for `peer_id`; `None` when there is none or the
    /// stored one is empty.
    pub fn get_sync_state(&self, peer_id: &[u8]) -> (state: Option<Vec<u8>>)
        requires
            self.wf(),
            peer_id@.len() <= isize::MAX,
        ensures
            blob_view(state) == visible(lookup(self.sync_states(), base64_text(peer_id@))),
    {
        let key = base64_encode(peer_id);
        read_blob(self.sync_states.get(&key))
    }

    /// Stores `sync_state` for `peer_id` and returns the entry to write: the
    /// map of sync states under the sync states key.
    pub fn set_sync_state(&mut self, peer_id: Vec<u8>, sync_state: Vec<u8>) -> (r: Result<
        StorageWrite,
        LocalStoragePersisterError,
    >)
        requires
            old(self).wf(),
            peer_id@.len() <= isize::MAX,
            total_len(old(self).sync_states()) + sync_state@.len() <= usize::MAX,
        ensures
            final(self).wf(),
            final(self).sync_states() == old(self).sync_states().insert(
                base64_text(peer_id@),
                sync_state@,
            ),
            base64_data(base64_text(peer_id@)) == Some(peer_id@),
            total_len(final(self).sync_states()) == total_len(old(self).sync_states()) - held_len(
                old(self).sync_states(),
                base64_text(peer_id@),
            ) + sync_state@.len(),
            final(self).changes() == old(self).changes(),
            final(self).spec_sizes().document == old(self).spec_sizes().document,
            final(self).same_keys(old(self)),
            r matches Ok(w) && holds_map(
                w,
                final(self).sync_states_key(),
                final(self).sync_states(),
            ),
    {
        let len: usize = sync_state.len();
        let key = base64_encode(peer_id.as_slice());
        proof {
            self.sync_states.lemma_finite();
            lemma_total_insert(self.sync_states@, key@, sync_state@);
        }
        let replaced = self.sync_states.insert(key, sync_state);
        match replaced {
            Some(b) => self.sizes.sync_state_stored(Some(b.len()), len),
            None => self.sizes.sync_state_stored(None, len),
        }
        map_write(&self.sync_states, &self.sync_states_key)
    }

    /// Removes the sync states of the given peers and returns the entry to
    /// write: the map of sync states under the sync states key.
    pub fn remove_sync_states(&mut self, peer_ids: &[&[u8]]) -> (r: Result<
        StorageWrite,
        LocalStoragePersisterError,
    >)
        requires
            old(self).wf(),
            forall|i: int| 0 <= i < peer_ids@.len() ==> (#[trigger] peer_ids@[i])@.len() <= isize::MAX,
        ensures
            final(self).wf(),
            final(self).sync_states() == remove_all(
                old(self).sync_states(),
                keyed_peers(peer_ids@),
            ),
            final(self).changes() == old(self).changes(),
            final(self).spec_sizes().document == old(self).spec_sizes().document,
            final(self).same_keys(old(self)),
            r matches Ok(w) && holds_map(
                w,
                final(self).sync_states_key(),
                final(self).sync_states(),
            ),
    {
        let ghost start = self.sync_states@;
        let ghost keys = keyed_peers(peer_ids@);
        proof {
            assert(keys.take(0) =~= Seq::empty());
        }
        let mut i: usize = 0;
        while i < peer_ids.len()
            invariant
                i <= peer_ids.len(),
                keys == keyed_peers(peer_ids@),
                forall|j: int|
                    0 <= j < peer_ids@.len() ==> (#[trigger] peer_ids@[j])@.len() <= isize::MAX,
                self.wf(),
                self.changes == old(self).changes,
                self.sizes.document == old(self).sizes.document,
                self.same_keys(old(self)),
                start == old(self).sync_states@,
                self.sync_states@ == remove_all(start, keys.take(i as int)),
            decreases peer_ids.len() - i,
        {
            let key = base64_encode(peer_ids[i]);
            let ghost before = self.sync_states@;
            proof {
                assert(keys[i as int] == key@);
                lemma_remove_step(start, keys, i as int);
                self.sync_states.lemma_finite();
                if before.contains_key(key@) {
                    lemma_total_remove(before, key@);
                } else {
                    assert(before.remove(key@) =~= before);
                }
            }
            match self.sync_states.remove(&key) {
                Some(b) => self.sizes.sync_state_removed(b.len()),
                None => {},
            }
            i = i + 1;
        }
        proof {
            assert(keys.take(peer_ids.len() as int) =~= keys);
        }
        map_write(&self.sync_states, &self.sync_states_key)
    }

    /// The keys of the map of sync states that are no base64 text, and so
    /// name no peer: [`LocalStoragePersister::get_peer_ids`] passes them
    /// over. The persister stores no such key itself; one can only come from
    /// the entry that the storage held at the start.
    pub fn foreign_peer_keys(&self) -> (foreign: Vec<String>)
        requires
            self.wf(),
        ensures
            views(foreign@) == foreign_keys(self.sync_keys()),
    {
        let keys = self.sync_states.keys();
        let ghost all = views(keys@);
        let mut foreign: Vec<String> = Vec::new();
        let mut i: usize = 0;
        proof {
            assert(all.take(0) =~= Seq::empty());
            assert(views(foreign@) =~= Seq::empty());
        }
        while i < keys.len()
            invariant
                i <= keys.len(),
                all == views(keys@),
                views(foreign@) == foreign_keys(all.take(i as int)),
            decreases keys.len() - i,
        {
            let ghost before = views(foreign@);
            proof {
                assert(all.take(i + 1).drop_last() =~= all.take(i as int));
                assert(all.take(i + 1).last() == keys@[i as int]@);
            }
            match base64_decode(keys[i].as_str()) {
                Ok(_) => {},
                Err(_) => {
                    foreign.push(keys[i].clone());
                    proof {
                        assert(views(foreign@) =~= before.push(keys@[i as int]@));
                    }
                },
            }
            i = i + 1;
        }
        proof {
            assert(all.take(keys.len() as int) =~= all);
        }
        foreign
    }

    /// The peers with a stored sync state: every key of the map of sync
    /// states that is base64 text, decoded. A key that is no base64 text
    /// names no peer and is passed over; [`LocalStoragePersister::foreign_peer_keys`]
    /// reports such keys.
    pub fn get_peer_ids(&self) -> (peers: Vec<Vec<u8>>)
        requires
            self.wf(),
        ensures
            views(peers@) == decoded_peers(self.sync_keys()),
    {
        let keys = self.sync_states.keys();
        let ghost all = views(keys@);
        let mut peers: Vec<Vec<u8>> = Vec::new();
        let mut i: usize = 0;
        proof {
            assert(all.take(0) =~= Seq::empty());
            assert(views(peers@) =~= Seq::empty());
        }
        while i < keys.len()
            invariant
                i <= keys.len(),
                all == views(keys@),
                views(peers@) == decoded_peers(all.take(i as int)),
            decreases keys.len() - i,
        {
            let ghost before = views(peers@);
            proof {
                assert(all.take(i + 1).drop_last() =~= all.take(i as int));
                assert(all.take(i + 1).last() == keys@[i as int]@);
            }
            match base64_decode(keys[i].as_str()) {
                Ok(peer) => {
                    peers.push(peer);
                    proof {
                        assert(views(peers@) =~= before.push(peer@));
                    }
                },
                Err(_) => {},
            }
            i = i + 1;
        }
        proof {
            assert(all.take(keys.len() as int) =~= all);
        }
        peers
    }

    /// Whether two persisters use the same three keys.
    pub open spec fn same_keys(&self, other: &Self) -> bool {
        &&& self.document_key() == other.document_key()
        &&& self.changes_key() == other.changes_key()
        &&& self.sync_states_key() == other.sync_states_key()
    }

    /// The byte totals of what is stored.
    pub fn sizes(&self) -> (s: StoredSizes)
        requires
            self.wf(),
        ensures
            s == self.spec_sizes(),
            s.changes == total_len(self.changes()),
            s.sync_states == total_len(self.sync_states()),
    {
        self.sizes
    }

    /// Nothing is buffered, so nothing is written.
    pub fn flush(&mut self) -> (n: usize)
        ensures
            n == 0,
            *final(self) == *old(self),
    {
        0
    }
}

} // verus!
