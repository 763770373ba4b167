//! The file backend, apart from the file system calls themselves.
//!
//! The directory of a persister is `<root>/<prefix>`. Below it lie a
//! `changes` directory with one file per change, named by the hexadecimal
//! actor, a hyphen and the decimal sequence number; one `doc` file with the
//! document snapshot; and a `sync` directory with one file per peer, named
//! by the hexadecimal peer identifier. The persister computes these paths,
//! decides which entries of a directory scan are read and which files are
//! removed, and keeps the sizes. Its caller reads and writes the files and
//! reports what it found.

use vstd::prelude::*;
use crate::actor::ActorId;
use crate::encoding::{
    decimal_string, decimal_text, hex_ascii, hex_data, hex_decode, hex_encode, hex_text, is_hex,
    lemma_decimal_injective, lemma_decimal_text, lemma_hex_round_trip, lemma_hex_text,
};
use crate::keyed::{is_listing, views};
use crate::laws::{
    injective_on, law_encoded_backend_matches_run, law_removal_is_exact, law_store_is_exact,
    named_changes, named_peers, rekeyed, rekeyed_ops, replaced_by,
};
use crate::model::{held_len, Op, Stored};
use crate::sizes::{
    after_store, blob_len, can_store, lemma_listing_total, stored_fits, sum_len, total_len,
    total_of, StoredSizes,
};

verus! {

/// `std::io::Error`: the error of a file system call, handed on as it is.
#[verifier::external_type_specification]
#[verifier::external_body]
pub struct ExIoError(std::io::Error);

/// Name of the directory that holds the changes.
pub const CHANGES_DIR: &'static str = "changes";

/// Name of the file that holds the document snapshot.
pub const DOC_FILE: &'static str = "doc";

/// Name of the directory that holds the sync states.
pub const SYNC_DIR: &'static str = "sync";

/// Possible errors of the file backend.
#[derive(Debug)]
pub enum FsPersisterError {
    /// A file system call failed.
    Io(std::io::Error),
    /// A file of the `sync` directory has a name that is no hexadecimal text.
    Hex(hex::FromHexError),
}

/// One entry of a directory, as a scan reports it.
#[derive(Debug, PartialEq, Eq)]
pub struct ScanEntry {
    /// The name of the entry, without its directory.
    pub name: Vec<u8>,
    /// Whether the entry is known to be a regular file.
    pub is_file: bool,
}

/// What the file system says of one path.
#[derive(Clone, Copy, Debug, PartialEq, Eq)]
pub struct FileMeta {
    /// Whether the path is a regular file.
    pub is_file: bool,
    /// The length of the file in bytes.
    pub len: usize,
}

/// The directory of a persister: `<root>/<prefix>`.
pub open spec fn persister_dir(root: Seq<char>, prefix: Seq<char>) -> Seq<char> {
    root + seq!['/'] + prefix
}

/// The entry `name` of the directory `dir`: `<dir>/<name>`.
pub open spec fn entry_path(dir: Seq<char>, name: Seq<char>) -> Seq<char> {
    dir + seq!['/'] + name
}

/// Name of the file of a change: hexadecimal actor, a hyphen, decimal
/// sequence number.
pub open spec fn change_file_name(actor: Seq<u8>, seq: u64) -> Seq<char> {
    hex_text(actor) + seq!['-'] + decimal_text(seq as nat)
}

/// Name of the file of a peer's sync state: the hexadecimal peer identifier.
pub open spec fn peer_file_name(peer: Seq<u8>) -> Seq<char> {
    hex_text(peer)
}

/// The file of a change, as a function of the identity of the change.
pub open spec fn change_file_of() -> spec_fn((Seq<u8>, u64)) -> Seq<char> {
    |id: (Seq<u8>, u64)| change_file_name(id.0, id.1)
}

/// The file of a peer's sync state, as a function of the peer.
pub open spec fn peer_file_of() -> spec_fn(Seq<u8>) -> Seq<char> {
    |peer: Seq<u8>| peer_file_name(peer)
}

/// Two changes have the same file only if they have the same actor and the
/// same sequence number.
pub proof fn lemma_change_file_name_injective(actor1: Seq<u8>, seq1: u64, actor2: Seq<u8>, seq2: u64)
    requires
        change_file_name(actor1, seq1) == change_file_name(actor2, seq2),
    ensures
        actor1 == actor2,
        seq1 == seq2,
{
    let h1 = hex_text(actor1);
    let h2 = hex_text(actor2);
    let d1 = decimal_text(seq1 as nat);
    let d2 = decimal_text(seq2 as nat);
    let n1 = change_file_name(actor1, seq1);
    let n2 = change_file_name(actor2, seq2);
    lemma_hex_text(actor1, actor2);
    lemma_hex_text(actor2, actor1);
    lemma_decimal_text(seq1 as nat);
    lemma_decimal_text(seq2 as nat);
    let l1 = h1.len() as int;
    let l2 = h2.len() as int;
    assert(n1[l1] == '-');
    assert(n2[l2] == '-');
    if l1 < l2 {
        assert(n2[l1] == h2[l1]);
    }
    if l2 < l1 {
        assert(n1[l2] == h1[l2]);
    }
    assert(l1 == l2);
    assert(h1 =~= n1.take(l1));
    assert(h2 =~= n2.take(l2));
    assert(d1 =~= n1.skip(l1 + 1));
    assert(d2 =~= n2.skip(l2 + 1));
    lemma_decimal_injective(seq1 as nat, seq2 as nat);
}

/// The files of the file backend keep all changes apart, and all peers.
pub proof fn law_file_names_keep_apart(changes: Set<(Seq<u8>, u64)>, peers: Set<Seq<u8>>)
    ensures
        injective_on(change_file_of(), changes),
        injective_on(peer_file_of(), peers),
{
    assert forall|x: (Seq<u8>, u64), y: (Seq<u8>, u64)|
        changes.contains(x) && changes.contains(y) && #[trigger] change_file_of()(x)
            == #[trigger] change_file_of()(y) implies x == y by {
        lemma_change_file_name_injective(x.0, x.1, y.0, y.1);
    }
    assert forall|x: Seq<u8>, y: Seq<u8>|
        peers.contains(x) && peers.contains(y) && #[trigger] peer_file_of()(x)
            == #[trigger] peer_file_of()(y) implies x == y by {
        lemma_hex_text(x, y);
    }
}

/// What lies below the directory of a persister that stores `s`: the same
/// blobs, each change under the name of its file in the `changes`
/// directory and each sync state under the name of its file in the `sync`
/// directory.
pub open spec fn directory(s: Stored<(Seq<u8>, u64), Seq<u8>>) -> Stored<Seq<char>, Seq<char>> {
    rekeyed(s, change_file_of(), peer_file_of())
}

/// The operations on files that a sequence of operations of the persister
/// stands for.
pub open spec fn file_ops(ops: Seq<Op<(Seq<u8>, u64), Seq<u8>>>) -> Seq<
    Op<Seq<char>, Seq<char>>,
> {
    rekeyed_ops(ops, change_file_of(), peer_file_of())
}

/// The file backend does along every sequence of operations what the
/// baseline does: the directory holds what the baseline stores, and sizes
/// that start exact and are kept file by file, a written file adding its
/// length and taking off the length of the file it replaces, a removed file
/// taking off its length, are the sizes of the baseline.
pub proof fn law_file_backend_matches(
    s: Stored<(Seq<u8>, u64), Seq<u8>>,
    ops: Seq<Op<(Seq<u8>, u64), Seq<u8>>>,
)
    requires
        s.finite(),
    ensures
        directory(s).run(file_ops(ops)) == directory(s.run(ops)),
        directory(s).tally_run(directory(s).tally(), file_ops(ops)) == s.run(ops).tally(),
        directory(s.run(ops)).tally() == s.run(ops).tally(),
        directory(s.run(ops)).get_document() == s.run(ops).get_document(),
{
    law_file_names_keep_apart(
        s.changes.dom() + named_changes(ops),
        s.sync_states.dom() + named_peers(ops),
    );
    law_encoded_backend_matches_run(s, change_file_of(), peer_file_of(), ops);
}

/// One step of the persister's accounting is one step of the sizes of the
/// model: where `total` is the sum of the lengths of the files of a
/// directory, and a file is written whose name held `replaced` bytes
/// before, the new size is the old one less the length held plus the new
/// length, and it is the sum of the lengths again; likewise for a removed
/// file.
pub proof fn law_file_step_is_exact(files: Map<Seq<char>, Seq<u8>>, name: Seq<char>, data: Seq<u8>, total: usize)
    requires
        files.dom().finite(),
        total == total_len(files),
        total_len(files.insert(name, data)) <= usize::MAX,
    ensures
        stored_fits(total, replaced_by(files, name), data.len() as usize),
        after_store(total, replaced_by(files, name), data.len() as usize) == total - held_len(
            files,
            name,
        ) + data.len(),
        after_store(total, replaced_by(files, name), data.len() as usize) == total_len(
            files.insert(name, data),
        ),
        held_len(files, name) <= total,
        total - held_len(files, name) == total_len(files.remove(name)),
{
    law_store_is_exact(files, name, data, total);
    law_removal_is_exact(files, name, total);
}

/// A scan that lists the files of a directory, each once, adds up to the
/// sum of the lengths of the files: sizes that are computed from such a scan
/// are exact.
pub proof fn law_scan_is_exact(names: Seq<Seq<char>>, blobs: Seq<Seq<u8>>, files: Map<Seq<char>, Seq<u8>>)
    requires
        is_listing(names, blobs, files),
    ensures
        sum_len(blobs) == total_len(files),
{
    lemma_listing_total(names, blobs, files);
}

/// The peers that were written are the peers that a scan shows: the name of
/// a peer's file is hexadecimal text and stands for the peer.
pub proof fn law_peer_file_names_round_trip(peers: Seq<Seq<u8>>)
    ensures
        all_hex(Seq::new(peers.len(), |i: int| hex_ascii(peers[i]))),
        all_hex_data(Seq::new(peers.len(), |i: int| hex_ascii(peers[i]))) == peers,
{
    let names = Seq::new(peers.len(), |i: int| hex_ascii(peers[i]));
    assert forall|i: int| 0 <= i < names.len() implies is_hex(#[trigger] names[i]) && hex_data(
        names[i],
    ) == peers[i] by {
        lemma_hex_round_trip(peers[i]);
    }
    assert(all_hex_data(names) =~= peers);
}

/// The names of the regular files of a scan, in scan order.
pub open spec fn file_names(entries: Seq<ScanEntry>) -> Seq<Seq<u8>>
    decreases entries.len(),
{
    if entries.len() == 0 {
        Seq::empty()
    } else if entries.last().is_file {
        file_names(entries.drop_last()).push(entries.last().name@)
    } else {
        file_names(entries.drop_last())
    }
}

/// Whether every name is hexadecimal text.
pub open spec fn all_hex(names: Seq<Seq<u8>>) -> bool {
    forall|i: int| 0 <= i < names.len() ==> is_hex(#[trigger] names[i])
}

/// The bytes that each name stands for.
pub open spec fn all_hex_data(names: Seq<Seq<u8>>) -> Seq<Seq<u8>> {
    Seq::new(names.len(), |i: int| hex_data(names[i]))
}

/// The length of the regular file that `meta` describes, if it describes one.
pub open spec fn regular_len(meta: Option<FileMeta>) -> Option<usize> {
    match meta {
        Some(m) => if m.is_file { Some(m.len) } else { None },
        None => None,
    }
}

/// The file backend's state: the three paths below its directory and the
/// sizes of what lies there.
#[derive(Debug)]
pub struct FsPersister {
    changes_path: String,
    doc_path: String,
    sync_path: String,
    sizes: StoredSizes,
}

/// `<dir>/<name>`.
fn join(dir: &str, name: &str) -> (path: String)
    ensures
        path@ == entry_path(dir@, name@),
{
    let mut path = String::from_str(dir);
    path.append("/");
    path.append(name);
    proof {
        reveal_strlit("/");
        assert(path@ =~= entry_path(dir@, name@));
    }
    path
}

impl View for FsPersister {
    type V = StoredSizes;

    closed spec fn view(&self) -> StoredSizes {
        self.sizes
    }
}

impl FsPersister {
    /// The path of the directory of the changes.
    pub closed spec fn changes_dir(&self) -> Seq<char> {
        self.changes_path@
    }

    /// The path of the file of the document.
    pub closed spec fn doc_file(&self) -> Seq<char> {
        self.doc_path@
    }

    /// The path of the directory of the sync states.
    pub closed spec fn sync_dir(&self) -> Seq<char> {
        self.sync_path@
    }

    /// Whether two persisters have the same paths.
    pub open spec fn same_paths(&self, other: &Self) -> bool {
        &&& self.changes_dir() == other.changes_dir()
        &&& self.doc_file() == other.doc_file()
        &&& self.sync_dir() == other.sync_dir()
    }

    /// The persister for the directory `prefix` below `root`, with all
    /// sizes zero: [`FsPersister::recount`] sets them from what the
    /// directory holds.
    pub fn new(root: &str, prefix: &str) -> (p: Self)
        ensures
            p.changes_dir() == entry_path(persister_dir(root@, prefix@), CHANGES_DIR@),
            p.doc_file() == entry_path(persister_dir(root@, prefix@), DOC_FILE@),
            p.sync_dir() == entry_path(persister_dir(root@, prefix@), SYNC_DIR@),
            p@ == (StoredSizes { changes: 0, document: 0, sync_states: 0 }),
    {
        let dir = join(root, prefix);
        FsPersister {
            changes_path: join(dir.as_str(), CHANGES_DIR),
            doc_path: join(dir.as_str(), DOC_FILE),
            sync_path: join(dir.as_str(), SYNC_DIR),
            sizes: StoredSizes::default(),
        }
    }

    /// Sets the sizes from a scan of the directory that found the given
    /// changes, document and sync states, and from nothing else. Where a sum
    /// of lengths is more than `usize` holds, the sizes stay as they are and
    /// the result is `false`.
    pub fn recount(
        &mut self,
        changes: &Vec<Vec<u8>>,
        document: &Option<Vec<u8>>,
        sync_states: &Vec<Vec<u8>>,
    ) -> (done: bool)
        ensures
            final(self).same_paths(old(self)),
            done == (sum_len(views(changes@)) <= usize::MAX && sum_len(views(sync_states@))
                <= usize::MAX),
            done ==> final(self)@.changes == sum_len(views(changes@)),
            done ==> final(self)@.document == blob_len(crate::persister::blob_view(*document)),
            done ==> final(self)@.sync_states == sum_len(views(sync_states@)),
            !done ==> final(self)@ == old(self)@,
    {
        let changes_total = match total_of(changes) {
            Some(n) => n,
            None => {
                return false;
            },
        };
        let document_len: usize = match document {
            Some(d) => d.len(),
            None => 0,
        };
        let sync_total = match total_of(sync_states) {
            Some(n) => n,
            None => {
                return false;
            },
        };
        self.sizes = StoredSizes {
            changes: changes_total,
            document: document_len,
            sync_states: sync_total,
        };
        true
    }

    /// Path of the directory of the changes.
    pub fn changes_path(&self) -> (path: &String)
        ensures
            path@ == self.changes_dir(),
    {
        &self.changes_path
    }

    /// Path of the file of the document.
    pub fn doc_path(&self) -> (path: &String)
        ensures
            path@ == self.doc_file(),
    {
        &self.doc_path
    }

    /// Path of the directory of the sync states.
    pub fn sync_path(&self) -> (path: &String)
        ensures
            path@ == self.sync_dir(),
    {
        &self.sync_path
    }

    /// Path of the file of a change.
    pub fn make_changes_path(&self, actor_id: &ActorId, seq: u64) -> (path: String)
        ensures
            path@ == entry_path(self.changes_dir(), change_file_name(actor_id@, seq)),
    {
        let mut name = actor_id.to_hex_string();
        name.append("-");
        name.append(decimal_string(seq).as_str());
        proof {
            reveal_strlit("-");
            assert(name@ =~= change_file_name(actor_id@, seq));
        }
        join(self.changes_path.as_str(), name.as_str())
    }

    /// Path of the file of a peer's sync state.
    pub fn make_peer_path(&self, peer_id: &[u8]) -> (path: String)
        ensures
            path@ == entry_path(self.sync_dir(), peer_file_name(peer_id@)),
    {
        join(self.sync_path.as_str(), hex_encode(peer_id).as_str())
    }

    /// The names of the entries of a scan that are read: the regular files,
    /// in scan order.
    pub fn regular_files(entries: &Vec<ScanEntry>) -> (names: Vec<Vec<u8>>)
        ensures
            views(names@) == file_names(entries@),
    {
        let mut names: Vec<Vec<u8>> = Vec::new();
        let mut i: usize = 0;
        proof {
            assert(entries@.take(0) =~= Seq::empty());
            assert(views(names@) =~= Seq::empty());
        }
        while i < entries.len()
            invariant
                i <= entries.len(),
                views(names@) == file_names(entries@.take(i as int)),
            decreases entries.len() - i,
        {
            proof {
                assert(entries@.take(i + 1).drop_last() =~= entries@.take(i as int));
            }
            let ghost before = views(names@);
            if entries[i].is_file {
                names.push(crate::keyed::copy_bytes(&entries[i].name));
                proof {
                    assert(views(names@) =~= before.push(entries@[i as int].name@));
                }
            }
            i = i + 1;
        }
        proof {
            assert(entries@.take(entries.len() as int) =~= entries@);
        }
        names
    }

    /// The peers that a scan of the `sync` directory shows: the name of each
    /// regular file, read as hexadecimal text. A name that is no hexadecimal
    /// text is an error.
    pub fn get_peer_ids(entries: &Vec<ScanEntry>) -> (r: Result<Vec<Vec<u8>>, FsPersisterError>)
        ensures
            match r {
                Ok(peers) => all_hex(file_names(entries@)) && views(peers@) == all_hex_data(
                    file_names(entries@),
                ),
                Err(e) => !all_hex(file_names(entries@)) && e is Hex,
            },
    {
        let names = FsPersister::regular_files(entries);
        let ghost all = views(names@);
        let mut peers: Vec<Vec<u8>> = Vec::new();
        let mut i: usize = 0;
        while i < names.len()
            invariant
                i <= names.len(),
                all == views(names@),
                all == file_names(entries@),
                peers@.len() == i,
                forall|j: int| 0 <= j < i ==> is_hex(#[trigger] all[j]),
                forall|j: int| 0 <= j < i ==> peers@[j]@ == hex_data(all[j]),
            decreases names.len() - i,
        {
            match hex_decode(names[i].as_slice()) {
                Ok(peer) => {
                    peers.push(peer);
                },
                Err(e) => {
                    proof {
                        assert(!is_hex(all[i as int]));
                    }
                    return Err(FsPersisterError::Hex(e));
                },
            }
            i = i + 1;
        }
        proof {
            assert(views(peers@) =~= all_hex_data(all));
        }
        Ok(peers)
    }

    /// The length of the file that a store is about to replace, or that a
    /// removal is about to remove: only a regular file counts.
    pub fn regular_file(meta: Option<FileMeta>) -> (r: Option<usize>)
        ensures
            r == regular_len(meta),
    {
        match meta {
            Some(m) => {
                if m.is_file {
                    Some(m.len)
                } else {
                    None
                }
            },
            None => None,
        }
    }

    /// Accounts for a change file of `len` bytes that was written, in the
    /// place of a file of `replaced` bytes if there was one.
    pub fn change_written(&mut self, replaced: Option<usize>, len: usize)
        requires
            stored_fits(old(self)@.changes, replaced, len),
        ensures
            final(self).same_paths(old(self)),
            final(self)@.changes == after_store(old(self)@.changes, replaced, len),
            final(self)@.document == old(self)@.document,
            final(self)@.sync_states == old(self)@.sync_states,
    {
        self.sizes.change_stored(replaced, len);
    }

    /// Accounts for a written change file like [`FsPersister::change_written`]
    /// where the sizes allow it, and says whether they did. They do not
    /// where `replaced` is more than the size of the changes, or the new size
    /// is more than `usize` holds.
    pub fn try_change_written(&mut self, replaced: Option<usize>, len: usize) -> (done: bool)
        ensures
            final(self).same_paths(old(self)),
            done == stored_fits(old(self)@.changes, replaced, len),
            done ==> final(self)@.changes == after_store(old(self)@.changes, replaced, len),
            !done ==> final(self)@.changes == old(self)@.changes,
            final(self)@.document == old(self)@.document,
            final(self)@.sync_states == old(self)@.sync_states,
    {
        if can_store(self.sizes.changes, replaced, len) {
            self.change_written(replaced, len);
            true
        } else {
            false
        }
    }

    /// Accounts for a removed change file like
    /// [`FsPersister::change_removed`] where `len` is no more than the size
    /// of the changes, and says whether it was.
    pub fn try_change_removed(&mut self, len: usize) -> (done: bool)
        ensures
            final(self).same_paths(old(self)),
            done == (len <= old(self)@.changes),
            done ==> final(self)@.changes == old(self)@.changes - len,
            !done ==> final(self)@.changes == old(self)@.changes,
            final(self)@.document == old(self)@.document,
            final(self)@.sync_states == old(self)@.sync_states,
    {
        if len <= self.sizes.changes {
            self.change_removed(len);
            true
        } else {
            false
        }
    }

    /// Accounts for a written sync state file like
    /// [`FsPersister::sync_state_written`] where the sizes allow it, and says
    /// whether they did.
    pub fn try_sync_state_written(&mut self, replaced: Option<usize>, len: usize) -> (done: bool)
        ensures
            final(self).same_paths(old(self)),
            done == stored_fits(old(self)@.sync_states, replaced, len),
            done ==> final(self)@.sync_states == after_store(
                old(self)@.sync_states,
                replaced,
                len,
            ),
            !done ==> final(self)@.sync_states == old(self)@.sync_states,
            final(self)@.changes == old(self)@.changes,
            final(self)@.document == old(self)@.document,
    {
        if can_store(self.sizes.sync_states, replaced, len) {
            self.sync_state_written(replaced, len);
            true
        } else {
            false
        }
    }

    /// Accounts for a removed sync state file like
    /// [`FsPersister::sync_state_removed`] where `len` is no more than the
    /// size of the sync states, and says whether it was.
    pub fn try_sync_state_removed(&mut self, len: usize) -> (done: bool)
        ensures
            final(self).same_paths(old(self)),
            done == (len <= old(self)@.sync_states),
            done ==> final(self)@.sync_states == old(self)@.sync_states - len,
            !done ==> final(self)@.sync_states == old(self)@.sync_states,
            final(self)@.changes == old(self)@.changes,
            final(self)@.document == old(self)@.document,
    {
        if len <= self.sizes.sync_states {
            self.sync_state_removed(len);
            true
        } else {
            false
        }
    }

    /// Accounts for a change file of `len` bytes that was removed.
    pub fn change_removed(&mut self, len: usize)
        requires
            len <= old(self)@.changes,
        ensures
            final(self).same_paths(old(self)),
            final(self)@.changes == old(self)@.changes - len,
            final(self)@.document == old(self)@.document,
            final(self)@.sync_states == old(self)@.sync_states,
    {
        self.sizes.change_removed(len);
    }

    /// Accounts for a document of `len` bytes that was written.
    pub fn document_written(&mut self, len: usize)
        ensures
            final(self).same_paths(old(self)),
            final(self)@.document == len,
            final(self)@.changes == old(self)@.changes,
            final(self)@.sync_states == old(self)@.sync_states,
    {
        self.sizes.document_stored(len);
    }

    /// Accounts for a sync state file of `len` bytes that was written, in
    /// the place of a file of `replaced` bytes if there was one.
    pub fn sync_state_written(&mut self, replaced: Option<usize>, len: usize)
        requires
            stored_fits(old(self)@.sync_states, replaced, len),
        ensures
            final(self).same_paths(old(self)),
            final(self)@.sync_states == after_store(old(self)@.sync_states, replaced, len),
            final(self)@.changes == old(self)@.changes,
            final(self)@.document == old(self)@.document,
    {
        self.sizes.sync_state_stored(replaced, len);
    }

    /// Accounts for a sync state file of `len` bytes that was removed.
    pub fn sync_state_removed(&mut self, len: usize)
        requires
            len <= old(self)@.sync_states,
        ensures
            final(self).same_paths(old(self)),
            final(self)@.sync_states == old(self)@.sync_states - len,
            final(self)@.changes == old(self)@.changes,
            final(self)@.document == old(self)@.document,
    {
        self.sizes.sync_state_removed(len);
    }

    /// The sizes of what lies below the directory.
    pub fn sizes(&self) -> (s: StoredSizes)
        ensures
            s == self@,
    {
        self.sizes
    }

    /// Nothing is buffered, so nothing is written.
    pub fn flush(&mut self) -> (n: usize)
        ensures
            n == 0,
            final(self)@ == old(self)@,
            final(self).same_paths(old(self)),
    {
        0
    }
}

} // verus!
