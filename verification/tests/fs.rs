use automerge_persistent::actor::ActorId;
use automerge_persistent::fs::{
    FileMeta, FsPersister, FsPersisterError, ScanEntry, CHANGES_DIR, DOC_FILE, SYNC_DIR,
};
use automerge_persistent::sizes::StoredSizes;

fn file(name: &str) -> ScanEntry {
    ScanEntry { name: name.as_bytes().to_vec(), is_file: true }
}

fn other(name: &str) -> ScanEntry {
    ScanEntry { name: name.as_bytes().to_vec(), is_file: false }
}

#[test]
fn fs_directory_names() {
    assert_eq!(CHANGES_DIR, "changes");
    assert_eq!(DOC_FILE, "doc");
    assert_eq!(SYNC_DIR, "sync");
}

#[test]
fn fs_layout_below_root_and_prefix() {
    let p = FsPersister::new("/var/data", "doc1");
    assert_eq!(p.changes_path(), "/var/data/doc1/changes");
    assert_eq!(p.doc_path(), "/var/data/doc1/doc");
    assert_eq!(p.sync_path(), "/var/data/doc1/sync");
    assert_eq!(p.sizes(), StoredSizes::default());
}

#[test]
fn fs_change_path_is_hex_actor_hyphen_sequence() {
    let p = FsPersister::new("root", "prefix");
    let a = ActorId::from_bytes(vec![0xde, 0xad, 0x01]);
    assert_eq!(p.make_changes_path(&a, 42), "root/prefix/changes/dead01-42");
    assert_eq!(p.make_changes_path(&a, 0), "root/prefix/changes/dead01-0");
    assert_eq!(
        p.make_changes_path(&ActorId::from_bytes(Vec::new()), u64::MAX),
        "root/prefix/changes/-18446744073709551615"
    );
}

#[test]
fn fs_change_paths_tell_actor_and_sequence_apart() {
    let p = FsPersister::new("root", "prefix");
    let a = ActorId::from_bytes(vec![0xab, 0x12]);
    let b = ActorId::from_bytes(vec![0xab]);
    assert_ne!(p.make_changes_path(&a, 3), p.make_changes_path(&b, 123));
}

#[test]
fn fs_peer_path_is_hex_peer() {
    let p = FsPersister::new("root", "prefix");
    assert_eq!(p.make_peer_path(&[0, 255, 16]), "root/prefix/sync/00ff10");
    assert_eq!(p.make_peer_path(&[]), "root/prefix/sync/");
}

fn scanned(changes: Vec<Vec<u8>>, document: Option<Vec<u8>>, sync_states: Vec<Vec<u8>>) -> FsPersister {
    let mut p = FsPersister::new("root", "prefix");
    assert!(p.recount(&changes, &document, &sync_states));
    p
}

#[test]
fn fs_recount_computes_sizes_from_scan() {
    let changes = vec![vec![0u8; 3], vec![0u8; 5], vec![0u8; 8]];
    let mut p = FsPersister::new("root", "prefix");
    assert!(p.recount(&changes, &None, &vec![]));
    assert_eq!(p.sizes(), StoredSizes { changes: 16, document: 0, sync_states: 0 });
    assert!(p.recount(&changes, &Some(vec![1; 4]), &vec![vec![1], vec![], vec![2, 2]]));
    assert_eq!(p.sizes(), StoredSizes { changes: 16, document: 4, sync_states: 3 });
    assert_eq!(p.changes_path(), "root/prefix/changes");
}

#[test]
fn fs_recount_on_empty_directory() {
    let p = scanned(vec![], None, vec![]);
    assert_eq!(p.sizes(), StoredSizes::default());
}

#[test]
fn fs_restart_agrees_with_running_sizes() {
    let mut p = scanned(vec![], None, vec![]);
    p.change_written(None, 3);
    p.change_written(None, 5);
    p.change_written(None, 8);
    let again = scanned(vec![vec![0; 3], vec![0; 5], vec![0; 8]], None, vec![]);
    assert_eq!(again.sizes().changes, 3 + 5 + 8);
    assert_eq!(again.sizes(), p.sizes());
}

#[test]
fn fs_only_regular_files_are_read() {
    let entries = vec![file("aa-1"), other("dir"), file("bb-2"), other("cc-3")];
    assert_eq!(FsPersister::regular_files(&entries), vec![b"aa-1".to_vec(), b"bb-2".to_vec()]);
    assert_eq!(FsPersister::regular_files(&vec![]), Vec::<Vec<u8>>::new());
}

#[test]
fn fs_peer_ids_are_decoded_file_names() {
    let entries = vec![file("00ff10"), other("zz"), file("ABcd"), file("")];
    assert_eq!(
        FsPersister::get_peer_ids(&entries).unwrap(),
        vec![vec![0, 255, 16], vec![0xab, 0xcd], vec![]]
    );
}

#[test]
fn fs_peer_ids_round_trip_through_file_names() {
    let peers: Vec<Vec<u8>> = vec![vec![1, 2, 3], vec![0], vec![255, 254], b"printable".to_vec()];
    let persister = FsPersister::new("root", "prefix");
    let entries: Vec<ScanEntry> = peers
        .iter()
        .map(|p| {
            let path = persister.make_peer_path(p);
            file(path.strip_prefix("root/prefix/sync/").unwrap())
        })
        .collect();
    assert_eq!(FsPersister::get_peer_ids(&entries).unwrap(), peers);
}

#[test]
fn fs_malformed_peer_file_name_is_a_hex_error() {
    let odd = FsPersister::get_peer_ids(&vec![file("00"), file("abc")]);
    assert!(matches!(odd, Err(FsPersisterError::Hex(hex::FromHexError::OddLength))));
    let bad = FsPersister::get_peer_ids(&vec![file("0g")]);
    assert!(matches!(
        bad,
        Err(FsPersisterError::Hex(hex::FromHexError::InvalidHexCharacter { c: 'g', index: 1 }))
    ));
}

#[test]
fn fs_only_a_regular_file_is_replaced_or_removed() {
    assert_eq!(FsPersister::regular_file(None), None);
    assert_eq!(FsPersister::regular_file(Some(FileMeta { is_file: false, len: 9 })), None);
    assert_eq!(FsPersister::regular_file(Some(FileMeta { is_file: true, len: 9 })), Some(9));
}

#[test]
fn fs_overwriting_a_change_counts_the_difference() {
    let mut p = scanned(vec![], None, vec![]);
    p.change_written(None, 10);
    p.change_written(Some(10), 4);
    assert_eq!(p.sizes().changes, 4);
    p.change_removed(4);
    assert_eq!(p.sizes().changes, 0);
}

#[test]
fn fs_document_and_sync_state_accounting() {
    let mut p = scanned(vec![], Some(vec![1, 2, 3]), vec![]);
    p.document_written(7);
    p.document_written(2);
    p.sync_state_written(None, 6);
    p.sync_state_written(None, 1);
    p.sync_state_written(Some(6), 3);
    p.sync_state_removed(1);
    assert_eq!(p.sizes(), StoredSizes { changes: 0, document: 2, sync_states: 3 });
    assert_eq!(p.flush(), 0);
    assert_eq!(p.sizes(), StoredSizes { changes: 0, document: 2, sync_states: 3 });
}

#[test]
fn fs_accounting_that_does_not_fit_is_refused() {
    let mut p = scanned(vec![vec![0; 4]], None, vec![vec![0; 2]]);
    assert!(!p.try_change_written(Some(5), 1));
    assert!(!p.try_change_written(None, usize::MAX));
    assert!(!p.try_change_removed(5));
    assert!(!p.try_sync_state_written(Some(3), 0));
    assert!(!p.try_sync_state_removed(3));
    assert_eq!(p.sizes(), StoredSizes { changes: 4, document: 0, sync_states: 2 });
    assert!(p.try_change_written(Some(4), 6));
    assert!(p.try_change_removed(6));
    assert!(p.try_sync_state_written(None, 3));
    assert!(p.try_sync_state_removed(5));
    assert_eq!(p.sizes(), StoredSizes::default());
}
