use automerge_persistent::actor::ActorId;
use automerge_persistent::localstorage::{
    make_key, map_of_entries, LocalStoragePersister, LocalStoragePersisterError, StorageWrite,
};
use automerge_persistent::sizes::StoredSizes;
use std::collections::HashMap;
use wasm_bindgen::JsValue;

fn actor(bytes: &[u8]) -> ActorId {
    ActorId::from_bytes(bytes.to_vec())
}

fn sorted(mut blobs: Vec<Vec<u8>>) -> Vec<Vec<u8>> {
    blobs.sort();
    blobs
}

fn fresh() -> LocalStoragePersister {
    open(&HashMap::new())
}

fn open(storage: &HashMap<String, String>) -> LocalStoragePersister {
    LocalStoragePersister::new(
        Ok(storage.get("changes").cloned()),
        Ok(storage.get("sync-states").cloned()),
        Ok(storage.get("document").cloned()),
        "document".to_owned(),
        "changes".to_owned(),
        "sync-states".to_owned(),
    )
    .unwrap()
    .unwrap()
}

fn write(storage: &mut HashMap<String, String>, w: StorageWrite) {
    storage.insert(w.key, w.value);
}

#[test]
fn browser_change_key_is_hex_actor_then_decimal_sequence() {
    assert_eq!(make_key(&actor(&[0xab, 0x01]), 17), "ab0117");
    assert_eq!(make_key(&actor(&[]), 0), "0");
}

#[test]
fn browser_change_keys_can_coincide() {
    assert_eq!(make_key(&actor(&[0xab, 0x12]), 3), make_key(&actor(&[0xab]), 123));
}

#[test]
fn browser_starts_empty_without_entries() {
    let p = fresh();
    assert_eq!(p.get_changes(), Vec::<Vec<u8>>::new());
    assert_eq!(p.get_peer_ids(), Vec::<Vec<u8>>::new());
    assert_eq!(p.sizes(), StoredSizes::default());
}

#[test]
fn browser_insert_writes_the_whole_map_under_the_changes_key() {
    let mut p = fresh();
    let w = p.insert_changes(vec![(actor(&[1]), 1, vec![1, 2, 3])]).unwrap();
    assert_eq!(w, StorageWrite { key: "changes".to_owned(), value: "{\"011\":[1,2,3]}".to_owned() });
    let w = p.insert_changes(vec![(actor(&[0]), 2, vec![9])]).unwrap();
    assert_eq!(w.value, "{\"002\":[9],\"011\":[1,2,3]}");
    assert_eq!(p.sizes().changes, 4);
}

#[test]
fn browser_reinsertion_counts_the_difference() {
    let mut p = fresh();
    p.insert_changes(vec![(actor(&[1]), 1, vec![0; 10]), (actor(&[2]), 1, vec![0; 5])]).unwrap();
    p.insert_changes(vec![(actor(&[1]), 1, vec![0; 2])]).unwrap();
    assert_eq!(p.sizes().changes, 7);
    assert_eq!(sorted(p.get_changes()), sorted(vec![vec![0; 2], vec![0; 5]]));
}

#[test]
fn browser_removal_writes_only_when_something_was_removed() {
    let mut p = fresh();
    let a = actor(&[1]);
    p.insert_changes(vec![(a.clone(), 1, vec![1, 2]), (a.clone(), 2, vec![3])]).unwrap();
    assert_eq!(p.remove_changes(vec![(&a, 7)]).unwrap(), None);
    assert_eq!(p.sizes().changes, 3);
    let w = p.remove_changes(vec![(&a, 1), (&a, 9)]).unwrap().unwrap();
    assert_eq!(w, StorageWrite { key: "changes".to_owned(), value: "{\"012\":[3]}".to_owned() });
    assert_eq!(p.sizes().changes, 1);
    assert_eq!(p.remove_changes(vec![(&a, 1)]).unwrap(), None);
    assert_eq!(p.get_changes(), vec![vec![3]]);
}

#[test]
fn browser_document_round_trip() {
    let mut p = fresh();
    let mut storage = HashMap::new();
    assert_eq!(LocalStoragePersister::get_document(Ok(storage.get("document").cloned())).unwrap(), None);
    let w = p.set_document(vec![1, 2, 255]).unwrap();
    assert_eq!(w, StorageWrite { key: "document".to_owned(), value: "[1,2,255]".to_owned() });
    write(&mut storage, w);
    assert_eq!(p.sizes().document, 3);
    assert_eq!(
        LocalStoragePersister::get_document(Ok(storage.get("document").cloned())).unwrap(),
        Some(vec![1, 2, 255])
    );
    let w = p.set_document(Vec::new()).unwrap();
    assert_eq!(w.value, "[]");
    write(&mut storage, w);
    assert_eq!(p.sizes().document, 0);
    assert_eq!(LocalStoragePersister::get_document(Ok(storage.get("document").cloned())).unwrap(), None);
}

#[test]
fn browser_document_is_replaced_not_added() {
    let mut p = fresh();
    let mut storage = HashMap::new();
    write(&mut storage, p.set_document(vec![1; 9]).unwrap());
    write(&mut storage, p.set_document(vec![2; 4]).unwrap());
    assert_eq!(p.sizes().document, 4);
    assert_eq!(
        LocalStoragePersister::get_document(Ok(storage.get("document").cloned())).unwrap(),
        Some(vec![2; 4])
    );
}

#[test]
fn browser_sync_states_are_keyed_by_base64_peer() {
    let mut p = fresh();
    let w = p.set_sync_state(b"hello world".to_vec(), vec![7]).unwrap();
    assert_eq!(
        w,
        StorageWrite { key: "sync-states".to_owned(), value: "{\"aGVsbG8gd29ybGQ=\":[7]}".to_owned() }
    );
    assert_eq!(p.get_sync_state(b"hello world"), Some(vec![7]));
    assert_eq!(p.get_sync_state(b"hello"), None);
    assert_eq!(p.get_peer_ids(), vec![b"hello world".to_vec()]);
}

#[test]
fn browser_peer_enumeration() {
    let mut p = fresh();
    p.set_sync_state(vec![0, 1, 255], vec![1, 1]).unwrap();
    p.set_sync_state(vec![2], vec![2, 2, 2]).unwrap();
    assert_eq!(p.sizes().sync_states, 5);
    p.remove_sync_states(&[&[0u8, 1, 255][..]]).unwrap();
    assert_eq!(p.get_peer_ids(), vec![vec![2]]);
    assert_eq!(p.sizes().sync_states, 3);
    p.set_sync_state(vec![2], vec![4]).unwrap();
    assert_eq!(p.sizes().sync_states, 1);
    p.set_sync_state(vec![2], Vec::new()).unwrap();
    assert_eq!(p.get_sync_state(&[2]), None);
    assert_eq!(p.get_peer_ids(), vec![vec![2]]);
}

#[test]
fn browser_removing_sync_states_always_writes() {
    let mut p = fresh();
    let w = p.remove_sync_states(&[&[1u8][..]]).unwrap();
    assert_eq!(w, StorageWrite { key: "sync-states".to_owned(), value: "{}".to_owned() });
}

#[test]
fn browser_restart_recomputes_sizes_and_state() {
    let mut storage = HashMap::new();
    let mut p = fresh();
    write(
        &mut storage,
        p.insert_changes(vec![(actor(&[1]), 1, vec![0; 3]), (actor(&[1]), 2, vec![0; 5])]).unwrap(),
    );
    write(&mut storage, p.set_document(vec![9; 6]).unwrap());
    write(&mut storage, p.set_sync_state(vec![1, 2], vec![8; 2]).unwrap());
    let again = open(&storage);
    assert_eq!(again.sizes(), StoredSizes { changes: 8, document: 6, sync_states: 2 });
    assert_eq!(again.sizes(), p.sizes());
    assert_eq!(sorted(again.get_changes()), sorted(vec![vec![0; 3], vec![0; 5]]));
    assert_eq!(again.get_sync_state(&[1, 2]), Some(vec![8; 2]));
    assert_eq!(again.get_peer_ids(), vec![vec![1, 2]]);
}

#[test]
fn browser_stored_key_that_is_no_base64_names_no_peer() {
    let p = LocalStoragePersister::new(
        Ok(None),
        Ok(Some("{\"!!\":[1,2],\"AQ==\":[3]}".to_owned())),
        Ok(None),
        "d".to_owned(),
        "c".to_owned(),
        "s".to_owned(),
    )
    .unwrap()
    .unwrap();
    assert_eq!(p.get_peer_ids(), vec![vec![1]]);
    assert_eq!(p.foreign_peer_keys(), vec!["!!".to_owned()]);
    assert_eq!(p.sizes().sync_states, 3);
}

#[test]
fn browser_stores_no_foreign_key_itself() {
    let mut p = fresh();
    p.set_sync_state(vec![0, 255], vec![1]).unwrap();
    p.set_sync_state(Vec::new(), vec![2]).unwrap();
    assert_eq!(p.foreign_peer_keys(), Vec::<String>::new());
    assert_eq!(p.get_peer_ids().len(), 2);
}

#[test]
fn browser_map_of_entries_keeps_the_later_of_two_equal_keys() {
    let m = map_of_entries(vec![
        ("a".to_owned(), vec![1]),
        ("b".to_owned(), vec![2, 2]),
        ("a".to_owned(), vec![3, 3, 3]),
    ]);
    assert_eq!(m.len(), 2);
    assert_eq!(m.get(&"a".to_owned()), Some(&vec![3, 3, 3]));
    assert_eq!(m.get(&"b".to_owned()), Some(&vec![2, 2]));
    assert_eq!(map_of_entries(Vec::new()).len(), 0);
}

#[test]
fn browser_written_maps_read_back_with_keys_that_need_escaping() {
    let mut storage = HashMap::new();
    let mut p = LocalStoragePersister::new(
        Ok(None),
        Ok(Some("{\"quo\\\"te\\n\":[1,2],\"\\u00e9\":[3]}".to_owned())),
        Ok(None),
        "document".to_owned(),
        "changes".to_owned(),
        "sync-states".to_owned(),
    )
    .unwrap()
    .unwrap();
    assert_eq!(p.foreign_peer_keys().len(), 2);
    write(&mut storage, p.remove_sync_states(&[]).unwrap());
    let again = open(&storage);
    let mut keys = again.foreign_peer_keys();
    keys.sort();
    assert_eq!(keys, vec!["quo\"te\n".to_owned(), "\u{e9}".to_owned()]);
    assert_eq!(again.sizes().sync_states, 3);
}

#[test]
fn browser_unreadable_entries_are_serde_errors() {
    let keys = || ("d".to_owned(), "c".to_owned(), "s".to_owned());
    let (d, c, s) = keys();
    let r = LocalStoragePersister::new(Ok(Some("not json".to_owned())), Ok(None), Ok(None), d, c, s);
    assert!(matches!(r, Err(LocalStoragePersisterError::SerdeError(_))));
    let (d, c, s) = keys();
    let r = LocalStoragePersister::new(Ok(None), Ok(Some("[1]".to_owned())), Ok(None), d, c, s);
    assert!(matches!(r, Err(LocalStoragePersisterError::SerdeError(_))));
    let (d, c, s) = keys();
    let r = LocalStoragePersister::new(Ok(None), Ok(None), Ok(Some("[256]".to_owned())), d, c, s);
    assert!(matches!(r, Err(LocalStoragePersisterError::SerdeError(_))));
    let r = LocalStoragePersister::get_document(Ok(Some("{}".to_owned())));
    assert!(matches!(r, Err(LocalStoragePersisterError::SerdeError(_))));
}

#[test]
fn browser_storage_faults_are_storage_errors() {
    let r = LocalStoragePersister::new(
        Err(JsValue::NULL),
        Ok(Some("not json".to_owned())),
        Ok(None),
        "d".to_owned(),
        "c".to_owned(),
        "s".to_owned(),
    );
    assert!(matches!(r, Err(LocalStoragePersisterError::StorageError(_))));
    let r = LocalStoragePersister::new(
        Ok(Some("not json".to_owned())),
        Err(JsValue::NULL),
        Ok(None),
        "d".to_owned(),
        "c".to_owned(),
        "s".to_owned(),
    );
    assert!(matches!(r, Err(LocalStoragePersisterError::SerdeError(_))));
    let r = LocalStoragePersister::new(
        Ok(None),
        Ok(None),
        Err(JsValue::UNDEFINED),
        "d".to_owned(),
        "c".to_owned(),
        "s".to_owned(),
    );
    assert!(matches!(r, Err(LocalStoragePersisterError::StorageError(_))));
    let r = LocalStoragePersister::get_document(Err(JsValue::NULL));
    assert!(matches!(r, Err(LocalStoragePersisterError::StorageError(_))));
}

#[test]
fn browser_flush_writes_nothing() {
    let mut p = fresh();
    p.insert_changes(vec![(actor(&[1]), 1, vec![1])]).unwrap();
    assert_eq!(p.flush(), 0);
    assert_eq!(p.sizes().changes, 1);
}

#[test]
fn browser_tells_whether_a_batch_fits() {
    let mut p = fresh();
    assert!(p.can_insert(&vec![(actor(&[1]), 1, vec![0; 100])]));
    p.set_sync_state(vec![1], vec![0; 4]).unwrap();
    assert!(p.can_set_sync_state(usize::MAX - 4));
    assert!(!p.can_set_sync_state(usize::MAX - 3));
}
