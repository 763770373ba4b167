use automerge_persistent::actor::ActorId;
use automerge_persistent::mem::MemoryPersister;
use automerge_persistent::persister::Persister;
use automerge_persistent::sizes::StoredSizes;

fn actor(bytes: &[u8]) -> ActorId {
    ActorId::from_bytes(bytes.to_vec())
}

fn sorted(mut blobs: Vec<Vec<u8>>) -> Vec<Vec<u8>> {
    blobs.sort();
    blobs
}

#[test]
fn memory_starts_empty() {
    let p = MemoryPersister::new();
    assert_eq!(p.get_changes().unwrap(), Vec::<Vec<u8>>::new());
    assert_eq!(p.get_document().unwrap(), None);
    assert_eq!(p.get_peer_ids().unwrap(), Vec::<Vec<u8>>::new());
    assert_eq!(p.sizes(), StoredSizes { changes: 0, document: 0, sync_states: 0 });
}

#[test]
fn memory_default_is_empty() {
    let p = MemoryPersister::default();
    assert_eq!(p.sizes(), StoredSizes::default());
    assert_eq!(p.get_changes().unwrap().len(), 0);
}

#[test]
fn memory_insert_counts_each_identity_once() {
    let mut p = MemoryPersister::new();
    p.insert_changes(vec![
        (actor(b"a"), 1, vec![1, 2, 3]),
        (actor(b"a"), 2, vec![4, 5]),
        (actor(b"b"), 1, vec![6]),
    ])
    .unwrap();
    assert_eq!(p.sizes().changes, 6);
    p.insert_changes(vec![(actor(b"a"), 1, vec![9; 10])]).unwrap();
    assert_eq!(p.sizes().changes, 13);
    assert_eq!(sorted(p.get_changes().unwrap()), sorted(vec![vec![9; 10], vec![4, 5], vec![6]]));
}

#[test]
fn memory_later_entry_of_a_batch_wins() {
    let mut p = MemoryPersister::new();
    p.insert_changes(vec![(actor(b"a"), 1, vec![1, 2, 3]), (actor(b"a"), 1, vec![7])]).unwrap();
    assert_eq!(p.get_changes().unwrap(), vec![vec![7]]);
    assert_eq!(p.sizes().changes, 1);
}

#[test]
fn memory_sizes_follow_every_operation() {
    let mut p = MemoryPersister::new();
    let a = actor(&[1, 2, 3]);
    let b = actor(&[1, 2]);
    p.insert_changes(vec![(a.clone(), 1, vec![0; 5]), (b.clone(), 1, vec![0; 7])]).unwrap();
    p.set_document(vec![1; 11]).unwrap();
    p.set_sync_state(vec![9], vec![2; 3]).unwrap();
    p.set_sync_state(vec![8], vec![2; 4]).unwrap();
    assert_eq!(p.sizes(), StoredSizes { changes: 12, document: 11, sync_states: 7 });
    p.remove_changes(vec![(&a, 1)]).unwrap();
    p.set_sync_state(vec![9], vec![2; 1]).unwrap();
    assert_eq!(p.sizes(), StoredSizes { changes: 7, document: 11, sync_states: 5 });
    p.remove_sync_states(&[&[8u8][..], &[7u8][..]]).unwrap();
    p.remove_changes(vec![(&b, 1), (&b, 2)]).unwrap();
    p.set_document(Vec::new()).unwrap();
    assert_eq!(p.sizes(), StoredSizes { changes: 0, document: 0, sync_states: 1 });
}

#[test]
fn memory_document_is_replaced_not_added() {
    let mut p = MemoryPersister::new();
    p.set_document(vec![1, 2, 3, 4]).unwrap();
    p.set_document(vec![5, 6]).unwrap();
    assert_eq!(p.get_document().unwrap(), Some(vec![5, 6]));
    assert_eq!(p.sizes().document, 2);
}

#[test]
fn memory_removal_of_absent_identity_changes_nothing() {
    let mut p = MemoryPersister::new();
    let a = actor(b"actor");
    p.insert_changes(vec![(actor(b"other"), 3, vec![1, 2])]).unwrap();
    p.remove_changes(vec![(&a, 1)]).unwrap();
    assert_eq!(p.get_changes().unwrap(), vec![vec![1, 2]]);
    assert_eq!(p.sizes().changes, 2);
    p.insert_changes(vec![(a.clone(), 1, vec![7, 7, 7])]).unwrap();
    p.remove_changes(vec![(&a, 1)]).unwrap();
    p.remove_changes(vec![(&a, 1)]).unwrap();
    assert_eq!(p.get_changes().unwrap(), vec![vec![1, 2]]);
    assert_eq!(p.sizes().changes, 2);
}

#[test]
fn memory_same_actor_other_sequence_is_another_change() {
    let mut p = MemoryPersister::new();
    let a = actor(b"a");
    p.insert_changes(vec![(a.clone(), 1, vec![1]), (a.clone(), 2, vec![2, 2])]).unwrap();
    p.remove_changes(vec![(&a, 1)]).unwrap();
    assert_eq!(p.get_changes().unwrap(), vec![vec![2, 2]]);
}

#[test]
fn memory_document_round_trip() {
    let mut p = MemoryPersister::new();
    assert_eq!(p.get_document().unwrap(), None);
    p.set_document(vec![42]).unwrap();
    assert_eq!(p.get_document().unwrap(), Some(vec![42]));
    p.set_document(Vec::new()).unwrap();
    assert_eq!(p.get_document().unwrap(), None);
    assert_eq!(p.sizes().document, 0);
}

#[test]
fn memory_sync_state_round_trip() {
    let mut p = MemoryPersister::new();
    assert_eq!(p.get_sync_state(&[1, 2]).unwrap(), None);
    p.set_sync_state(vec![1, 2], vec![5, 6, 7]).unwrap();
    assert_eq!(p.get_sync_state(&[1, 2]).unwrap(), Some(vec![5, 6, 7]));
    assert_eq!(p.get_sync_state(&[1]).unwrap(), None);
    p.set_sync_state(vec![1, 2], Vec::new()).unwrap();
    assert_eq!(p.get_sync_state(&[1, 2]).unwrap(), None);
    assert_eq!(p.get_peer_ids().unwrap(), vec![vec![1, 2]]);
    assert_eq!(p.sizes().sync_states, 0);
}

#[test]
fn memory_peer_enumeration() {
    let mut p = MemoryPersister::new();
    p.set_sync_state(b"first".to_vec(), vec![1]).unwrap();
    p.set_sync_state(b"second".to_vec(), vec![2]).unwrap();
    p.remove_sync_states(&[&b"first"[..]]).unwrap();
    assert_eq!(p.get_peer_ids().unwrap(), vec![b"second".to_vec()]);
    assert_eq!(p.sizes().sync_states, 1);
}

#[test]
fn memory_peer_may_be_any_bytes() {
    let mut p = MemoryPersister::new();
    p.set_sync_state(vec![0, 255, 10], vec![1]).unwrap();
    p.set_sync_state(Vec::new(), vec![2, 2]).unwrap();
    let mut peers = p.get_peer_ids().unwrap();
    peers.sort();
    assert_eq!(peers, vec![Vec::new(), vec![0, 255, 10]]);
    assert_eq!(p.get_sync_state(&[]).unwrap(), Some(vec![2, 2]));
}

#[test]
fn memory_flush_writes_nothing() {
    let mut p = MemoryPersister::new();
    p.set_document(vec![1, 2]).unwrap();
    assert_eq!(p.flush().unwrap(), 0);
    assert_eq!(p.get_document().unwrap(), Some(vec![1, 2]));
    assert_eq!(p.sizes().document, 2);
}

#[test]
fn memory_tells_whether_a_batch_fits() {
    let mut p = MemoryPersister::new();
    p.insert_changes(vec![(actor(b"a"), 1, vec![0; 9])]).unwrap();
    assert!(p.can_insert(&vec![(actor(b"a"), 2, vec![0; 100]), (actor(b"b"), 1, Vec::new())]));
    assert!(p.can_insert(&Vec::new()));
    assert!(p.can_set_sync_state(&[1], 1000));
    p.set_sync_state(vec![1], vec![0; 4]).unwrap();
    assert!(p.can_set_sync_state(&[1], usize::MAX));
    assert!(!p.can_set_sync_state(&[2], usize::MAX));
    assert!(p.can_set_sync_state(&[2], usize::MAX - 4));
}
