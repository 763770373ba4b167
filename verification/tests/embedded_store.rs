use automerge_persistent::actor::ActorId;
use automerge_persistent::embedded::{document_key, make_key};
use automerge_persistent::persister::present;

fn tree(name: &str) -> sled::Tree {
    let db = sled::Config::new().temporary(true).open().unwrap();
    db.open_tree(name).unwrap()
}

#[test]
fn embedded_keys_of_one_actor_come_out_of_the_store_in_sequence_order() {
    let changes = tree("changes");
    let actor = ActorId::from_bytes(vec![1, 2, 3]);
    for seq in [300u64, 2, 70000, 1, 255, 256] {
        changes.insert(make_key(&actor, seq), seq.to_string().into_bytes()).unwrap();
    }
    let stored: Vec<Vec<u8>> = changes.iter().values().map(|v| v.unwrap().to_vec()).collect();
    let expected: Vec<Vec<u8>> =
        [1u64, 2, 255, 256, 300, 70000].iter().map(|seq| seq.to_string().into_bytes()).collect();
    assert_eq!(stored, expected);
}

#[test]
fn embedded_store_keeps_changes_by_identity() {
    let changes = tree("changes");
    let a = ActorId::from_bytes(vec![1]);
    let b = ActorId::from_bytes(vec![1, 0]);
    changes.insert(make_key(&a, 1), vec![1]).unwrap();
    changes.insert(make_key(&b, 1), vec![2]).unwrap();
    changes.insert(make_key(&a, 1), vec![3]).unwrap();
    assert_eq!(changes.len(), 2);
    assert_eq!(changes.get(make_key(&a, 1)).unwrap().unwrap().to_vec(), vec![3]);
    changes.remove(make_key(&a, 1)).unwrap();
    changes.remove(make_key(&a, 1)).unwrap();
    assert_eq!(changes.len(), 1);
    assert_eq!(changes.get(make_key(&b, 1)).unwrap().unwrap().to_vec(), vec![2]);
}

#[test]
fn embedded_store_document_round_trip() {
    let documents = tree("document");
    let read = |t: &sled::Tree| t.get(document_key()).unwrap().and_then(|v| present(v.to_vec()));
    assert_eq!(read(&documents), None);
    documents.insert(document_key(), vec![1, 2, 3]).unwrap();
    documents.insert(document_key(), vec![4, 5]).unwrap();
    assert_eq!(read(&documents), Some(vec![4, 5]));
    documents.insert(document_key(), Vec::<u8>::new()).unwrap();
    assert_eq!(read(&documents), None);
}

#[test]
fn a_blob_reads_as_present_unless_it_is_empty() {
    assert_eq!(present(vec![0]), Some(vec![0]));
    assert_eq!(present(Vec::new()), None);
}
