use automerge_persistent::actor::{ActorId, ChangeId};
use automerge_persistent::embedded;
use automerge_persistent::encoding::decimal_string;
use automerge_persistent::keyed::{copy_bytes, same_bytes, BlobMap, Key};
use automerge_persistent::sizes::{total_of, StoredSizes};

#[test]
fn decimal_of_small_and_large_numbers() {
    assert_eq!(decimal_string(0), "0");
    assert_eq!(decimal_string(7), "7");
    assert_eq!(decimal_string(10), "10");
    assert_eq!(decimal_string(1203), "1203");
    assert_eq!(decimal_string(u64::MAX), "18446744073709551615");
}

#[test]
fn actor_hex_is_lower_case_two_digits_per_byte() {
    assert_eq!(ActorId::from_bytes(vec![0, 1, 15, 16, 171, 255]).to_hex_string(), "00010f10abff");
    assert_eq!(ActorId::from_bytes(Vec::new()).to_hex_string(), "");
}

#[test]
fn actor_bytes_round_trip() {
    let a = ActorId::from_bytes(vec![3, 1, 4]);
    assert_eq!(a.to_bytes(), vec![3, 1, 4]);
    assert_eq!(a.clone(), a);
}

#[test]
fn change_ids_are_the_same_only_with_same_actor_and_sequence() {
    let a = ChangeId { actor: ActorId::from_bytes(vec![1]), seq: 1 };
    let b = ChangeId { actor: ActorId::from_bytes(vec![1]), seq: 2 };
    let c = ChangeId { actor: ActorId::from_bytes(vec![1, 0]), seq: 1 };
    assert!(a.same(&a.duplicate()));
    assert!(!a.same(&b));
    assert!(!a.same(&c));
}

#[test]
fn byte_helpers() {
    assert!(same_bytes(&[1, 2], &[1, 2]));
    assert!(!same_bytes(&[1, 2], &[1, 3]));
    assert!(!same_bytes(&[1, 2], &[1, 2, 3]));
    assert!(same_bytes(&[], &[]));
    assert_eq!(copy_bytes(&vec![5, 6]), vec![5, 6]);
}

#[test]
fn blob_map_insert_get_remove() {
    let mut m: BlobMap<String> = BlobMap::new();
    assert_eq!(m.len(), 0);
    assert_eq!(m.insert("a".to_owned(), vec![1]), None);
    assert_eq!(m.insert("b".to_owned(), vec![2, 2]), None);
    assert_eq!(m.insert("a".to_owned(), vec![3]), Some(vec![1]));
    assert_eq!(m.len(), 2);
    assert!(m.contains(&"a".to_owned()));
    assert_eq!(m.get(&"a".to_owned()), Some(&vec![3]));
    assert_eq!(m.get(&"c".to_owned()), None);
    assert_eq!(m.remove(&"a".to_owned()), Some(vec![3]));
    assert_eq!(m.remove(&"a".to_owned()), None);
    assert_eq!(m.keys(), &vec!["b".to_owned()]);
    assert_eq!(m.blobs(), &vec![vec![2, 2]]);
    assert_eq!(m.values(), vec![vec![2, 2]]);
}

#[test]
fn blob_map_removal_in_the_middle_keeps_the_rest() {
    let mut m: BlobMap<Vec<u8>> = BlobMap::new();
    m.insert(vec![1], vec![10]);
    m.insert(vec![2], vec![20]);
    m.insert(vec![3], vec![30]);
    assert_eq!(m.remove(&vec![1]), Some(vec![10]));
    assert_eq!(m.get(&vec![2]), Some(&vec![20]));
    assert_eq!(m.get(&vec![3]), Some(&vec![30]));
    assert_eq!(m.len(), 2);
}

#[test]
fn total_of_blobs() {
    assert_eq!(total_of(&vec![]), Some(0));
    assert_eq!(total_of(&vec![vec![1, 2], vec![], vec![3]]), Some(3));
}

#[test]
fn sizes_accounting_steps() {
    let mut s = StoredSizes::default();
    s.change_stored(None, 5);
    s.change_stored(Some(5), 2);
    s.change_stored(None, 4);
    assert_eq!(s.changes, 6);
    s.change_removed(4);
    assert_eq!(s.changes, 2);
    s.document_stored(9);
    s.document_stored(3);
    assert_eq!(s.document, 3);
    s.sync_state_stored(None, 8);
    s.sync_state_stored(Some(8), 1);
    s.sync_state_removed(1);
    assert_eq!(s, StoredSizes { changes: 2, document: 3, sync_states: 0 });
}

#[test]
fn embedded_key_is_actor_then_big_endian_sequence() {
    let a = ActorId::from_bytes(vec![0xaa, 0xbb]);
    assert_eq!(embedded::make_key(&a, 1), vec![0xaa, 0xbb, 0, 0, 0, 0, 0, 0, 0, 1]);
    assert_eq!(
        embedded::make_key(&a, 0x0102030405060708),
        vec![0xaa, 0xbb, 1, 2, 3, 4, 5, 6, 7, 8]
    );
    assert_eq!(embedded::make_key(&ActorId::from_bytes(Vec::new()), u64::MAX), vec![255; 8]);
}

#[test]
fn embedded_big_endian_bytes_match_std() {
    for n in [0u64, 1, 255, 256, 65535, 1 << 32, u64::MAX - 1, u64::MAX, 0x1122334455667788] {
        assert_eq!(embedded::to_be_bytes(n), n.to_be_bytes().to_vec());
    }
}

#[test]
fn embedded_keys_of_one_actor_sort_by_sequence() {
    let a = ActorId::from_bytes(vec![7, 7]);
    let seqs = [0u64, 1, 2, 255, 256, 257, 65536, 1 << 40, u64::MAX];
    for i in 0..seqs.len() {
        for j in 0..seqs.len() {
            let ki = embedded::make_key(&a, seqs[i]);
            let kj = embedded::make_key(&a, seqs[j]);
            assert_eq!(ki < kj, seqs[i] < seqs[j]);
        }
    }
}

#[test]
fn embedded_document_key() {
    assert_eq!(embedded::document_key(), b"document".to_vec());
}
