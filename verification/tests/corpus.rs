use libafl_fuzzilli::corpus::CorpusStore;
use libafl_fuzzilli::errors::CoreError;

#[test]
fn add_assigns_sequential_ids_from_zero() {
    let mut store = CorpusStore::new();
    assert_eq!(store.count(), 0);
    assert_eq!(store.add(vec![1]).unwrap(), 0);
    assert_eq!(store.add(vec![2]).unwrap(), 1);
    assert_eq!(store.add(vec![3]).unwrap(), 2);
    assert_eq!(store.count(), 3);
    assert_eq!(store.first_id(), Some(0));
    assert_eq!(store.last_id(), Some(2));
}

#[test]
fn empty_store_has_no_ids() {
    let store = CorpusStore::new();
    assert_eq!(store.first_id(), None);
    assert_eq!(store.last_id(), None);
    assert_eq!(store.get(0).err(), Some(CoreError::NotFound));
}

#[test]
fn get_returns_the_stored_payload() {
    let mut store = CorpusStore::new();
    store.add(vec![10, 20]).unwrap();
    store.add(vec![30]).unwrap();
    assert_eq!(store.get(0).unwrap().bytes, vec![10, 20]);
    assert_eq!(store.get(1).unwrap().bytes, vec![30]);
    assert_eq!(store.get(2).err(), Some(CoreError::NotFound));
}

#[test]
fn ids_are_never_reused_after_removal() {
    let mut store = CorpusStore::new();
    store.add(vec![1]).unwrap();
    store.add(vec![2]).unwrap();
    let removed = store.remove(0).unwrap();
    assert_eq!(removed.id, 0);
    assert_eq!(removed.bytes, vec![1]);
    assert_eq!(store.get(0).err(), Some(CoreError::NotFound));
    assert_eq!(store.remove(0).err(), Some(CoreError::NotFound));
    // The freed id is not handed out again.
    assert_eq!(store.add(vec![3]).unwrap(), 2);
    assert_eq!(store.first_id(), Some(1));
    assert_eq!(store.last_id(), Some(2));
}

#[test]
fn iteration_follows_ascending_id_order() {
    let mut store = CorpusStore::new();
    store.add(vec![1]).unwrap();
    store.add(vec![2]).unwrap();
    store.add(vec![3]).unwrap();
    store.remove(1).unwrap();
    let mut ids = Vec::new();
    for i in 0..store.count() {
        ids.push(store.entry_at(i).id);
    }
    assert_eq!(ids, vec![0, 2]);
}

#[test]
fn successor_walks_ascending_ids() {
    let mut store = CorpusStore::new();
    store.add(vec![1]).unwrap();
    store.add(vec![2]).unwrap();
    store.add(vec![3]).unwrap();
    store.remove(1).unwrap();
    assert_eq!(store.successor_of(0), Some(2));
    assert_eq!(store.successor_of(1), Some(2));
    assert_eq!(store.successor_of(2), None);
}

#[test]
fn set_parent_records_lineage() {
    let mut store = CorpusStore::new();
    store.add(vec![1]).unwrap();
    store.add(vec![2]).unwrap();
    assert!(store.get(1).unwrap().parent_id.is_none());
    store.set_parent(1, Some(0)).unwrap();
    assert_eq!(store.get(1).unwrap().parent_id, Some(0));
    assert_eq!(store.set_parent(9, Some(0)).err(), Some(CoreError::NotFound));
}

#[test]
fn contains_bytes_matches_exact_payloads() {
    let mut store = CorpusStore::new();
    store.add(vec![1, 2, 3]).unwrap();
    assert!(store.contains_bytes(&[1, 2, 3]));
    assert!(!store.contains_bytes(&[1, 2]));
    assert!(!store.contains_bytes(&[]));
}
