use coinflip::data_structures::cache::Cache;
use coinflip::data_structures::indexed_matrix::IndexedMatrix;
use coinflip::data_structures::indexed_store::IndexedStore;
use coinflip::data_structures::key_index::KeyIndex;

fn key(s: &str) -> String {
    s.to_string()
}

#[test]
fn cache_starts_empty_and_keeps_what_is_written() {
    let mut cache: Cache<u64> = Cache::new();
    assert!(cache.is_empty());
    assert_eq!(cache.read(), None);
    cache.write(7);
    assert!(!cache.is_empty());
    assert_eq!(cache.read(), Some(&7));
    assert_eq!(cache.clear(), Some(7));
    assert!(cache.is_empty());
}

#[test]
fn cache_with_init_holds_the_value() {
    let cache = Cache::with_init(3u64);
    assert_eq!(cache.read(), Some(&3));
}

#[test]
fn cache_write_if_fills_an_empty_cache() {
    let mut cache: Cache<u64> = Cache::new();
    let written = cache.write_if(10, |current: &u64, new: &u64| new < current);
    assert!(written);
    assert_eq!(cache.read(), Some(&10));
}

#[test]
fn cache_write_if_follows_the_predicate() {
    let mut cache = Cache::with_init(10u64);
    assert!(!cache.write_if(12, |current: &u64, new: &u64| new < current));
    assert_eq!(cache.read(), Some(&10));
    assert!(cache.write_if(4, |current: &u64, new: &u64| new < current));
    assert_eq!(cache.read(), Some(&4));
}

#[test]
fn cache_read_mut_changes_the_value() {
    let mut cache = Cache::with_init(1u64);
    if let Some(v) = cache.read_mut() {
        *v = 9;
    }
    assert_eq!(cache.read(), Some(&9));
}

#[test]
fn key_index_insert_get_remove() {
    let mut index: KeyIndex<u32> = KeyIndex::new();
    assert_eq!(index.get(&key("a")), None);
    index.insert(key("a"), 1);
    index.insert(key("b"), 2);
    assert_eq!(index.get(&key("a")), Some(1));
    assert_eq!(index.get(&key("b")), Some(2));
    index.insert(key("a"), 5);
    assert_eq!(index.get(&key("a")), Some(5));
    assert_eq!(index.remove(&key("a")), Some(5));
    assert_eq!(index.get(&key("a")), None);
    assert_eq!(index.remove(&key("a")), None);
    assert_eq!(index.get(&key("b")), Some(2));
    index.clear();
    assert_eq!(index.get(&key("b")), None);
}

#[test]
fn indexed_store_insert_and_get_mut() {
    let mut store: IndexedStore<u32> = IndexedStore::new();
    store.insert(key("x"), 10);
    store.insert(key("y"), 20);
    assert_eq!(store.len(), 2);
    assert_eq!(store.iter_data(), &[10, 20]);
    let entry = store.get_mut(&key("y")).unwrap();
    assert_eq!(entry.index, 1);
    *entry.data = 21;
    assert_eq!(store.iter_data(), &[10, 21]);
    assert!(store.get_mut(&key("z")).is_none());
}

#[test]
fn indexed_store_remove_moves_the_last_slot() {
    let mut store: IndexedStore<u32> = IndexedStore::with_capacity(4);
    store.insert(key("a"), 1);
    store.insert(key("b"), 2);
    store.insert(key("c"), 3);
    store.remove(&key("a"));
    assert_eq!(store.len(), 2);
    assert_eq!(store.iter_data(), &[3, 2]);
    let c = store.get_mut(&key("c")).unwrap();
    assert_eq!(c.index, 0);
    assert_eq!(*c.data, 3);
    assert!(store.get_mut(&key("a")).is_none());
    // removing a missing key changes nothing
    store.remove(&key("a"));
    assert_eq!(store.iter_data(), &[3, 2]);
}

#[test]
fn indexed_store_remove_last_and_clear() {
    let mut store: IndexedStore<u32> = IndexedStore::new();
    store.insert(key("a"), 1);
    store.insert(key("b"), 2);
    store.remove(&key("b"));
    assert_eq!(store.iter_data(), &[1]);
    assert_eq!(store.get_mut(&key("a")).unwrap().index, 0);
    store.clear();
    assert_eq!(store.len(), 0);
}

#[test]
fn indexed_store_update_data_at_replaces_one_slot() {
    let mut store: IndexedStore<u32> = IndexedStore::new();
    store.insert(key("a"), 1);
    store.insert(key("b"), 2);
    store.update_data_at(1, 5);
    assert_eq!(store.iter_data(), &[1, 5]);
}

#[test]
fn indexed_matrix_push_appends_to_the_row_of_its_key() {
    let mut m: IndexedMatrix<u32> = IndexedMatrix::new(4);
    assert!(m.has_room_for_new_key());
    m.push(&key("a"), 1);
    m.push(&key("b"), 2);
    m.push(&key("a"), 3);
    assert_eq!(m.get(&key("a")), Some(&vec![1, 3]));
    assert_eq!(m.get(&key("b")), Some(&vec![2]));
    assert_eq!(m.get(&key("c")), None);
}

#[test]
fn indexed_matrix_remove_frees_the_row() {
    let mut m: IndexedMatrix<u32> = IndexedMatrix::new(4);
    m.push(&key("a"), 1);
    m.push(&key("b"), 2);
    m.remove(&key("a"));
    assert_eq!(m.get(&key("a")), None);
    m.push(&key("c"), 7);
    assert_eq!(m.get(&key("c")), Some(&vec![7]));
    assert_eq!(m.get(&key("b")), Some(&vec![2]));
    // removing a key without a row changes nothing
    m.remove(&key("zz"));
    assert_eq!(m.get(&key("b")), Some(&vec![2]));
}

#[test]
fn indexed_matrix_holds_at_most_255_rows() {
    let mut m: IndexedMatrix<u32> = IndexedMatrix::new(0);
    for i in 0..255u32 {
        assert!(m.has_room_for_new_key());
        m.push(&format!("k{i}"), i);
    }
    assert!(!m.has_room_for_new_key());
    m.remove(&key("k3"));
    assert!(m.has_room_for_new_key());
}

#[test]
fn indexed_matrix_push_after_remove_starts_fresh() {
    let mut m: IndexedMatrix<u32> = IndexedMatrix::new(4);
    m.push(&key("a"), 1);
    m.push(&key("a"), 2);
    m.remove(&key("a"));
    assert!(m.has_room_for_new_key());
    m.push(&key("b"), 3);
    assert_eq!(m.get(&key("b")), Some(&vec![3]));
    assert!(m.get(&key("a")).is_none());
    m.push(&key("a"), 4);
    assert_eq!(m.get(&key("a")), Some(&vec![4]));
}

#[test]
fn indexed_matrix_full_then_freed() {
    let mut m: IndexedMatrix<u32> = IndexedMatrix::new(0);
    for i in 0..255u32 {
        m.push(&format!("k{i}"), i);
    }
    assert!(!m.has_room_for_new_key());
    m.remove(&key("k0"));
    assert!(m.has_room_for_new_key());
    m.push(&key("new"), 9);
    assert_eq!(m.get(&key("new")), Some(&vec![9]));
    assert!(!m.has_room_for_new_key());
}
