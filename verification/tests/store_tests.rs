use media_ingest::store::{PathStore, StoreError};

fn fresh_location(tag: &str) -> String {
    let nanos = std::time::SystemTime::now()
        .duration_since(std::time::UNIX_EPOCH)
        .unwrap()
        .as_nanos();
    format!("/tmp/media_ingest_{}_{}", tag, nanos)
}

#[test]
fn insert_is_idempotent() {
    let name = fresh_location("store_idem");
    let mut store = PathStore::open(&name).unwrap();
    assert_eq!(store.size(), 0);
    store.insert("photos/a.jpg").unwrap();
    let after_first = store.size();
    assert_eq!(after_first, 1);
    store.insert("photos/a.jpg").unwrap();
    let after_second = store.size();
    assert_eq!(after_second, after_first);
}

#[test]
fn distinct_paths_grow_the_store() {
    let name = fresh_location("store_grow");
    let mut store = PathStore::open(&name).unwrap();
    store.insert("a.jpg").unwrap();
    store.insert("b.jpg").unwrap();
    store.insert("c.jpg").unwrap();
    assert_eq!(store.size(), 3);
}

#[test]
fn store_is_durable_across_reopen() {
    let name = fresh_location("store_durable");
    {
        let mut store = PathStore::open(&name).unwrap();
        store.insert("a.jpg").unwrap();
        store.insert("b.jpg").unwrap();
        assert_eq!(store.size(), 2);
    }
    let store = PathStore::open(&name).unwrap();
    assert_eq!(store.size(), 2);
}

#[test]
fn concurrent_open_of_same_location_fails() {
    let name = fresh_location("store_locked");
    let store = PathStore::open(&name).unwrap();
    let second = PathStore::open(&name);
    assert!(matches!(second, Err(StoreError::OpenFailed)));
    drop(store);
}

#[test]
fn unusable_location_reports_open_failure() {
    let r = PathStore::open("/tmp/media_ingest_bad\0location");
    assert!(matches!(r, Err(StoreError::OpenFailed)));
}
