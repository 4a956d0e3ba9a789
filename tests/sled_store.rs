use kvs::{KVStoreError, KvsEngine, SledKvStore};

#[test]
fn sled_store_set_get_remove() {
    let mut store = SledKvStore::open("/tmp/kvs_sled_store_test_db").unwrap();
    let _ = store.remove("key1".to_owned());
    store.set("key1".to_owned(), "value1".to_owned()).unwrap();
    assert_eq!(store.get("key1".to_owned()), Ok(Some("value1".to_owned())));
    store.set("key1".to_owned(), "value2".to_owned()).unwrap();
    assert_eq!(store.get("key1".to_owned()), Ok(Some("value2".to_owned())));
    assert_eq!(store.remove("key1".to_owned()), Ok(()));
    assert_eq!(store.get("key1".to_owned()), Ok(None));
    assert_eq!(store.remove("key1".to_owned()), Err(KVStoreError::KeyNotFound));
}

#[test]
fn removal_result_from_lookup() {
    assert_eq!(kvs::removal_result(false, Ok(())), Err(KVStoreError::KeyNotFound));
    assert_eq!(kvs::removal_result(true, Ok(())), Ok(()));
    let fault = kvs::removal_result(true, Err(sled::Error::Unsupported("no".to_owned())));
    assert!(matches!(fault, Err(KVStoreError::SledError(_))));
}

#[test]
fn sled_store_overwrite_and_reinsert() {
    let mut store = SledKvStore::open("/tmp/kvs_sled_store_overwrite_db").unwrap();
    let _ = store.remove("k".to_owned());
    assert_eq!(store.remove("k".to_owned()), Err(KVStoreError::KeyNotFound));
    store.set("k".to_owned(), "v1".to_owned()).unwrap();
    store.remove("k".to_owned()).unwrap();
    store.set("k".to_owned(), "ключ🙂".to_owned()).unwrap();
    assert_eq!(store.get("k".to_owned()), Ok(Some("ключ🙂".to_owned())));
}
