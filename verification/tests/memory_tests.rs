use media_storage::memory::MemoryStorage;
use media_storage::storage::MediaStorage;

#[test]
fn test_memory_create_read_delete() {
    let mut storage = MemoryStorage::new();

    let key = b"test-key";
    let data = b"test-data";

    storage.create(key, data, 1000).unwrap();

    let read_data = storage.read(key).unwrap().unwrap();
    assert_eq!(read_data.as_slice(), data);

    assert!(storage.has_key(key).unwrap());

    let meta = storage.metadata(key).unwrap().unwrap();
    assert_eq!(meta.size, data.len() as u64);
    assert_eq!(meta.modified, 1000);

    storage.delete(key).unwrap();
    assert!(!storage.has_key(key).unwrap());

    assert!(storage.read(key).unwrap().is_none());
}

#[test]
fn test_memory_overwrite_replaces_content() {
    let mut storage = MemoryStorage::new();
    storage.create(b"k", b"first", 1).unwrap();
    storage.create(b"k", b"second", 2).unwrap();
    assert_eq!(storage.read(b"k").unwrap().unwrap(), b"second".to_vec());
    assert_eq!(storage.metadata(b"k").unwrap().unwrap().modified, 2);
    let keys = storage.list_keys().unwrap();
    assert_eq!(keys.len(), 1);
}

#[test]
fn test_memory_delete_is_idempotent() {
    let mut storage = MemoryStorage::new();
    // deleting a key that was never written succeeds
    assert!(storage.delete(b"absent").is_ok());
    assert!(storage.delete(b"absent").is_ok());

    storage.create(b"k", b"v", 1).unwrap();
    assert!(storage.delete(b"k").is_ok());
    assert!(storage.delete(b"k").is_ok());
    assert!(storage.read(b"k").unwrap().is_none());
}

#[test]
fn test_memory_list_keys() {
    let mut storage = MemoryStorage::new();
    storage.create(b"a", b"1", 1).unwrap();
    storage.create(b"b", b"2", 2).unwrap();
    storage.create(b"c", b"3", 3).unwrap();
    let keys = storage.list_keys().unwrap();
    assert_eq!(keys.len(), 3);
    assert!(keys.contains(&b"a".to_vec()));
    assert!(keys.contains(&b"b".to_vec()));
    assert!(keys.contains(&b"c".to_vec()));
}

#[test]
fn test_memory_read_absent_is_not_an_error() {
    let mut storage = MemoryStorage::new();
    let result = storage.read(b"never-written");
    assert!(result.is_ok());
    assert!(result.unwrap().is_none());
    assert!(storage.metadata(b"never-written").unwrap().is_none());
}
