use media_storage::config::HybridStrategyConfig;
use media_storage::hybrid::HybridStorage;
use media_storage::memory::MemoryStorage;
use media_storage::storage::{MediaStorage, StorageError, StorageMetadata};

/// A test double that counts how often each operation reaches it.
struct CountingBackend {
    inner: MemoryStorage,
    creates: u32,
    reads: u32,
    deletes: u32,
    probes: u32,
}

impl CountingBackend {
    fn new() -> Self {
        CountingBackend { inner: MemoryStorage::new(), creates: 0, reads: 0, deletes: 0, probes: 0 }
    }
}

impl MediaStorage for CountingBackend {
    fn create(&mut self, key: &[u8], data: &[u8], now: u64) -> Result<(), StorageError> {
        self.creates += 1;
        self.inner.create(key, data, now)
    }

    fn read(&mut self, key: &[u8]) -> Result<Option<Vec<u8>>, StorageError> {
        self.reads += 1;
        self.inner.read(key)
    }

    fn delete(&mut self, key: &[u8]) -> Result<(), StorageError> {
        self.deletes += 1;
        self.inner.delete(key)
    }

    fn has_key(&mut self, key: &[u8]) -> Result<bool, StorageError> {
        self.probes += 1;
        self.inner.has_key(key)
    }

    fn metadata(&mut self, key: &[u8]) -> Result<Option<StorageMetadata>, StorageError> {
        self.probes += 1;
        self.inner.metadata(key)
    }

    fn list_keys(&mut self) -> Result<Vec<Vec<u8>>, StorageError> {
        self.probes += 1;
        self.inner.list_keys()
    }
}

/// A test double whose deletions always fail.
struct FailingDelete {
    inner: MemoryStorage,
}

impl FailingDelete {
    fn new() -> Self {
        FailingDelete { inner: MemoryStorage::new() }
    }
}

impl MediaStorage for FailingDelete {
    fn create(&mut self, key: &[u8], data: &[u8], now: u64) -> Result<(), StorageError> {
        self.inner.create(key, data, now)
    }

    fn read(&mut self, key: &[u8]) -> Result<Option<Vec<u8>>, StorageError> {
        self.inner.read(key)
    }

    fn delete(&mut self, _key: &[u8]) -> Result<(), StorageError> {
        Err(StorageError::Backend { message: String::from("medium unreachable") })
    }

    fn has_key(&mut self, key: &[u8]) -> Result<bool, StorageError> {
        self.inner.has_key(key)
    }

    fn metadata(&mut self, key: &[u8]) -> Result<Option<StorageMetadata>, StorageError> {
        self.inner.metadata(key)
    }

    fn list_keys(&mut self) -> Result<Vec<Vec<u8>>, StorageError> {
        self.inner.list_keys()
    }
}

/// A test double whose read-side probes (read, existence, metadata) all
/// fail; writes and deletions still work.
struct FailingProbes(MemoryStorage);

impl MediaStorage for FailingProbes {
    fn create(&mut self, key: &[u8], data: &[u8], now: u64) -> Result<(), StorageError> {
        self.0.create(key, data, now)
    }
    fn read(&mut self, _key: &[u8]) -> Result<Option<Vec<u8>>, StorageError> {
        Err(StorageError::Backend { message: String::from("medium unreachable") })
    }
    fn delete(&mut self, key: &[u8]) -> Result<(), StorageError> {
        self.0.delete(key)
    }
    fn has_key(&mut self, _key: &[u8]) -> Result<bool, StorageError> {
        Err(StorageError::Backend { message: String::from("medium unreachable") })
    }
    fn metadata(&mut self, _key: &[u8]) -> Result<Option<StorageMetadata>, StorageError> {
        Err(StorageError::Backend { message: String::from("medium unreachable") })
    }
    fn list_keys(&mut self) -> Result<Vec<Vec<u8>>, StorageError> {
        self.0.list_keys()
    }
}

/// A test double whose writes always fail.
struct FailingCreate(MemoryStorage);

impl MediaStorage for FailingCreate {
    fn create(&mut self, _key: &[u8], _data: &[u8], _now: u64) -> Result<(), StorageError> {
        Err(StorageError::Backend { message: String::from("disk full") })
    }
    fn read(&mut self, key: &[u8]) -> Result<Option<Vec<u8>>, StorageError> {
        self.0.read(key)
    }
    fn delete(&mut self, key: &[u8]) -> Result<(), StorageError> {
        self.0.delete(key)
    }
    fn has_key(&mut self, key: &[u8]) -> Result<bool, StorageError> {
        self.0.has_key(key)
    }
    fn metadata(&mut self, key: &[u8]) -> Result<Option<StorageMetadata>, StorageError> {
        self.0.metadata(key)
    }
    fn list_keys(&mut self) -> Result<Vec<Vec<u8>>, StorageError> {
        self.0.list_keys()
    }
}

/// A test double whose metadata probe fails; reads still answer.
struct MetadataFails(MemoryStorage);

impl MediaStorage for MetadataFails {
    fn create(&mut self, key: &[u8], data: &[u8], now: u64) -> Result<(), StorageError> {
        self.0.create(key, data, now)
    }
    fn read(&mut self, key: &[u8]) -> Result<Option<Vec<u8>>, StorageError> {
        self.0.read(key)
    }
    fn delete(&mut self, key: &[u8]) -> Result<(), StorageError> {
        self.0.delete(key)
    }
    fn has_key(&mut self, key: &[u8]) -> Result<bool, StorageError> {
        self.0.has_key(key)
    }
    fn metadata(&mut self, _key: &[u8]) -> Result<Option<StorageMetadata>, StorageError> {
        Err(StorageError::Backend { message: String::from("medium unreachable") })
    }
    fn list_keys(&mut self) -> Result<Vec<Vec<u8>>, StorageError> {
        self.0.list_keys()
    }
}

fn policy() -> HybridStrategyConfig {
    HybridStrategyConfig {
        write_to_both: false,
        read_fallback: true,
        cache_on_read: true,
        async_secondary_write: true,
        cache_ttl_seconds: 86400,
        max_cache_size_mb: 10240,
        enable_cleanup_task: true,
        cleanup_interval_seconds: 3600,
    }
}

#[test]
fn test_hybrid_round_trip_dual_write() {
    let cfg = HybridStrategyConfig { write_to_both: true, ..policy() };
    let mut hybrid = HybridStorage::new(MemoryStorage::new(), MemoryStorage::new(), cfg);
    hybrid.create(b"k", b"payload", 100).unwrap();
    assert_eq!(hybrid.read(b"k", 100).unwrap().unwrap(), b"payload".to_vec());
}

#[test]
fn test_hybrid_round_trip_primary_only() {
    let mut hybrid = HybridStorage::new(MemoryStorage::new(), MemoryStorage::new(), policy());
    hybrid.create(b"k", b"payload", 100).unwrap();
    assert_eq!(hybrid.read(b"k", 100).unwrap().unwrap(), b"payload".to_vec());
}

#[test]
fn test_cache_miss_then_hit() {
    // primary-only writes with cache-on-read: the first read misses the
    // cache, is served by the primary and repopulates; the second read is a
    // cache hit that never reaches the primary
    let cfg = HybridStrategyConfig { cache_ttl_seconds: 3600, ..policy() };
    let mut hybrid = HybridStorage::new(CountingBackend::new(), MemoryStorage::new(), cfg);
    hybrid.create(b"abc", b"hello", 100).unwrap();
    assert_eq!(hybrid.primary.creates, 1);

    assert_eq!(hybrid.read(b"abc", 100).unwrap().unwrap(), b"hello".to_vec());
    assert_eq!(hybrid.primary.reads, 1);

    assert_eq!(hybrid.read(b"abc", 200).unwrap().unwrap(), b"hello".to_vec());
    assert_eq!(hybrid.primary.reads, 1);
    assert_eq!(hybrid.primary.probes, 0);
}

#[test]
fn test_dual_write_read_never_reaches_primary() {
    let cfg =
        HybridStrategyConfig { write_to_both: true, async_secondary_write: false, ..policy() };
    let mut hybrid = HybridStorage::new(CountingBackend::new(), MemoryStorage::new(), cfg);
    hybrid.create(b"k", b"data", 50).unwrap();
    assert_eq!(hybrid.read(b"k", 60).unwrap().unwrap(), b"data".to_vec());
    assert_eq!(hybrid.primary.reads, 0);
    assert_eq!(hybrid.primary.probes, 0);
}

#[test]
fn test_ttl_expired_entry_falls_through_to_primary() {
    let cfg = HybridStrategyConfig { write_to_both: true, cache_ttl_seconds: 10, ..policy() };
    let mut hybrid = HybridStorage::new(CountingBackend::new(), MemoryStorage::new(), cfg);
    hybrid.create(b"k", b"data", 100).unwrap();

    // within the TTL the cache serves
    assert_eq!(hybrid.read(b"k", 105).unwrap().unwrap(), b"data".to_vec());
    assert_eq!(hybrid.primary.reads, 0);

    // past the TTL the stale entry is never served: the primary answers
    assert_eq!(hybrid.read(b"k", 111).unwrap().unwrap(), b"data".to_vec());
    assert_eq!(hybrid.primary.reads, 1);
}

#[test]
fn test_ttl_expired_entry_without_fallback_is_absent() {
    let cfg = HybridStrategyConfig {
        write_to_both: true,
        read_fallback: false,
        cache_ttl_seconds: 10,
        ..policy()
    };
    let mut hybrid = HybridStorage::new(MemoryStorage::new(), MemoryStorage::new(), cfg);
    hybrid.create(b"k", b"data", 100).unwrap();
    assert!(hybrid.read(b"k", 111).unwrap().is_none());
    // the stale copy was deleted on the way through
    assert!(hybrid.secondary.read(b"k").unwrap().is_none());
}

#[test]
fn test_ttl_zero_never_expires() {
    let cfg = HybridStrategyConfig { write_to_both: true, cache_ttl_seconds: 0, ..policy() };
    let mut hybrid = HybridStorage::new(CountingBackend::new(), MemoryStorage::new(), cfg);
    hybrid.create(b"k", b"data", 100).unwrap();
    assert_eq!(hybrid.read(b"k", 1_000_000_000).unwrap().unwrap(), b"data".to_vec());
    assert_eq!(hybrid.primary.reads, 0);
}

#[test]
fn test_delete_succeeds_when_one_tier_fails() {
    let mut hybrid = HybridStorage::new(FailingDelete::new(), MemoryStorage::new(), policy());
    hybrid.secondary.create(b"k", b"v", 1).unwrap();
    assert!(hybrid.delete(b"k").is_ok());

    let mut hybrid2 = HybridStorage::new(MemoryStorage::new(), FailingDelete::new(), policy());
    hybrid2.primary.create(b"k", b"v", 1).unwrap();
    assert!(hybrid2.delete(b"k").is_ok());
}

#[test]
fn test_delete_fails_only_when_both_tiers_fail() {
    let mut hybrid = HybridStorage::new(FailingDelete::new(), FailingDelete::new(), policy());
    let result = hybrid.delete(b"k");
    match result {
        Err(StorageError::BothTiersFailed { .. }) => {},
        _ => panic!("a dual deletion failure must be reported as one"),
    }
}

#[test]
fn test_hybrid_delete_is_idempotent() {
    let mut hybrid = HybridStorage::new(MemoryStorage::new(), MemoryStorage::new(), policy());
    assert!(hybrid.delete(b"absent").is_ok());
    assert!(hybrid.delete(b"absent").is_ok());
    hybrid.create(b"k", b"v", 1).unwrap();
    assert!(hybrid.delete(b"k").is_ok());
    assert!(hybrid.delete(b"k").is_ok());
    assert!(hybrid.read(b"k", 2).unwrap().is_none());
}

#[test]
fn test_read_absent_key_is_not_an_error() {
    let mut hybrid = HybridStorage::new(MemoryStorage::new(), MemoryStorage::new(), policy());
    let result = hybrid.read(b"never-written", 100);
    assert!(result.is_ok());
    assert!(result.unwrap().is_none());
}

#[test]
fn test_has_key_consults_primary_only_on_fallback() {
    let mut hybrid = HybridStorage::new(MemoryStorage::new(), MemoryStorage::new(), policy());
    hybrid.primary.create(b"k", b"v", 1).unwrap();
    assert!(hybrid.has_key(b"k").unwrap());

    let cfg = HybridStrategyConfig { read_fallback: false, ..policy() };
    let mut walled = HybridStorage::new(MemoryStorage::new(), MemoryStorage::new(), cfg);
    walled.primary.create(b"k", b"v", 1).unwrap();
    assert!(!walled.has_key(b"k").unwrap());
}

#[test]
fn test_metadata_prefers_secondary() {
    let cfg = HybridStrategyConfig { cache_ttl_seconds: 10, ..policy() };
    let mut hybrid = HybridStorage::new(MemoryStorage::new(), MemoryStorage::new(), cfg);
    hybrid.primary.create(b"k", b"primary-bytes", 1).unwrap();
    hybrid.secondary.create(b"k", b"cache", 2).unwrap();
    // no expiry check here: even an old cache entry answers metadata
    let meta = hybrid.metadata(b"k").unwrap().unwrap();
    assert_eq!(meta.size, 5);
    assert_eq!(meta.modified, 2);
}

#[test]
fn test_list_keys_is_primary_only() {
    let mut hybrid = HybridStorage::new(MemoryStorage::new(), MemoryStorage::new(), policy());
    hybrid.create(b"in-primary", b"1", 1).unwrap();
    hybrid.secondary.create(b"only-cached", b"2", 2).unwrap();
    let keys = hybrid.list_keys().unwrap();
    assert_eq!(keys, vec![b"in-primary".to_vec()]);
}

#[test]
fn test_sync_secondary_write_failure_fails_create() {
    let cfg =
        HybridStrategyConfig { write_to_both: true, async_secondary_write: false, ..policy() };
    let mut strict =
        HybridStorage::new(MemoryStorage::new(), FailingCreate(MemoryStorage::new()), cfg);
    assert!(strict.create(b"k", b"v", 1).is_err());

    // the same failure is absorbed when the secondary write is detached
    let relaxed_cfg = HybridStrategyConfig { async_secondary_write: true, ..cfg };
    let mut relaxed = HybridStorage::new(
        MemoryStorage::new(),
        FailingCreate(MemoryStorage::new()),
        relaxed_cfg,
    );
    assert!(relaxed.create(b"k", b"v", 1).is_ok());
    assert_eq!(relaxed.read(b"k", 1).unwrap().unwrap(), b"v".to_vec());
}

#[test]
fn test_secondary_read_failure_is_absorbed() {
    // a failing secondary probe behaves as a cache miss: the primary serves
    let mut hybrid = HybridStorage::new(MemoryStorage::new(), FailingProbes(MemoryStorage::new()), policy());
    hybrid.primary.create(b"k", b"payload", 100).unwrap();
    assert_eq!(hybrid.read(b"k", 100).unwrap().unwrap(), b"payload".to_vec());
    // and an absent key is still an ordinary absence, not an error
    assert!(hybrid.read(b"missing", 100).unwrap().is_none());
}

#[test]
fn test_secondary_probe_failure_is_absorbed() {
    let mut hybrid = HybridStorage::new(MemoryStorage::new(), FailingProbes(MemoryStorage::new()), policy());
    hybrid.primary.create(b"k", b"payload", 100).unwrap();
    assert!(hybrid.has_key(b"k").unwrap());
    assert!(!hybrid.has_key(b"missing").unwrap());
    let meta = hybrid.metadata(b"k").unwrap().unwrap();
    assert_eq!(meta.size, 7);
    assert_eq!(meta.modified, 100);
    assert!(hybrid.metadata(b"missing").unwrap().is_none());
}

#[test]
fn test_secondary_probe_failure_without_fallback_is_absent() {
    let cfg = HybridStrategyConfig { read_fallback: false, ..policy() };
    let mut hybrid = HybridStorage::new(MemoryStorage::new(), FailingProbes(MemoryStorage::new()), cfg);
    hybrid.primary.create(b"k", b"payload", 100).unwrap();
    assert!(hybrid.read(b"k", 100).unwrap().is_none());
    assert!(!hybrid.has_key(b"k").unwrap());
    assert!(hybrid.metadata(b"k").unwrap().is_none());
}

#[test]
fn test_expiry_probe_failure_is_absorbed() {
    // the cache holds the key, but its freshness cannot be checked: the
    // entry is not served, and the primary answers
    let cfg = HybridStrategyConfig { cache_ttl_seconds: 10, ..policy() };
    let mut hybrid = HybridStorage::new(MemoryStorage::new(), MetadataFails(MemoryStorage::new()), cfg);
    hybrid.primary.create(b"k", b"fresh", 100).unwrap();
    hybrid.secondary.0.create(b"k", b"cached", 100).unwrap();
    assert_eq!(hybrid.read(b"k", 100).unwrap().unwrap(), b"fresh".to_vec());
}

#[test]
fn test_primary_only_create_touches_no_secondary() {
    // write_to_both off: a create reaches no method of the secondary
    let mut hybrid = HybridStorage::new(MemoryStorage::new(), CountingBackend::new(), policy());
    hybrid.create(b"k", b"v", 100).unwrap();
    assert_eq!(hybrid.secondary.creates, 0);
    assert_eq!(hybrid.secondary.reads, 0);
    assert_eq!(hybrid.secondary.deletes, 0);
    assert_eq!(hybrid.secondary.probes, 0);
}
