use media_storage::config::HybridStrategyConfig;
use media_storage::hybrid::HybridStorage;
use media_storage::janitor::{plan_cleanup, run_cleanup, CacheEntry};
use media_storage::memory::MemoryStorage;
use media_storage::storage::{MediaStorage, StorageError, StorageMetadata};

const MB: u64 = 1024 * 1024;

fn entry(key: &[u8], size: u64, modified: u64) -> CacheEntry {
    CacheEntry { key: key.to_vec(), size, modified }
}

#[test]
fn test_plan_evicts_exactly_the_oldest() {
    // 12 MB of live entries against an 8 MB budget: the two oldest go
    let entries = vec![
        entry(b"newest", 5 * MB, 30),
        entry(b"oldest", 3 * MB, 10),
        entry(b"middle", 4 * MB, 20),
    ];
    let plan = plan_cleanup(entries, 100, 0, 8);
    assert!(plan.expired.is_empty());
    let evicted: Vec<&[u8]> = plan.evicted.iter().map(|e| e.key.as_slice()).collect();
    assert_eq!(evicted, vec![b"oldest".as_slice(), b"middle".as_slice()]);
    let kept: Vec<&[u8]> = plan.kept.iter().map(|e| e.key.as_slice()).collect();
    assert_eq!(kept, vec![b"newest".as_slice()]);
}

#[test]
fn test_plan_keeps_everything_within_budget() {
    let entries = vec![entry(b"a", 2 * MB, 10), entry(b"b", 2 * MB, 20)];
    let plan = plan_cleanup(entries, 100, 0, 8);
    assert!(plan.expired.is_empty());
    assert!(plan.evicted.is_empty());
    assert_eq!(plan.kept.len(), 2);
}

#[test]
fn test_plan_zero_budget_never_evicts() {
    let entries = vec![entry(b"a", 900 * MB, 10), entry(b"b", 900 * MB, 20)];
    let plan = plan_cleanup(entries, 100, 0, 0);
    assert!(plan.evicted.is_empty());
    assert_eq!(plan.kept.len(), 2);
}

#[test]
fn test_plan_ttl_pass_precedes_size_pass() {
    // the expired entry alone brings the total under budget
    let entries = vec![
        entry(b"stale", 6 * MB, 10),
        entry(b"fresh-old", 3 * MB, 60),
        entry(b"fresh-new", 3 * MB, 70),
    ];
    let plan = plan_cleanup(entries, 100, 50, 8);
    let expired: Vec<&[u8]> = plan.expired.iter().map(|e| e.key.as_slice()).collect();
    assert_eq!(expired, vec![b"stale".as_slice()]);
    assert!(plan.evicted.is_empty());
    assert_eq!(plan.kept.len(), 2);
}

#[test]
fn test_plan_ttl_zero_expires_nothing() {
    let entries = vec![entry(b"ancient", MB, 1)];
    let plan = plan_cleanup(entries, u64::MAX, 0, 0);
    assert!(plan.expired.is_empty());
    assert_eq!(plan.kept.len(), 1);
}

#[test]
fn test_run_cleanup_enforces_ttl_and_budget() {
    let mut store = MemoryStorage::new();
    // a stale entry and three live ones totalling 1.2 MB against 1 MB
    store.create(b"stale", &vec![7u8; 100], 10).unwrap();
    store.create(b"live-old", &vec![1u8; 400_000], 75).unwrap();
    store.create(b"live-mid", &vec![2u8; 400_000], 80).unwrap();
    store.create(b"live-new", &vec![3u8; 400_000], 85).unwrap();

    let report = run_cleanup(&mut store, 100, 30, 1);

    assert_eq!(report.expired.len(), 1);
    assert_eq!(report.expired[0].key, b"stale".to_vec());
    assert_eq!(report.evicted.len(), 1);
    assert_eq!(report.evicted[0].key, b"live-old".to_vec());
    assert_eq!(report.kept.len(), 2);

    assert!(store.read(b"stale").unwrap().is_none());
    assert!(store.read(b"live-old").unwrap().is_none());
    assert!(store.read(b"live-mid").unwrap().is_some());
    assert!(store.read(b"live-new").unwrap().is_some());

    // the survivors fit the budget
    let total: u64 = report.kept.iter().map(|e| e.size).sum();
    assert!(total <= MB);
}

#[test]
fn test_run_cleanup_disabled_knobs_delete_nothing() {
    let mut store = MemoryStorage::new();
    store.create(b"a", &vec![0u8; 10], 1).unwrap();
    store.create(b"b", &vec![0u8; 10], 2).unwrap();
    let report = run_cleanup(&mut store, u64::MAX, 0, 0);
    assert!(report.expired.is_empty());
    assert!(report.evicted.is_empty());
    assert_eq!(report.kept.len(), 2);
    assert!(store.read(b"a").unwrap().is_some());
    assert!(store.read(b"b").unwrap().is_some());
}

#[test]
fn test_hybrid_clean_secondary_leaves_primary_alone() {
    let cfg = HybridStrategyConfig {
        write_to_both: true,
        read_fallback: true,
        cache_on_read: true,
        async_secondary_write: false,
        cache_ttl_seconds: 30,
        max_cache_size_mb: 1,
        enable_cleanup_task: true,
        cleanup_interval_seconds: 60,
    };
    let mut hybrid = HybridStorage::new(MemoryStorage::new(), MemoryStorage::new(), cfg);
    hybrid.create(b"stale", &vec![7u8; 100], 10).unwrap();
    hybrid.create(b"big-old", &vec![1u8; 700_000], 75).unwrap();
    hybrid.create(b"big-new", &vec![2u8; 700_000], 85).unwrap();

    let report = hybrid.clean_secondary(100);

    assert_eq!(report.expired.len(), 1);
    assert_eq!(report.evicted.len(), 1);
    assert_eq!(report.evicted[0].key, b"big-old".to_vec());
    assert_eq!(report.kept.len(), 1);

    // the cache was trimmed; the primary still holds everything
    assert!(hybrid.secondary.read(b"stale").unwrap().is_none());
    assert!(hybrid.secondary.read(b"big-old").unwrap().is_none());
    assert!(hybrid.secondary.read(b"big-new").unwrap().is_some());
    assert!(hybrid.primary.read(b"stale").unwrap().is_some());
    assert!(hybrid.primary.read(b"big-old").unwrap().is_some());
    assert!(hybrid.primary.read(b"big-new").unwrap().is_some());
}

/// A store that cannot enumerate its keys.
struct Unenumerable(MemoryStorage);

impl MediaStorage for Unenumerable {
    fn create(&mut self, key: &[u8], data: &[u8], now: u64) -> Result<(), StorageError> {
        self.0.create(key, data, now)
    }
    fn read(&mut self, key: &[u8]) -> Result<Option<Vec<u8>>, StorageError> {
        self.0.read(key)
    }
    fn delete(&mut self, key: &[u8]) -> Result<(), StorageError> {
        self.0.delete(key)
    }
    fn has_key(&mut self, key: &[u8]) -> Result<bool, StorageError> {
        self.0.has_key(key)
    }
    fn metadata(&mut self, key: &[u8]) -> Result<Option<StorageMetadata>, StorageError> {
        self.0.metadata(key)
    }
    fn list_keys(&mut self) -> Result<Vec<Vec<u8>>, StorageError> {
        Err(StorageError::Backend { message: String::from("listing unsupported") })
    }
}

#[test]
fn test_run_cleanup_tolerates_enumeration_failure() {
    let mut store = Unenumerable(MemoryStorage::new());
    store.0.create(b"k", &vec![0u8; 10], 1).unwrap();
    let report = run_cleanup(&mut store, u64::MAX, 1, 1);
    // enumeration failure means nothing to do, not a fatal condition
    assert!(report.expired.is_empty());
    assert!(report.evicted.is_empty());
    assert!(report.kept.is_empty());
    assert!(store.0.read(b"k").unwrap().is_some());
}
