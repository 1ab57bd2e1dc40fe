//! Configuration for the media-storage tier: which backend strategy is in
//! effect, where the filesystem store keeps its files, how to reach the
//! object store, and the policy knobs of the hybrid (tiered) backend.

use vstd::prelude::*;

verus! {

/// Which concrete backend the storage tier runs.
#[derive(Clone, Copy, Debug, PartialEq, Eq, Structural)]
pub enum StorageStrategy {
    /// Store media on the local filesystem only.
    Filesystem,
    /// Store media on the object store only.
    S3,
    /// Object store as the authoritative primary with a filesystem cache.
    HybridS3Primary,
}

/// Filesystem storage configuration.
#[derive(Clone, Debug)]
pub struct FilesystemStorageConfig {
    /// Root directory for media files; `None` means the embedding server's
    /// default media directory.
    pub path: Option<String>,
}

/// Object-store configuration: endpoint, bucket and credentials, plus an
/// optional name prefix applied to every stored object.
#[derive(Clone, Debug)]
pub struct S3StorageConfig {
    pub endpoint: String,
    pub bucket: String,
    pub region: String,
    pub access_key: String,
    pub secret_key: String,
    /// Optional prefix prepended to every object name.
    pub prefix: Option<String>,
    /// Force path-style URLs (needed by some S3-compatible servers).
    pub force_path_style: bool,
}

/// Policy of the hybrid backend, immutable for the backend's lifetime.
#[derive(Clone, Copy, Debug)]
pub struct HybridStrategyConfig {
    /// Also write each created blob to the secondary store.
    pub write_to_both: bool,
    /// On a cache miss, consult the primary store.
    pub read_fallback: bool,
    /// Repopulate the secondary store after a read served by the primary.
    pub cache_on_read: bool,
    /// Perform the secondary-side write of `create` as a detached task whose
    /// failure does not affect the caller's result.
    pub async_secondary_write: bool,
    /// Maximum age of a secondary entry in seconds; 0 disables expiry.
    pub cache_ttl_seconds: u64,
    /// Size budget of the secondary store in megabytes; 0 disables eviction.
    pub max_cache_size_mb: u64,
    /// Run the periodic cleanup task.
    pub enable_cleanup_task: bool,
    /// Seconds between cleanup passes.
    pub cleanup_interval_seconds: u64,
}

/// Top-level media storage configuration.
#[derive(Clone, Debug)]
pub struct MediaStorageConfig {
    pub strategy: StorageStrategy,
    pub filesystem: FilesystemStorageConfig,
    pub s3: Option<S3StorageConfig>,
    pub hybrid: HybridStrategyConfig,
}

pub fn default_true() -> (r: bool)
    ensures
        r,
{
    true
}

/// Default cache TTL: 24 hours.
pub fn default_cache_ttl() -> (r: u64)
    ensures
        r == 86400,
{
    86400
}

/// Default cache size budget: 10 GiB.
pub fn default_max_cache_size() -> (r: u64)
    ensures
        r == 10240,
{
    10240
}

/// Default cleanup interval: 1 hour.
pub fn default_cleanup_interval() -> (r: u64)
    ensures
        r == 3600,
{
    3600
}

pub fn default_storage_strategy() -> (r: StorageStrategy)
    ensures
        r == StorageStrategy::Filesystem,
{
    StorageStrategy::Filesystem
}

impl Default for FilesystemStorageConfig {
    fn default() -> (r: Self)
        ensures
            r.path is None,
    {
        FilesystemStorageConfig { path: None }
    }
}

impl Default for HybridStrategyConfig {
    fn default() -> (r: Self)
        ensures
            !r.write_to_both,
            r.read_fallback,
            r.cache_on_read,
            r.async_secondary_write,
            r.cache_ttl_seconds == 86400,
            r.max_cache_size_mb == 10240,
            r.enable_cleanup_task,
            r.cleanup_interval_seconds == 3600,
    {
        HybridStrategyConfig {
            write_to_both: false,
            read_fallback: default_true(),
            cache_on_read: default_true(),
            async_secondary_write: default_true(),
            cache_ttl_seconds: default_cache_ttl(),
            max_cache_size_mb: default_max_cache_size(),
            enable_cleanup_task: default_true(),
            cleanup_interval_seconds: default_cleanup_interval(),
        }
    }
}

impl Default for MediaStorageConfig {
    fn default() -> (r: Self)
        ensures
            r.strategy == StorageStrategy::Filesystem,
            r.filesystem.path is None,
            r.s3 is None,
            !r.hybrid.write_to_both,
            r.hybrid.read_fallback,
            r.hybrid.cache_on_read,
            r.hybrid.async_secondary_write,
            r.hybrid.cache_ttl_seconds == 86400,
            r.hybrid.max_cache_size_mb == 10240,
            r.hybrid.enable_cleanup_task,
            r.hybrid.cleanup_interval_seconds == 3600,
    {
        MediaStorageConfig {
            strategy: default_storage_strategy(),
            filesystem: FilesystemStorageConfig::default(),
            s3: None,
            hybrid: HybridStrategyConfig::default(),
        }
    }
}

/// Whether this strategy needs the object-store section of the configuration.
pub open spec fn strategy_needs_s3(strategy: StorageStrategy) -> bool {
    strategy == StorageStrategy::S3 || strategy == StorageStrategy::HybridS3Primary
}

impl MediaStorageConfig {
    /// A configuration is complete when every section its strategy needs is
    /// present; an incomplete one is a startup error, not a request error.
    pub fn is_complete(&self) -> (r: bool)
        ensures
            r == (strategy_needs_s3(self.strategy) ==> self.s3 is Some),
    {
        match self.strategy {
            StorageStrategy::Filesystem => true,
            StorageStrategy::S3 => self.s3.is_some(),
            StorageStrategy::HybridS3Primary => self.s3.is_some(),
        }
    }
}

} // verus!
