//! A pluggable media-storage tier: a uniform capability interface over
//! interchangeable blob stores, plus a composite backend that treats one
//! store as authoritative and another as a local cache with configurable
//! write-through, read fallback, TTL expiry and size-bounded eviction.

pub mod config;
pub mod filesystem;
pub mod hybrid;
pub mod janitor;
pub mod keys;
pub mod memory;
pub mod s3;
pub mod storage;
