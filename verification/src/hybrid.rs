//! The hybrid backend: a primary (authoritative) store composed with a
//! secondary (cache) store under a [`HybridStrategyConfig`].
//!
//! Every operation's outcome and its effect on both tiers is stated exactly
//! over the two stores' models, as pure functions of the policy, the two
//! [`StoreView`]s, the key and the clock.  The laws at the end of the module
//! prove the headline guarantees of the composition over those same
//! functions.

use vstd::prelude::*;

use crate::config::HybridStrategyConfig;
use crate::storage::{BlobSpec, MediaStorage, StorageError, StorageMetadata, StoreView};

verus! {

/// Whether a secondary entry written at `modified` is past its TTL at `now`.
/// A TTL of zero disables expiry; an entry from the future has age zero.
pub open spec fn stale(ttl: u64, now: u64, modified: u64) -> bool {
    ttl != 0 && now > modified && now - modified > ttl
}

/// Whether `create` performs the secondary write synchronously, tying the
/// caller's result to it.
pub open spec fn sync_secondary_write(cfg: HybridStrategyConfig) -> bool {
    cfg.write_to_both && !cfg.async_secondary_write
}

/// When a hybrid `create` succeeds: the primary write must succeed, and the
/// secondary write only when it is synchronous.
pub open spec fn create_succeeds(cfg: HybridStrategyConfig, p: StoreView, s: StoreView) -> bool {
    p.create_ok && (sync_secondary_write(cfg) ==> s.create_ok)
}

/// The primary's contents after a hybrid `create`.
pub open spec fn create_primary_contents(
    p: StoreView,
    key: Seq<u8>,
    data: Seq<u8>,
    now: u64,
) -> Map<Seq<u8>, BlobSpec> {
    if p.create_ok {
        p.contents.insert(key, BlobSpec { data, modified: now })
    } else {
        p.contents
    }
}

/// The secondary's contents after a hybrid `create`: written only when the
/// primary write succeeded, dual write is on, and the secondary accepts it —
/// whether the write was synchronous or detached.
pub open spec fn create_secondary_contents(
    cfg: HybridStrategyConfig,
    p: StoreView,
    s: StoreView,
    key: Seq<u8>,
    data: Seq<u8>,
    now: u64,
) -> Map<Seq<u8>, BlobSpec> {
    if p.create_ok && cfg.write_to_both && s.create_ok {
        s.contents.insert(key, BlobSpec { data, modified: now })
    } else {
        s.contents
    }
}

/// What a hybrid `read` answers.
pub enum ReadOutcome {
    /// A storage-I/O failure.
    Failed,
    /// The key is absent everywhere the policy allowed the read to look.
    Absent,
    /// The blob's bytes.
    Value(Seq<u8>),
}

/// Whether the secondary serves the read by itself: its probe answers, it
/// holds the key, and the entry is demonstrably within its TTL (or expiry
/// is disabled).  A failing secondary probe never serves: per the error
/// design, a secondary-side failure is absorbed, and the read behaves as a
/// cache miss.
pub open spec fn cache_serves(cfg: HybridStrategyConfig, s: StoreView, key: Seq<u8>, now: u64) -> bool {
    s.read_ok && s.contents.contains_key(key) && (cfg.cache_ttl_seconds == 0 || (s.metadata_ok
        && !stale(cfg.cache_ttl_seconds, now, s.contents[key].modified)))
}

/// The answer of the primary phase of a read, entered whenever the
/// secondary does not serve — a miss, a stale entry, or an absorbed
/// secondary-side failure.  Only a primary failure here fails the read.
pub open spec fn fallback_outcome(cfg: HybridStrategyConfig, p: StoreView, key: Seq<u8>) -> ReadOutcome {
    if !cfg.read_fallback {
        ReadOutcome::Absent
    } else if !p.read_ok {
        ReadOutcome::Failed
    } else if p.contents.contains_key(key) {
        ReadOutcome::Value(p.contents[key].data)
    } else {
        ReadOutcome::Absent
    }
}

/// The answer of a hybrid `read`: the secondary is probed first and serves a
/// fresh entry by itself; a stale entry is never served, and a failing
/// secondary-side probe is absorbed — both fall through to the primary
/// phase.
pub open spec fn read_outcome(
    cfg: HybridStrategyConfig,
    p: StoreView,
    s: StoreView,
    key: Seq<u8>,
    now: u64,
) -> ReadOutcome {
    if cache_serves(cfg, s, key, now) {
        ReadOutcome::Value(s.contents[key].data)
    } else {
        fallback_outcome(cfg, p, key)
    }
}

/// Whether the read found a stale entry and falls through past it.
pub open spec fn read_evicts_stale(
    cfg: HybridStrategyConfig,
    s: StoreView,
    key: Seq<u8>,
    now: u64,
) -> bool {
    s.read_ok && s.contents.contains_key(key) && cfg.cache_ttl_seconds != 0 && s.metadata_ok
        && stale(cfg.cache_ttl_seconds, now, s.contents[key].modified)
}

/// Whether the read consults the primary at all: exactly when the secondary
/// does not serve and fallback is enabled.  The fresh-cache fast path never
/// touches the primary.
pub open spec fn read_consults_primary(
    cfg: HybridStrategyConfig,
    s: StoreView,
    key: Seq<u8>,
    now: u64,
) -> bool {
    cfg.read_fallback && !cache_serves(cfg, s, key, now)
}

/// The secondary's contents after a hybrid `read`: a stale entry is deleted
/// (best effort), and a blob served by the primary repopulates the cache
/// when `cache_on_read` is set (best effort, detached).
pub open spec fn read_secondary_contents(
    cfg: HybridStrategyConfig,
    p: StoreView,
    s: StoreView,
    key: Seq<u8>,
    now: u64,
) -> Map<Seq<u8>, BlobSpec> {
    let evicted = if read_evicts_stale(cfg, s, key, now) && s.delete_ok {
        s.contents.remove(key)
    } else {
        s.contents
    };
    if read_consults_primary(cfg, s, key, now) && p.read_ok && p.contents.contains_key(key)
        && cfg.cache_on_read && s.create_ok {
        evicted.insert(key, BlobSpec { data: p.contents[key].data, modified: now })
    } else {
        evicted
    }
}

/// When a hybrid `delete` succeeds: only a failure of both tiers fails it.
pub open spec fn delete_succeeds(p: StoreView, s: StoreView) -> bool {
    p.delete_ok || s.delete_ok
}

/// One tier's contents after a hybrid `delete`.
pub open spec fn delete_tier_contents(v: StoreView, key: Seq<u8>) -> Map<Seq<u8>, BlobSpec> {
    if v.delete_ok {
        v.contents.remove(key)
    } else {
        v.contents
    }
}

/// Whether a hybrid `has_key` consults the primary: when the secondary's
/// probe does not answer that the key is present — a miss or an absorbed
/// probe failure — and fallback is enabled.
pub open spec fn exists_consults_primary(cfg: HybridStrategyConfig, s: StoreView, key: Seq<u8>) -> bool {
    cfg.read_fallback && !(s.exists_ok && s.contents.contains_key(key))
}

/// The same for `metadata`.
pub open spec fn metadata_consults_primary(
    cfg: HybridStrategyConfig,
    s: StoreView,
    key: Seq<u8>,
) -> bool {
    cfg.read_fallback && !(s.metadata_ok && s.contents.contains_key(key))
}

/// A primary and a secondary store composed under a policy.  The primary is
/// the durability source of truth; the secondary is a best-effort
/// accelerator that may lag or be empty without correctness impact.
pub struct HybridStorage<P: MediaStorage, S: MediaStorage> {
    pub primary: P,
    pub secondary: S,
    pub config: HybridStrategyConfig,
}

impl<P: MediaStorage, S: MediaStorage> HybridStorage<P, S> {
    pub open spec fn inv(&self) -> bool {
        self.primary.inv() && self.secondary.inv()
    }

    pub fn new(primary: P, secondary: S, config: HybridStrategyConfig) -> (r: Self)
        requires
            primary.inv(),
            secondary.inv(),
        ensures
            r.inv(),
            r.primary == primary,
            r.secondary == secondary,
            r.config == config,
    {
        HybridStorage { primary, secondary, config }
    }

    /// Store `data` under `key`: always in the primary, whose failure is the
    /// operation's failure; additionally in the secondary when dual write is
    /// on — synchronously (its failure then also fails the call) or as a
    /// detached write whose failure leaves the caller's result untouched.
    pub fn create(&mut self, key: &[u8], data: &[u8], now: u64) -> (r: Result<(), StorageError>)
        requires
            old(self).inv(),
        ensures
            final(self).inv(),
            final(self).config == old(self).config,
            final(self).primary.model().same_health(old(self).primary.model()),
            final(self).secondary.model().same_health(old(self).secondary.model()),
            r is Ok <==> create_succeeds(
                old(self).config,
                old(self).primary.model(),
                old(self).secondary.model(),
            ),
            final(self).primary.model().contents == create_primary_contents(
                old(self).primary.model(),
                key@,
                data@,
                now,
            ),
            final(self).secondary.model().contents == create_secondary_contents(
                old(self).config,
                old(self).primary.model(),
                old(self).secondary.model(),
                key@,
                data@,
                now,
            ),
            !old(self).primary.model().create_ok ==> final(self).secondary == old(self).secondary,
            !old(self).config.write_to_both ==> final(self).secondary == old(self).secondary,
            final(self).primary.model().ops == old(self).primary.model().ops + 1,
    {
        match self.primary.create(key, data, now) {
            Err(e) => Err(e),
            Ok(()) => {
                if self.config.write_to_both {
                    let secondary_result = self.secondary.create(key, data, now);
                    if self.config.async_secondary_write {
                        // Detached write: its failure is dropped here — the
                        // embedding runtime logs it — never surfaced to the
                        // caller.
                        Ok(())
                    } else {
                        secondary_result
                    }
                } else {
                    Ok(())
                }
            },
        }
    }

    /// Whether the secondary's entry for `key` is past its TTL.
    fn is_cache_expired(&mut self, key: &[u8], now: u64) -> (r: Result<bool, StorageError>)
        requires
            old(self).inv(),
        ensures
            final(self).inv(),
            final(self).config == old(self).config,
            final(self).primary == old(self).primary,
            final(self).secondary.model().same_health(old(self).secondary.model()),
            final(self).secondary.model().contents == old(self).secondary.model().contents,
            old(self).config.cache_ttl_seconds == 0 ==> r == Result::<bool, StorageError>::Ok(false)
                && final(self).secondary == old(self).secondary,
            old(self).config.cache_ttl_seconds != 0 ==> (
                r is Ok <==> old(self).secondary.model().metadata_ok
            ),
            r matches Ok(expired) ==> expired == (
                old(self).secondary.model().contents.contains_key(key@)
                && stale(
                    old(self).config.cache_ttl_seconds,
                    now,
                    old(self).secondary.model().contents[key@].modified,
                )
            ),
    {
        if self.config.cache_ttl_seconds == 0 {
            return Ok(false);
        }
        match self.secondary.metadata(key) {
            Err(e) => Err(e),
            Ok(Some(meta)) => {
                let age: u64 = if now > meta.modified {
                    now - meta.modified
                } else {
                    0
                };
                Ok(age > self.config.cache_ttl_seconds)
            },
            Ok(None) => Ok(false),
        }
    }

    /// Read `key`: probe the secondary first and serve a fresh entry without
    /// touching the primary; never serve a stale entry — delete it (best
    /// effort) and fall through; on a miss, a stale entry, or an absorbed
    /// secondary-side failure, consult the primary only when fallback is
    /// enabled, repopulating the cache when `cache_on_read` is set.  Only a
    /// primary failure fails the read; absence is an ordinary `Ok(None)`,
    /// never an error.
    pub fn read(&mut self, key: &[u8], now: u64) -> (r: Result<Option<Vec<u8>>, StorageError>)
        requires
            old(self).inv(),
        ensures
            final(self).inv(),
            final(self).config == old(self).config,
            final(self).primary.model().same_health(old(self).primary.model()),
            final(self).secondary.model().same_health(old(self).secondary.model()),
            final(self).primary.model().contents == old(self).primary.model().contents,
            final(self).secondary.model().contents == read_secondary_contents(
                old(self).config,
                old(self).primary.model(),
                old(self).secondary.model(),
                key@,
                now,
            ),
            match r {
                Ok(Some(data)) => read_outcome(
                    old(self).config,
                    old(self).primary.model(),
                    old(self).secondary.model(),
                    key@,
                    now,
                ) == ReadOutcome::Value(data@),
                Ok(None) => read_outcome(
                    old(self).config,
                    old(self).primary.model(),
                    old(self).secondary.model(),
                    key@,
                    now,
                ) == ReadOutcome::Absent,
                Err(_) => read_outcome(
                    old(self).config,
                    old(self).primary.model(),
                    old(self).secondary.model(),
                    key@,
                    now,
                ) == ReadOutcome::Failed,
            },
            !read_consults_primary(
                old(self).config,
                old(self).secondary.model(),
                key@,
                now,
            ) ==> final(self).primary == old(self).primary,
    {
        match self.secondary.read(key) {
            Err(_) => {
                // Absorbed: a secondary-side failure behaves as a cache
                // miss, and the primary phase answers.
            },
            Ok(Some(data)) => {
                match self.is_cache_expired(key, now) {
                    Err(_) => {
                        // Absorbed: freshness cannot be checked, so the
                        // entry is not served and the primary phase answers.
                    },
                    Ok(false) => return Ok(Some(data)),
                    Ok(true) => {
                        // Never serve stale bytes: drop the entry (best
                        // effort) and fall through to the primary.
                        let _ = self.secondary.delete(key);
                    },
                }
            },
            Ok(None) => {},
        }
        if !self.config.read_fallback {
            return Ok(None);
        }
        match self.primary.read(key) {
            Err(e) => Err(e),
            Ok(Some(data)) => {
                if self.config.cache_on_read {
                    // Detached repopulation: its failure is dropped here —
                    // the embedding runtime logs it — never surfaced to the
                    // caller.
                    let _ = self.secondary.create(key, data.as_slice(), now);
                }
                Ok(Some(data))
            },
            Ok(None) => Ok(None),
        }
    }

    /// Delete `key` from both tiers.  A single tier's failure is absorbed:
    /// the request is done once one copy is confirmed removed, and a later
    /// pass reconciles the other.  Only a failure of both tiers is reported,
    /// with both causes.
    pub fn delete(&mut self, key: &[u8]) -> (r: Result<(), StorageError>)
        requires
            old(self).inv(),
        ensures
            final(self).inv(),
            final(self).config == old(self).config,
            final(self).primary.model().same_health(old(self).primary.model()),
            final(self).secondary.model().same_health(old(self).secondary.model()),
            r is Ok <==> delete_succeeds(old(self).primary.model(), old(self).secondary.model()),
            r matches Err(e) ==> e is BothTiersFailed,
            final(self).primary.model().contents == delete_tier_contents(
                old(self).primary.model(),
                key@,
            ),
            final(self).secondary.model().contents == delete_tier_contents(
                old(self).secondary.model(),
                key@,
            ),
            final(self).primary.model().ops == old(self).primary.model().ops + 1,
            final(self).secondary.model().ops == old(self).secondary.model().ops + 1,
    {
        let primary_result = self.primary.delete(key);
        let secondary_result = self.secondary.delete(key);
        match (primary_result, secondary_result) {
            (Err(primary_err), Err(secondary_err)) => Err(StorageError::BothTiersFailed {
                primary_cause: primary_err.into_cause(),
                secondary_cause: secondary_err.into_cause(),
            }),
            _ => Ok(()),
        }
    }

    /// Whether `key` is stored: secondary first (fast path), primary only
    /// when the secondary does not answer that the key is present — a miss
    /// or an absorbed probe failure — and only when fallback is enabled.
    /// Never repopulates.
    pub fn has_key(&mut self, key: &[u8]) -> (r: Result<bool, StorageError>)
        requires
            old(self).inv(),
        ensures
            final(self).inv(),
            final(self).config == old(self).config,
            final(self).secondary.model().same_health(old(self).secondary.model()),
            final(self).secondary.model().contents == old(self).secondary.model().contents,
            final(self).primary.model().same_health(old(self).primary.model()),
            final(self).primary.model().contents == old(self).primary.model().contents,
            r is Ok <==> (exists_consults_primary(
                old(self).config,
                old(self).secondary.model(),
                key@,
            ) ==> old(self).primary.model().exists_ok),
            r matches Ok(present) ==> present == (
                (old(self).secondary.model().exists_ok
                    && old(self).secondary.model().contents.contains_key(key@))
                || (old(self).config.read_fallback
                    && old(self).primary.model().contents.contains_key(key@))
            ),
            !exists_consults_primary(
                old(self).config,
                old(self).secondary.model(),
                key@,
            ) ==> final(self).primary == old(self).primary,
    {
        match self.secondary.has_key(key) {
            Ok(true) => Ok(true),
            Ok(false) | Err(_) => {
                // an absorbed probe failure counts as a miss
                if self.config.read_fallback {
                    self.primary.has_key(key)
                } else {
                    Ok(false)
                }
            },
        }
    }

    /// Metadata of `key`: secondary first, primary when the secondary does
    /// not answer — a miss or an absorbed probe failure — and fallback is
    /// enabled.  No expiry check: a stale metadata read is acceptable; only
    /// blob content reads enforce freshness.
    pub fn metadata(&mut self, key: &[u8]) -> (r: Result<Option<StorageMetadata>, StorageError>)
        requires
            old(self).inv(),
        ensures
            final(self).inv(),
            final(self).config == old(self).config,
            final(self).secondary.model().same_health(old(self).secondary.model()),
            final(self).secondary.model().contents == old(self).secondary.model().contents,
            final(self).primary.model().same_health(old(self).primary.model()),
            final(self).primary.model().contents == old(self).primary.model().contents,
            r is Ok <==> (metadata_consults_primary(
                old(self).config,
                old(self).secondary.model(),
                key@,
            ) ==> old(self).primary.model().metadata_ok),
            r matches Ok(found) ==> match found {
                Some(meta) => {
                    if old(self).secondary.model().metadata_ok && old(
                        self,
                    ).secondary.model().contents.contains_key(key@) {
                        meta.size == old(self).secondary.model().contents[key@].data.len()
                            && meta.modified == old(self).secondary.model().contents[key@].modified
                    } else {
                        old(self).config.read_fallback
                            && old(self).primary.model().contents.contains_key(key@)
                            && meta.size == old(self).primary.model().contents[key@].data.len()
                            && meta.modified == old(self).primary.model().contents[key@].modified
                    }
                },
                None => !(old(self).secondary.model().metadata_ok && old(
                    self,
                ).secondary.model().contents.contains_key(key@)) && (old(
                    self,
                ).config.read_fallback ==> !old(self).primary.model().contents.contains_key(key@)),
            },
    {
        match self.secondary.metadata(key) {
            Ok(Some(meta)) => Ok(Some(meta)),
            Ok(None) | Err(_) => {
                // an absorbed probe failure counts as a miss
                if self.config.read_fallback {
                    self.primary.metadata(key)
                } else {
                    Ok(None)
                }
            },
        }
    }

    /// Every key of the primary: the secondary is a partial, transient view
    /// and is never treated as a source of truth for enumeration.
    pub fn list_keys(&mut self) -> (r: Result<Vec<Vec<u8>>, StorageError>)
        requires
            old(self).inv(),
        ensures
            final(self).inv(),
            final(self).config == old(self).config,
            final(self).secondary == old(self).secondary,
            final(self).primary.model().same_health(old(self).primary.model()),
            final(self).primary.model().contents == old(self).primary.model().contents,
            r is Ok <==> old(self).primary.model().list_ok,
            r matches Ok(keys) ==> (if old(self).primary.model().lists_all {
                crate::storage::key_listing_matches(
                    keys.deep_view(),
                    old(self).primary.model().contents.dom(),
                )
            } else {
                keys@.len() == 0
            }),
    {
        self.primary.list_keys()
    }

    /// One janitor pass over the secondary store, under this backend's
    /// policy: entries past the TTL are deleted, and the oldest survivors
    /// are evicted until the cache fits its size budget.  The primary is
    /// never touched, and nothing in the secondary is created or altered —
    /// deletions are all the pass does.
    pub fn clean_secondary(&mut self, now: u64) -> (r: crate::janitor::CleanupReport)
        requires
            old(self).inv(),
        ensures
            final(self).inv(),
            final(self).config == old(self).config,
            final(self).primary == old(self).primary,
            final(self).secondary.model().same_health(old(self).secondary.model()),
            forall|k: Seq<u8>| #[trigger]
                final(self).secondary.model().contents.contains_key(k) ==> old(
                    self,
                ).secondary.model().contents.contains_key(k)
                    && final(self).secondary.model().contents[k] == old(
                    self,
                ).secondary.model().contents[k],
            crate::janitor::janitor_effective(old(self).secondary.model())
                ==> crate::janitor::cleanup_outcome(
                old(self).secondary.model().contents,
                final(self).secondary.model().contents,
                r,
                now,
                old(self).config.cache_ttl_seconds,
                old(self).config.max_cache_size_mb,
            ),
            !old(self).secondary.model().list_ok ==> final(self).secondary.model().contents
                == old(self).secondary.model().contents && r.expired@.len() == 0
                && r.evicted@.len() == 0 && r.kept@.len() == 0,
    {
        crate::janitor::run_cleanup(
            &mut self.secondary,
            now,
            self.config.cache_ttl_seconds,
            self.config.max_cache_size_mb,
        )
    }
}

// ------------------------------------------------------------------
// Laws of the composition, proved over the same model functions the
// operations' contracts use.
// ------------------------------------------------------------------

/// Round trip: a blob just created under a key is exactly what a read of
/// that key returns, whenever the policy lets the read reach a tier the
/// create wrote — the cache was written too, or the read may fall back to
/// the primary past a cache that does not hold the key.
pub proof fn lemma_create_then_read_round_trip(
    cfg: HybridStrategyConfig,
    p: StoreView,
    s: StoreView,
    key: Seq<u8>,
    data: Seq<u8>,
    now: u64,
)
    requires
        p.create_ok,
        p.read_ok,
        s.read_ok,
        s.metadata_ok,
        (cfg.write_to_both && s.create_ok) || (cfg.read_fallback && !s.contents.contains_key(
            key,
        )),
    ensures
        read_outcome(
            cfg,
            p.with_contents(create_primary_contents(p, key, data, now)),
            s.with_contents(create_secondary_contents(cfg, p, s, key, data, now)),
            key,
            now,
        ) == ReadOutcome::Value(data),
{
}

/// Deletion is idempotent: it succeeds on an absent key, a second delete
/// right after a first succeeds as well, and deleting twice leaves each
/// tier exactly as deleting once does.
pub proof fn lemma_delete_idempotent(p: StoreView, s: StoreView, key: Seq<u8>)
    requires
        delete_succeeds(p, s),
    ensures
        delete_succeeds(
            p.with_contents(delete_tier_contents(p, key)),
            s.with_contents(delete_tier_contents(s, key)),
        ),
        delete_tier_contents(p.with_contents(delete_tier_contents(p, key)), key)
            == delete_tier_contents(p, key),
        delete_tier_contents(s.with_contents(delete_tier_contents(s, key)), key)
            == delete_tier_contents(s, key),
        !p.contents.contains_key(key) ==> delete_tier_contents(p, key) == p.contents,
        !s.contents.contains_key(key) ==> delete_tier_contents(s, key) == s.contents,
{
    assert(p.contents.remove(key).remove(key) =~= p.contents.remove(key));
    assert(s.contents.remove(key).remove(key) =~= s.contents.remove(key));
    if !p.contents.contains_key(key) {
        assert(p.contents.remove(key) =~= p.contents);
    }
    if !s.contents.contains_key(key) {
        assert(s.contents.remove(key) =~= s.contents);
    }
}

/// After a dual write of a blob, a read of its key within the TTL is a
/// cache hit: it returns the blob and does not consult the primary at all.
pub proof fn lemma_dual_write_then_cache_hit(
    cfg: HybridStrategyConfig,
    p: StoreView,
    s: StoreView,
    key: Seq<u8>,
    data: Seq<u8>,
    now: u64,
    later: u64,
)
    requires
        cfg.write_to_both,
        p.create_ok,
        s.create_ok,
        s.read_ok,
        s.metadata_ok,
        !stale(cfg.cache_ttl_seconds, later, now),
    ensures
        !read_consults_primary(
            cfg,
            s.with_contents(create_secondary_contents(cfg, p, s, key, data, now)),
            key,
            later,
        ),
        read_outcome(
            cfg,
            p.with_contents(create_primary_contents(p, key, data, now)),
            s.with_contents(create_secondary_contents(cfg, p, s, key, data, now)),
            key,
            later,
        ) == ReadOutcome::Value(data),
{
}

/// TTL expiry: a stale secondary entry is never served — the read's answer
/// is the primary phase's answer, which is the primary's blob when fallback
/// is enabled and an explicit absence when it is not.  With expiry disabled
/// (TTL zero) a present entry is always served, whatever its age; so is a
/// fresh one.
pub proof fn lemma_ttl_expiry(
    cfg: HybridStrategyConfig,
    p: StoreView,
    s: StoreView,
    key: Seq<u8>,
    now: u64,
)
    requires
        s.read_ok,
        s.metadata_ok,
        s.contents.contains_key(key),
    ensures
        stale(cfg.cache_ttl_seconds, now, s.contents[key].modified) ==> read_outcome(
            cfg,
            p,
            s,
            key,
            now,
        ) == fallback_outcome(cfg, p, key),
        stale(cfg.cache_ttl_seconds, now, s.contents[key].modified) && !cfg.read_fallback
            ==> read_outcome(cfg, p, s, key, now) == ReadOutcome::Absent,
        !stale(cfg.cache_ttl_seconds, now, s.contents[key].modified) ==> read_outcome(
            cfg,
            p,
            s,
            key,
            now,
        ) == ReadOutcome::Value(s.contents[key].data),
        cfg.cache_ttl_seconds == 0 ==> read_outcome(cfg, p, s, key, now)
            == ReadOutcome::Value(s.contents[key].data),
{
}

/// Absence is never an error: a read of a key held by neither tier answers
/// an explicit absence, whichever policy is in effect and whatever the
/// secondary's health.
pub proof fn lemma_absent_key_not_error(
    cfg: HybridStrategyConfig,
    p: StoreView,
    s: StoreView,
    key: Seq<u8>,
    now: u64,
)
    requires
        p.read_ok,
        !s.contents.contains_key(key),
        !p.contents.contains_key(key),
    ensures
        read_outcome(cfg, p, s, key, now) == ReadOutcome::Absent,
{
}

/// A secondary-side failure is absorbed: with fallback enabled and a
/// healthy primary, a read whose secondary probe fails is served by the
/// primary exactly as a cache miss would be — the failure never reaches
/// the caller.
pub proof fn lemma_secondary_failure_absorbed(
    cfg: HybridStrategyConfig,
    p: StoreView,
    s: StoreView,
    key: Seq<u8>,
    now: u64,
)
    requires
        !s.read_ok,
        cfg.read_fallback,
        p.read_ok,
    ensures
        p.contents.contains_key(key) ==> read_outcome(cfg, p, s, key, now)
            == ReadOutcome::Value(p.contents[key].data),
        !p.contents.contains_key(key) ==> read_outcome(cfg, p, s, key, now)
            == ReadOutcome::Absent,
{
}

} // verus!

