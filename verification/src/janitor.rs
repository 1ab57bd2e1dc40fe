//! The cache janitor: the periodic pass that keeps a hybrid backend's
//! secondary store within its TTL and size budget, proactively rather than
//! only lazily on read.
//!
//! A pass enumerates the secondary's entries, deletes every entry past its
//! TTL, and, if the survivors still exceed the size budget, deletes the
//! oldest-by-modification-time survivors until the total fits.  The planning
//! is pure and exact; the driver applies it to any store, never touches the
//! primary, treats an unenumerable store as nothing to do, and absorbs
//! per-key deletion failures instead of aborting the pass.

use vstd::multiset::Multiset;
use vstd::prelude::*;

use crate::hybrid::stale;
use crate::storage::{BlobSpec, MediaStorage, StoreView};

verus! {

broadcast use {vstd::seq_lib::group_filter_ensures, vstd::seq_lib::group_to_multiset_ensures};

/// One secondary entry as the janitor sees it: its key, its size in bytes
/// and the time it was last written.
pub struct CacheEntry {
    pub key: Vec<u8>,
    pub size: u64,
    pub modified: u64,
}

/// Whether the entry is past its TTL at `now`.
pub open spec fn entry_expired(e: CacheEntry, now: u64, ttl: u64) -> bool {
    stale(ttl, now, e.modified)
}

/// The summed sizes of a run of entries.
pub open spec fn total_size(s: Seq<CacheEntry>) -> int
    decreases s.len(),
{
    if s.len() == 0 {
        0
    } else {
        total_size(s.drop_last()) + s.last().size
    }
}

/// Nondecreasing modification times: oldest first.
pub open spec fn sorted_by_modified(s: Seq<CacheEntry>) -> bool {
    forall|i: int, j: int| 0 <= i < j < s.len() ==> s[i].modified <= s[j].modified
}

/// The size budget in bytes; a budget of zero disables eviction.
pub open spec fn size_budget_bytes(max_mb: u64) -> int {
    max_mb * 1024 * 1024
}

/// No two entries share a key.
pub open spec fn unique_entry_keys(s: Seq<CacheEntry>) -> bool {
    forall|i: int, j: int| 0 <= i < j < s.len() ==> s[i].key@ != s[j].key@
}

/// The keys of a run of entries.
pub open spec fn entry_key_set(s: Seq<CacheEntry>) -> Set<Seq<u8>> {
    Set::new(|k: Seq<u8>| exists|i: int| 0 <= i < s.len() && #[trigger] s[i].key@ == k)
}

proof fn lemma_total_size_add(a: Seq<CacheEntry>, b: Seq<CacheEntry>)
    ensures
        total_size(a + b) == total_size(a) + total_size(b),
    decreases b.len(),
{
    if b.len() == 0 {
        assert(a + b =~= a);
    } else {
        lemma_total_size_add(a, b.drop_last());
        assert((a + b).drop_last() =~= a + b.drop_last());
        assert((a + b).last() == b.last());
    }
}

proof fn lemma_total_size_bounds(s: Seq<CacheEntry>)
    ensures
        0 <= total_size(s) <= s.len() * 0xffff_ffff_ffff_ffff,
    decreases s.len(),
{
    if s.len() > 0 {
        lemma_total_size_bounds(s.drop_last());
    }
}

/// A run whose keys are pairwise distinct keeps that property when
/// filtered.
proof fn lemma_filter_unique_keys(s: Seq<CacheEntry>, pred: spec_fn(CacheEntry) -> bool)
    requires
        unique_entry_keys(s),
    ensures
        unique_entry_keys(s.filter(pred)),
    decreases s.len(),
{
    reveal(Seq::filter);
    if s.len() > 0 {
        assert(unique_entry_keys(s.drop_last())) by {
            assert(forall|i: int| 0 <= i < s.drop_last().len() ==> s.drop_last()[i] == s[i]);
        }
        lemma_filter_unique_keys(s.drop_last(), pred);
        lemma_filter_elements(s.drop_last(), pred);
        let f = s.filter(pred);
        let fsub = s.drop_last().filter(pred);
        if pred(s.last()) {
            assert forall|i: int, j: int| 0 <= i < j < f.len() implies f[i].key@ != f[j].key@ by {
                if j == f.len() - 1 {
                    assert(f[j] == s.last());
                    assert(f[i] == fsub[i]);
                    let m = choose|m: int|
                        0 <= m < s.drop_last().len() && s.drop_last()[m] == fsub[i];
                    assert(s[m] == fsub[i]);
                    assert(s[m].key@ != s[s.len() - 1].key@);
                }
            }
        }
    }
}

/// Two runs holding the same entries have distinct keys together or not at
/// all: uniqueness of keys survives any reordering.
proof fn lemma_unique_keys_permutation(a: Seq<CacheEntry>, b: Seq<CacheEntry>)
    requires
        a.to_multiset() == b.to_multiset(),
        unique_entry_keys(a),
    ensures
        unique_entry_keys(b),
{
    assert forall|i: int, j: int| 0 <= i < j < b.len() implies b[i].key@ != b[j].key@ by {
        if b[i].key@ == b[j].key@ {
            if b[i] == b[j] {
                let br = b.remove(j);
                assert(br.to_multiset() =~= b.to_multiset().remove(b[j]));
                assert(br[i] == b[i]);
                assert(br.contains(b[i]));
                assert(br.to_multiset().count(b[i]) > 0);
                assert(b.to_multiset().count(b[j]) > 0) by {
                    assert(b.contains(b[j]));
                }
                assert(b.to_multiset().remove(b[j]).count(b[i]) == b.to_multiset().count(b[i])
                    - 1);
                assert(b.to_multiset().count(b[i]) >= 2);
                assert(a.to_multiset().count(b[i]) >= 2);
                assert(a.contains(b[i]));
                let m = choose|m: int| 0 <= m < a.len() && a[m] == b[i];
                let ar = a.remove(m);
                assert(ar.to_multiset() =~= a.to_multiset().remove(a[m]));
                assert(ar.to_multiset().count(b[i]) >= 1);
                assert(ar.contains(b[i]));
                let m2 = choose|m2: int| 0 <= m2 < ar.len() && ar[m2] == b[i];
                let m2o: int = if m2 < m {
                    m2
                } else {
                    m2 + 1
                };
                assert(a[m2o] == b[i]);
                assert(m != m2o && a[m].key@ == a[m2o].key@);
            } else {
                assert(b.contains(b[i]) && b.contains(b[j]));
                assert(a.to_multiset().count(b[i]) > 0 && a.to_multiset().count(b[j]) > 0);
                assert(a.contains(b[i]) && a.contains(b[j]));
                let m = choose|m: int| 0 <= m < a.len() && a[m] == b[i];
                let m2 = choose|m2: int| 0 <= m2 < a.len() && a[m2] == b[j];
                assert(m != m2 && a[m].key@ == a[m2].key@);
            }
        }
    }
}

/// Every element of a filtered run is an element of the run.
proof fn lemma_filter_elements<A>(s: Seq<A>, pred: spec_fn(A) -> bool)
    ensures
        forall|i: int| 0 <= i < s.filter(pred).len() ==> s.contains(#[trigger] s.filter(pred)[i]),
    decreases s.len(),
{
    reveal(Seq::filter);
    if s.len() > 0 {
        lemma_filter_elements(s.drop_last(), pred);
        assert forall|i: int| 0 <= i < s.filter(pred).len() implies s.contains(
            #[trigger] s.filter(pred)[i],
        ) by {
            let f = s.filter(pred);
            let fsub = s.drop_last().filter(pred);
            if i < fsub.len() {
                let j = choose|j: int| 0 <= j < s.drop_last().len() && s.drop_last()[j] == fsub[i];
                assert(s[j] == f[i]);
            } else {
                assert(f[i] == s.last());
                assert(s[s.len() - 1] == s.last());
            }
        }
    }
}

/// Splitting a run at its TTL: the expired entries and the live ones, each
/// in their original order.
#[verifier::loop_isolation(false)]
fn partition_expired(entries: Vec<CacheEntry>, now: u64, ttl: u64) -> (r: (
    Vec<CacheEntry>,
    Vec<CacheEntry>,
))
    ensures
        r.0@ == entries@.filter(|e: CacheEntry| entry_expired(e, now, ttl)),
        r.1@ == entries@.filter(|e: CacheEntry| !entry_expired(e, now, ttl)),
{
    let ghost all = entries@;
    let ghost pred = |e: CacheEntry| entry_expired(e, now, ttl);
    let ghost npred = |e: CacheEntry| !entry_expired(e, now, ttl);
    let mut rest = entries;
    let mut expired: Vec<CacheEntry> = Vec::new();
    let mut live: Vec<CacheEntry> = Vec::new();
    let ghost mut done: Seq<CacheEntry> = Seq::empty();
    proof {
        assert(done + rest@ =~= all);
        reveal(Seq::filter);
    }
    while rest.len() > 0
        invariant
            all == done + rest@,
            expired@ == done.filter(pred),
            live@ == done.filter(npred),
        decreases rest@.len(),
    {
        let ghost done0 = done;
        let ghost rest0 = rest@;
        let e = rest.remove(0);
        let is_old = ttl != 0 && now > e.modified && now - e.modified > ttl;
        proof {
            reveal(Seq::filter);
            done = done0.push(e);
            assert(done.drop_last() =~= done0);
            assert(done + rest@ =~= all);
            assert(is_old == pred(e));
        }
        if is_old {
            expired.push(e);
        } else {
            live.push(e);
        }
    }
    proof {
        assert(done =~= all);
    }
    (expired, live)
}

/// Sorting by modification time, oldest first: the same entries, ordered.
#[verifier::loop_isolation(false)]
fn sort_entries(entries: Vec<CacheEntry>) -> (r: Vec<CacheEntry>)
    ensures
        sorted_by_modified(r@),
        r@.to_multiset() == entries@.to_multiset(),
{
    let ghost all = entries@;
    let mut rest = entries;
    let mut ordered: Vec<CacheEntry> = Vec::new();
    while rest.len() > 0
        invariant
            sorted_by_modified(ordered@),
            ordered@.to_multiset().add(rest@.to_multiset()) == all.to_multiset(),
        decreases rest@.len(),
    {
        let ghost rest0 = rest@;
        let ghost ordered0 = ordered@;
        let e = rest.remove(0);
        proof {
            assert(rest@ =~= rest0.remove(0));
            assert(rest0.remove(0).to_multiset() =~= rest0.to_multiset().remove(rest0[0]));
            assert(rest0.to_multiset().contains(rest0[0])) by {
                assert(rest0.contains(rest0[0]));
            }
        }
        let mut pos: usize = 0;
        while pos < ordered.len() && ordered[pos].modified <= e.modified
            invariant
                pos <= ordered@.len(),
                forall|j: int| 0 <= j < pos ==> ordered@[j].modified <= e.modified,
                ordered@ == ordered0,
            decreases ordered@.len() - pos,
        {
            pos += 1;
        }
        proof {
            let inserted = ordered0.insert(pos as int, e);
            assert(sorted_by_modified(inserted)) by {
                assert forall|i: int, j: int| 0 <= i < j < inserted.len() implies inserted[i].modified
                    <= inserted[j].modified by {
                    if i < pos && j == pos {
                    } else if i == pos && j > pos {
                        assert(inserted[j] == ordered0[j - 1]);
                        assert(ordered0[pos as int].modified <= ordered0[j - 1].modified);
                    }
                }
            }
            assert(inserted.remove(pos as int) =~= ordered0);
            assert(inserted.remove(pos as int).to_multiset() =~= inserted.to_multiset().remove(
                inserted[pos as int],
            ));
            assert(inserted.to_multiset().contains(e)) by {
                assert(inserted[pos as int] == e);
                assert(inserted.contains(e));
            }
            assert(inserted.to_multiset() =~= ordered0.to_multiset().insert(e));
            assert(inserted.to_multiset().add(rest@.to_multiset()) =~= all.to_multiset());
        }
        ordered.insert(pos, e);
    }
    proof {
        assert(rest@.to_multiset() =~= Multiset::empty());
        assert(ordered@.to_multiset() =~= all.to_multiset());
    }
    ordered
}

/// The exact size of a run of entries, for comparison against the budget.
#[verifier::loop_isolation(false)]
fn sum_sizes(entries: &Vec<CacheEntry>) -> (r: u128)
    ensures
        r == total_size(entries@),
{
    let n = entries.len();
    let mut acc: u128 = 0;
    for i in 0..n
        invariant
            n == entries@.len(),
            acc == total_size(entries@.take(i as int)),
            acc <= i * 0xffff_ffff_ffff_ffff,
    {
        proof {
            assert(entries@.take(i + 1).drop_last() =~= entries@.take(i as int));
            assert(entries@.take(i + 1).last() == entries@[i as int]);
            assert((i + 1) * 0xffff_ffff_ffff_ffff == i * 0xffff_ffff_ffff_ffff
                + 0xffff_ffff_ffff_ffff) by (nonlinear_arith);
            assert(i * 0xffff_ffff_ffff_ffff <= 0xffff_ffff_ffff_ffff * 0xffff_ffff_ffff_ffff)
                by (nonlinear_arith)
                requires i <= 0xffff_ffff_ffff_ffff;
        }
        acc = acc + entries[i].size as u128;
    }
    proof {
        assert(entries@.take(n as int) =~= entries@);
    }
    acc
}

/// Splitting sorted survivors at the size budget: the oldest prefix that
/// must go so that what is kept fits, and nothing more.
#[verifier::loop_isolation(false)]
fn split_eviction(sorted_entries: Vec<CacheEntry>, max_mb: u64) -> (r: (
    Vec<CacheEntry>,
    Vec<CacheEntry>,
))
    ensures
        r.0@ + r.1@ == sorted_entries@,
        max_mb != 0 ==> total_size(r.1@) <= size_budget_bytes(max_mb),
        max_mb != 0 && r.0@.len() > 0 ==> total_size(r.1@) + r.0@.last().size
            > size_budget_bytes(max_mb),
        max_mb == 0 ==> r.0@.len() == 0,
{
    let ghost all = sorted_entries@;
    if max_mb == 0 {
        let evicted: Vec<CacheEntry> = Vec::new();
        proof {
            assert(evicted@ + all =~= all);
        }
        return (evicted, sorted_entries);
    }
    let budget: u128 = (max_mb as u128) * 1024 * 1024;
    proof {
        assert(budget == size_budget_bytes(max_mb));
    }
    let mut remaining: u128 = sum_sizes(&sorted_entries);
    let n = sorted_entries.len();
    let mut cut: usize = 0;
    proof {
        assert(all.skip(0) =~= all);
    }
    while cut < n && remaining > budget
        invariant
            n == all.len(),
            cut <= n,
            budget == size_budget_bytes(max_mb),
            remaining == total_size(all.skip(cut as int)),
            cut > 0 ==> total_size(all.skip(cut as int)) + all[cut - 1].size > budget,
        decreases n - cut,
    {
        proof {
            let tail = all.skip(cut as int);
            assert(tail.len() > 0);
            assert(tail =~= seq![all[cut as int]] + all.skip(cut + 1));
            lemma_total_size_add(seq![all[cut as int]], all.skip(cut + 1));
            assert(seq![all[cut as int]].drop_last() =~= Seq::<CacheEntry>::empty());
            assert(total_size(Seq::<CacheEntry>::empty()) == 0);
            assert(total_size(seq![all[cut as int]]) == all[cut as int].size);
            lemma_total_size_bounds(all.skip(cut + 1));
        }
        remaining = remaining - sorted_entries[cut].size as u128;
        cut += 1;
    }
    let mut evicted = sorted_entries;
    let kept = evicted.split_off(cut);
    proof {
        assert(evicted@ + kept@ =~= all);
        assert(kept@ =~= all.skip(cut as int));
        if cut < n {
            assert(remaining <= budget);
        } else {
            assert(all.skip(n as int) =~= Seq::<CacheEntry>::empty());
        }
        if evicted@.len() > 0 {
            assert(evicted@.last() == all[cut - 1]);
        }
    }
    (evicted, kept)
}

/// What one cleanup pass decides: the entries past their TTL, the survivors
/// evicted for the size budget (oldest first), and the entries left behind.
pub struct CleanupPlan {
    pub expired: Vec<CacheEntry>,
    pub evicted: Vec<CacheEntry>,
    pub kept: Vec<CacheEntry>,
}

/// Decide one cleanup pass over a snapshot of the secondary's entries.
///
/// The expired list is exactly the entries past their TTL.  The survivors
/// are reordered oldest-first; the evicted list is the shortest prefix of
/// that order whose removal brings the kept total within the size budget,
/// so the evicted entries are exactly the oldest ones that had to go.
pub fn plan_cleanup(entries: Vec<CacheEntry>, now: u64, ttl: u64, max_mb: u64) -> (plan:
    CleanupPlan)
    requires
        unique_entry_keys(entries@),
    ensures
        plan.expired@ == entries@.filter(|e: CacheEntry| entry_expired(e, now, ttl)),
        (plan.evicted@ + plan.kept@).to_multiset() == entries@.filter(
            |e: CacheEntry| !entry_expired(e, now, ttl),
        ).to_multiset(),
        sorted_by_modified(plan.evicted@ + plan.kept@),
        forall|i: int| 0 <= i < plan.evicted@.len() ==> !entry_expired(
            #[trigger] plan.evicted@[i],
            now,
            ttl,
        ),
        forall|i: int| 0 <= i < plan.kept@.len() ==> !entry_expired(
            #[trigger] plan.kept@[i],
            now,
            ttl,
        ),
        max_mb != 0 ==> total_size(plan.kept@) <= size_budget_bytes(max_mb),
        max_mb != 0 && plan.evicted@.len() > 0 ==> total_size(plan.kept@)
            + plan.evicted@.last().size > size_budget_bytes(max_mb),
        max_mb == 0 ==> plan.evicted@.len() == 0,
        unique_entry_keys(plan.expired@),
        unique_entry_keys(plan.evicted@),
        unique_entry_keys(plan.kept@),
        forall|i: int, j: int|
            0 <= i < plan.expired@.len() && 0 <= j < plan.evicted@.len()
                ==> plan.expired@[i].key@ != plan.evicted@[j].key@,
        forall|i: int, j: int|
            0 <= i < plan.expired@.len() && 0 <= j < plan.kept@.len() ==> plan.expired@[i].key@
                != plan.kept@[j].key@,
        forall|i: int, j: int|
            0 <= i < plan.evicted@.len() && 0 <= j < plan.kept@.len() ==> plan.evicted@[i].key@
                != plan.kept@[j].key@,
        forall|i: int| 0 <= i < plan.expired@.len() ==> entries@.contains(
            #[trigger] plan.expired@[i],
        ),
        forall|i: int| 0 <= i < plan.evicted@.len() ==> entries@.contains(
            #[trigger] plan.evicted@[i],
        ),
        forall|i: int| 0 <= i < plan.kept@.len() ==> entries@.contains(#[trigger] plan.kept@[i]),
        forall|i: int|
            0 <= i < entries@.len() ==> plan.expired@.contains(#[trigger] entries@[i])
                || plan.evicted@.contains(entries@[i]) || plan.kept@.contains(entries@[i]),
{
    let ghost all = entries@;
    let ghost pred = |e: CacheEntry| entry_expired(e, now, ttl);
    let ghost npred = |e: CacheEntry| !entry_expired(e, now, ttl);
    let (expired, live) = partition_expired(entries, now, ttl);
    let ghost live_seq = live@;
    let sorted_live = sort_entries(live);
    let ghost sorted_seq = sorted_live@;
    let (evicted, kept) = split_eviction(sorted_live, max_mb);
    proof {
        let concat = evicted@ + kept@;
        assert(concat == sorted_seq);
        assert(concat.to_multiset() == live_seq.to_multiset());
        // keys stay pairwise distinct through filtering and reordering
        lemma_filter_unique_keys(all, pred);
        lemma_filter_unique_keys(all, npred);
        lemma_unique_keys_permutation(live_seq, concat);
        lemma_filter_elements(all, pred);
        lemma_filter_elements(all, npred);
        // every entry of the ordered survivors is a live entry of the input
        assert forall|i: int| 0 <= i < concat.len() implies live_seq.contains(
            #[trigger] concat[i],
        ) && all.contains(concat[i]) && !entry_expired(concat[i], now, ttl) by {
            assert(concat.contains(concat[i]));
            assert(concat.to_multiset().count(concat[i]) > 0);
            assert(live_seq.contains(concat[i]));
            let m = choose|m: int| 0 <= m < live_seq.len() && live_seq[m] == concat[i];
            assert(npred(live_seq[m]));
        }
        assert(forall|i: int| 0 <= i < evicted@.len() ==> #[trigger] evicted@[i] == concat[i]);
        assert(forall|j: int|
            0 <= j < kept@.len() ==> #[trigger] kept@[j] == concat[j + evicted@.len()]);
        assert(unique_entry_keys(evicted@));
        assert(unique_entry_keys(kept@));
        // an expired key cannot reappear among the survivors: the input
        // holds one entry per key, and that entry is on one side of the TTL
        assert forall|i: int, j: int|
            0 <= i < expired@.len() && 0 <= j < concat.len() implies expired@[i].key@
            != concat[j].key@ by {
            if expired@[i].key@ == concat[j].key@ {
                let a = choose|a: int| 0 <= a < all.len() && all[a] == expired@[i];
                let b = choose|b: int| 0 <= b < all.len() && all[b] == concat[j];
                assert(pred(expired@[i]));
                assert(a != b ==> all[a].key@ != all[b].key@);
                assert(a == b);
            }
        }
        // every input entry lands in exactly one of the three lists
        assert forall|i: int|
            0 <= i < all.len() implies expired@.contains(#[trigger] all[i]) || evicted@.contains(
            all[i],
        ) || kept@.contains(all[i]) by {
            if pred(all[i]) {
                assert(all.filter(pred).contains(all[i]));
            } else {
                assert(all.filter(npred).contains(all[i]));
                assert(live_seq.to_multiset().count(all[i]) > 0);
                assert(concat.contains(all[i]));
                let c = choose|c: int| 0 <= c < concat.len() && concat[c] == all[i];
                if c < evicted@.len() {
                    assert(evicted@[c] == all[i]);
                } else {
                    assert(kept@[c - evicted@.len()] == all[i]);
                }
            }
        }
    }
    CleanupPlan { expired, evicted, kept }
}

/// Whether each gathered entry describes a blob the store holds.
pub open spec fn entries_match_store(s: Seq<CacheEntry>, m: Map<Seq<u8>, BlobSpec>) -> bool {
    forall|i: int|
        0 <= i < s.len() ==> m.contains_key(#[trigger] s[i].key@) && s[i].size
            == m[s[i].key@].data.len() && s[i].modified == m[s[i].key@].modified
}

/// Whether the gathered entries are the store, one entry per key.
pub open spec fn entries_cover_store(s: Seq<CacheEntry>, m: Map<Seq<u8>, BlobSpec>) -> bool {
    &&& entries_match_store(s, m)
    &&& unique_entry_keys(s)
    &&& forall|k: Seq<u8>| m.contains_key(k) ==> entry_key_set(s).contains(k)
}

/// Whether a pass over this store can do its full job: the store enumerates
/// all its keys and serves every probe and deletion.
pub open spec fn janitor_effective(v: StoreView) -> bool {
    v.list_ok && v.lists_all && v.metadata_ok && v.delete_ok
}

/// Snapshot the store's entries with their sizes and ages.  A store that
/// cannot enumerate is nothing to do for this pass; a key whose metadata
/// probe fails or finds nothing is skipped.
#[verifier::loop_isolation(false)]
fn gather_entries<S: MediaStorage>(store: &mut S) -> (r: Option<Vec<CacheEntry>>)
    requires
        old(store).inv(),
    ensures
        final(store).inv(),
        final(store).model().same_health(old(store).model()),
        final(store).model().contents == old(store).model().contents,
        r is Some <==> old(store).model().list_ok,
        r matches Some(entries) ==> entries_match_store(
            entries@,
            old(store).model().contents,
        ) && unique_entry_keys(entries@),
        r matches Some(entries) ==> ((old(store).model().lists_all
            && old(store).model().metadata_ok) ==> entries_cover_store(
            entries@,
            old(store).model().contents,
        )),
{
    let keys = match store.list_keys() {
        Err(_) => return None,
        Ok(keys) => keys,
    };
    let ghost m0 = old(store).model().contents;
    let ghost listed = keys.deep_view();
    let mut entries: Vec<CacheEntry> = Vec::new();
    let n = keys.len();
    for i in 0..n
        invariant
            n == keys@.len(),
            store.inv(),
            store.model().same_health(old(store).model()),
            store.model().contents == m0,
            entries_match_store(entries@, m0),
            old(store).model().metadata_ok ==> (entries@.len() == i && forall|a: int|
                0 <= a < i ==> #[trigger] entries@[a].key@ == listed[a]),
            !old(store).model().metadata_ok ==> entries@.len() == 0,
    {
        proof {
            assert(listed[i as int] =~= keys@[i as int]@);
            if !old(store).model().lists_all {
                assert(keys@.len() == 0);
            }
        }
        let ghost entries0 = entries@;
        match store.metadata(keys[i].as_slice()) {
            Ok(Some(meta)) => {
                let entry = CacheEntry {
                    key: vstd::slice::slice_to_vec(keys[i].as_slice()),
                    size: meta.size,
                    modified: meta.modified,
                };
                entries.push(entry);
                proof {
                    assert(entries@[i as int].key@ == listed[i as int]);
                    assert(forall|a: int|
                        0 <= a < entries0.len() ==> #[trigger] entries@[a] == entries0[a]);
                }
            },
            _ => {
                proof {
                    if old(store).model().metadata_ok {
                        // a served probe that found nothing: the key is gone,
                        // which an authoritative listing rules out
                        assert(!m0.contains_key(keys@[i as int]@));
                        assert(crate::storage::key_listing_matches(listed, m0.dom()));
                        assert(m0.dom().contains(listed[i as int]));
                    }
                }
            },
        }
    }
    proof {
        let es = entries@;
        if old(store).model().metadata_ok {
            if old(store).model().lists_all {
                // one entry per listed key, and the listing repeats none
                assert forall|a: int, b: int| 0 <= a < b < es.len() implies es[a].key@
                    != es[b].key@ by {
                    assert(listed[a] != listed[b]);
                }
                assert forall|k: Seq<u8>| m0.contains_key(k) implies entry_key_set(es).contains(
                    k,
                ) by {
                    assert(listed.contains(k));
                    let j = choose|j: int| 0 <= j < listed.len() && listed[j] == k;
                    assert(es[j].key@ == k);
                }
            } else {
                assert(keys@.len() == 0);
                assert(unique_entry_keys(es));
            }
        } else {
            assert(unique_entry_keys(es));
        }
    }
    Some(entries)
}

/// What one cleanup pass did: the entries it deleted for TTL, the entries
/// it evicted for the size budget, and the entries it left behind.
pub struct CleanupReport {
    pub expired: Vec<CacheEntry>,
    pub evicted: Vec<CacheEntry>,
    pub kept: Vec<CacheEntry>,
}

impl CleanupReport {
    /// A pass that had nothing to look at.
    fn idle() -> (r: Self)
        ensures
            r.expired@.len() == 0,
            r.evicted@.len() == 0,
            r.kept@.len() == 0,
    {
        CleanupReport { expired: Vec::new(), evicted: Vec::new(), kept: Vec::new() }
    }
}

/// Everything a completed pass guarantees of a store that could do its
/// full job: what is kept mirrors the store exactly and fits the size
/// budget, every entry past its TTL is gone, and the evicted survivors are
/// exactly the oldest ones that had to go.
pub open spec fn cleanup_outcome(
    before: Map<Seq<u8>, BlobSpec>,
    after: Map<Seq<u8>, BlobSpec>,
    r: CleanupReport,
    now: u64,
    ttl: u64,
    max_mb: u64,
) -> bool {
    &&& entries_cover_store(r.kept@, after)
    &&& (max_mb != 0 ==> total_size(r.kept@) <= size_budget_bytes(max_mb))
    &&& (forall|k: Seq<u8>| #[trigger]
        before.contains_key(k) && stale(ttl, now, before[k].modified) ==> !after.contains_key(k))
    &&& (forall|i: int, j: int|
        0 <= i < r.evicted@.len() && 0 <= j < r.kept@.len() ==> r.evicted@[i].modified
            <= r.kept@[j].modified)
    &&& (forall|i: int| 0 <= i < r.evicted@.len() ==> !entry_expired(
        #[trigger] r.evicted@[i],
        now,
        ttl,
    ))
    &&& (max_mb != 0 && r.evicted@.len() > 0 ==> total_size(r.kept@) + r.evicted@.last().size
        > size_budget_bytes(max_mb))
    &&& (max_mb == 0 ==> r.evicted@.len() == 0)
}

/// One pass of the janitor over a hybrid backend's secondary store: delete
/// every entry past `ttl`, then evict the oldest survivors until the total
/// fits in `max_mb`.  The pass never touches any other store, treats an
/// unenumerable secondary as nothing to do, absorbs every per-key failure,
/// and never creates or alters an entry — deletions are all it does.
#[verifier::loop_isolation(false)]
pub fn run_cleanup<S: MediaStorage>(store: &mut S, now: u64, ttl: u64, max_mb: u64) -> (r:
    CleanupReport)
    requires
        old(store).inv(),
    ensures
        final(store).inv(),
        final(store).model().same_health(old(store).model()),
        forall|k: Seq<u8>| #[trigger]
            final(store).model().contents.contains_key(k) ==> old(
                store,
            ).model().contents.contains_key(k) && final(store).model().contents[k] == old(
                store,
            ).model().contents[k],
        janitor_effective(old(store).model()) ==> cleanup_outcome(
            old(store).model().contents,
            final(store).model().contents,
            r,
            now,
            ttl,
            max_mb,
        ),
        !old(store).model().list_ok ==> final(store).model().contents == old(
            store,
        ).model().contents && r.expired@.len() == 0 && r.evicted@.len() == 0 && r.kept@.len()
            == 0,
{
    let ghost m0 = old(store).model().contents;
    let ghost effective = janitor_effective(old(store).model());
    let entries = match gather_entries(store) {
        None => return CleanupReport::idle(),
        Some(entries) => entries,
    };
    let ghost gathered = entries@;
    let plan = plan_cleanup(entries, now, ttl, max_mb);
    let ghost expired_keys = entry_key_set(plan.expired@);
    let ghost evicted_keys = entry_key_set(plan.evicted@);
    let en = plan.expired.len();
    for i in 0..en
        invariant
            en == plan.expired@.len(),
            store.inv(),
            store.model().same_health(old(store).model()),
            forall|k: Seq<u8>| #[trigger]
                store.model().contents.contains_key(k) ==> m0.contains_key(k)
                    && store.model().contents[k] == m0[k],
            effective ==> store.model().contents == m0.remove_keys(
                entry_key_set(plan.expired@.take(i as int)),
            ),
    {
        let ghost before = store.model().contents;
        let _ = store.delete(plan.expired[i].key.as_slice());
        proof {
            if effective {
                assert(store.model().contents == before.remove(plan.expired@[i as int].key@));
                assert(entry_key_set(plan.expired@.take(i + 1)) =~= entry_key_set(
                    plan.expired@.take(i as int),
                ).insert(plan.expired@[i as int].key@)) by {
                    assert forall|k: Seq<u8>|
                        entry_key_set(plan.expired@.take(i + 1)).contains(k) implies entry_key_set(
                        plan.expired@.take(i as int),
                    ).insert(plan.expired@[i as int].key@).contains(k) by {
                        let a = choose|a: int|
                            0 <= a < i + 1 && #[trigger] plan.expired@.take(i + 1)[a].key@ == k;
                        if a < i {
                            assert(plan.expired@.take(i as int)[a].key@ == k);
                        }
                    }
                    assert forall|k: Seq<u8>|
                        entry_key_set(plan.expired@.take(i as int)).insert(
                            plan.expired@[i as int].key@,
                        ).contains(k) implies entry_key_set(plan.expired@.take(i + 1)).contains(
                        k,
                    ) by {
                        if k == plan.expired@[i as int].key@ {
                            assert(plan.expired@.take(i + 1)[i as int].key@ == k);
                        } else {
                            let a = choose|a: int|
                                0 <= a < i && #[trigger] plan.expired@.take(i as int)[a].key@ == k;
                            assert(plan.expired@.take(i + 1)[a].key@ == k);
                        }
                    }
                }
                assert(store.model().contents =~= m0.remove_keys(
                    entry_key_set(plan.expired@.take(i + 1)),
                ));
            }
        }
    }
    proof {
        assert(plan.expired@.take(en as int) =~= plan.expired@);
    }
    let vn = plan.evicted.len();
    for i in 0..vn
        invariant
            vn == plan.evicted@.len(),
            store.inv(),
            store.model().same_health(old(store).model()),
            forall|k: Seq<u8>| #[trigger]
                store.model().contents.contains_key(k) ==> m0.contains_key(k)
                    && store.model().contents[k] == m0[k],
            effective ==> store.model().contents == m0.remove_keys(
                expired_keys.union(entry_key_set(plan.evicted@.take(i as int))),
            ),
    {
        let ghost before = store.model().contents;
        let _ = store.delete(plan.evicted[i].key.as_slice());
        proof {
            if effective {
                assert(store.model().contents == before.remove(plan.evicted@[i as int].key@));
                assert(entry_key_set(plan.evicted@.take(i + 1)) =~= entry_key_set(
                    plan.evicted@.take(i as int),
                ).insert(plan.evicted@[i as int].key@)) by {
                    assert forall|k: Seq<u8>|
                        entry_key_set(plan.evicted@.take(i + 1)).contains(k) implies entry_key_set(
                        plan.evicted@.take(i as int),
                    ).insert(plan.evicted@[i as int].key@).contains(k) by {
                        let a = choose|a: int|
                            0 <= a < i + 1 && #[trigger] plan.evicted@.take(i + 1)[a].key@ == k;
                        if a < i {
                            assert(plan.evicted@.take(i as int)[a].key@ == k);
                        }
                    }
                    assert forall|k: Seq<u8>|
                        entry_key_set(plan.evicted@.take(i as int)).insert(
                            plan.evicted@[i as int].key@,
                        ).contains(k) implies entry_key_set(plan.evicted@.take(i + 1)).contains(
                        k,
                    ) by {
                        if k == plan.evicted@[i as int].key@ {
                            assert(plan.evicted@.take(i + 1)[i as int].key@ == k);
                        } else {
                            let a = choose|a: int|
                                0 <= a < i && #[trigger] plan.evicted@.take(i as int)[a].key@ == k;
                            assert(plan.evicted@.take(i + 1)[a].key@ == k);
                        }
                    }
                }
                assert(store.model().contents =~= m0.remove_keys(
                    expired_keys.union(entry_key_set(plan.evicted@.take(i + 1))),
                ));
            }
        }
    }
    proof {
        if effective {
            assert(plan.evicted@.take(vn as int) =~= plan.evicted@);
            let mf = store.model().contents;
            let deleted = expired_keys.union(evicted_keys);
            assert(mf == m0.remove_keys(deleted));
            assert(entries_cover_store(gathered, m0));
            // what is kept is exactly what survives
            assert(entries_match_store(plan.kept@, mf)) by {
                assert forall|i: int| 0 <= i < plan.kept@.len() implies mf.contains_key(
                    #[trigger] plan.kept@[i].key@,
                ) && plan.kept@[i].size == mf[plan.kept@[i].key@].data.len()
                    && plan.kept@[i].modified == mf[plan.kept@[i].key@].modified by {
                    let e = plan.kept@[i];
                    assert(gathered.contains(e));
                    let a = choose|a: int| 0 <= a < gathered.len() && gathered[a] == e;
                    assert(m0.contains_key(e.key@));
                    assert(!deleted.contains(e.key@)) by {
                        if expired_keys.contains(e.key@) {
                            let x = choose|x: int|
                                0 <= x < plan.expired@.len() && #[trigger] plan.expired@[x].key@
                                    == e.key@;
                        }
                        if evicted_keys.contains(e.key@) {
                            let x = choose|x: int|
                                0 <= x < plan.evicted@.len() && #[trigger] plan.evicted@[x].key@
                                    == e.key@;
                        }
                    }
                }
            }
            assert forall|k: Seq<u8>| mf.contains_key(k) implies entry_key_set(
                plan.kept@,
            ).contains(k) by {
                assert(m0.contains_key(k) && !deleted.contains(k));
                assert(entry_key_set(gathered).contains(k));
                let a = choose|a: int| 0 <= a < gathered.len() && #[trigger] gathered[a].key@ == k;
                let e = gathered[a];
                assert(plan.expired@.contains(e) || plan.evicted@.contains(e)
                    || plan.kept@.contains(e));
                if plan.expired@.contains(e) {
                    let x = choose|x: int| 0 <= x < plan.expired@.len() && plan.expired@[x] == e;
                    assert(expired_keys.contains(k));
                } else if plan.evicted@.contains(e) {
                    let x = choose|x: int| 0 <= x < plan.evicted@.len() && plan.evicted@[x] == e;
                    assert(evicted_keys.contains(k));
                } else {
                    let x = choose|x: int| 0 <= x < plan.kept@.len() && plan.kept@[x] == e;
                    assert(entry_key_set(plan.kept@).contains(k));
                }
            }
            // every entry past its TTL is gone
            assert forall|k: Seq<u8>| #[trigger]
                m0.contains_key(k) && stale(ttl, now, m0[k].modified) implies !mf.contains_key(
                k,
            ) by {
                assert(entry_key_set(gathered).contains(k));
                let a = choose|a: int| 0 <= a < gathered.len() && #[trigger] gathered[a].key@ == k;
                let e = gathered[a];
                assert(entry_expired(e, now, ttl));
                assert(plan.expired@.contains(e) || plan.evicted@.contains(e)
                    || plan.kept@.contains(e));
                if plan.evicted@.contains(e) {
                    let x = choose|x: int| 0 <= x < plan.evicted@.len() && plan.evicted@[x] == e;
                } else if plan.kept@.contains(e) {
                    let x = choose|x: int| 0 <= x < plan.kept@.len() && plan.kept@[x] == e;
                } else {
                    let x = choose|x: int| 0 <= x < plan.expired@.len() && plan.expired@[x] == e;
                    assert(expired_keys.contains(k));
                }
            }
            // the survivors are the youngest: ordering carried by the sort
            assert forall|i: int, j: int|
                0 <= i < plan.evicted@.len() && 0 <= j < plan.kept@.len() implies plan.evicted@[i].modified
                <= plan.kept@[j].modified by {
                let concat = plan.evicted@ + plan.kept@;
                assert(concat[i] == plan.evicted@[i]);
                assert(concat[j + plan.evicted@.len()] == plan.kept@[j]);
            }
        }
    }
    CleanupReport { expired: plan.expired, evicted: plan.evicted, kept: plan.kept }
}

} // verus!
