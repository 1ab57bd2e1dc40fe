//! An in-memory storage backend, verified against the full capability
//! contract.  It is the reference model of a store: every operation
//! succeeds, and `list_keys` is authoritative.  Tests use it as the leaf
//! store under the hybrid backend and the janitor.

use vstd::prelude::*;

use crate::storage::{
    BlobSpec, MediaStorage, StorageError, StorageMetadata, StoreView,
};

verus! {

/// One stored blob: its key, its bytes and the time of its last write.
pub struct MemEntry {
    pub key: Vec<u8>,
    pub data: Vec<u8>,
    pub modified: u64,
}

/// The blob an entry stands for.
pub open spec fn blob_of(e: MemEntry) -> BlobSpec {
    BlobSpec { data: e.data@, modified: e.modified }
}

/// No two entries share a key.
pub open spec fn unique_keys(s: Seq<MemEntry>) -> bool {
    forall|i: int, j: int| 0 <= i < j < s.len() ==> s[i].key@ != s[j].key@
}

/// The map a sequence of entries stands for; later entries win, though under
/// `unique_keys` there is nothing to win over.
pub open spec fn entries_map(s: Seq<MemEntry>) -> Map<Seq<u8>, BlobSpec>
    decreases s.len(),
{
    if s.len() == 0 {
        Map::empty()
    } else {
        entries_map(s.drop_last()).insert(s.last().key@, blob_of(s.last()))
    }
}

proof fn lemma_entries_map_membership(s: Seq<MemEntry>)
    ensures
        forall|k: Seq<u8>|
            entries_map(s).contains_key(k) <==> exists|i: int|
                0 <= i < s.len() && #[trigger] s[i].key@ == k,
    decreases s.len(),
{
    if s.len() > 0 {
        lemma_entries_map_membership(s.drop_last());
        assert forall|k: Seq<u8>| entries_map(s).contains_key(k) implies exists|i: int|
            0 <= i < s.len() && #[trigger] s[i].key@ == k by {
            if k == s.last().key@ {
                assert(s[s.len() - 1].key@ == k);
            } else {
                assert(entries_map(s.drop_last()).contains_key(k));
                let i = choose|i: int| 0 <= i < s.drop_last().len() && #[trigger] s.drop_last()[i].key@ == k;
                assert(s[i] == s.drop_last()[i]);
                assert(s[i].key@ == k);
            }
        }
        assert forall|k: Seq<u8>| (exists|i: int| 0 <= i < s.len() && #[trigger] s[i].key@ == k)
            implies entries_map(s).contains_key(k) by {
            let i = choose|i: int| 0 <= i < s.len() && #[trigger] s[i].key@ == k;
            if i < s.len() - 1 {
                assert(s.drop_last()[i].key@ == k);
                assert(entries_map(s.drop_last()).contains_key(k));
            } else {
                assert(k == s.last().key@);
            }
        }
    }
}

proof fn lemma_entries_map_index(s: Seq<MemEntry>, i: int)
    requires
        unique_keys(s),
        0 <= i < s.len(),
    ensures
        entries_map(s).contains_key(s[i].key@),
        entries_map(s)[s[i].key@] == blob_of(s[i]),
    decreases s.len(),
{
    lemma_entries_map_membership(s);
    if i < s.len() - 1 {
        lemma_entries_map_index(s.drop_last(), i);
        assert(s.drop_last()[i] == s[i]);
        assert(s[i].key@ != s.last().key@);
    }
}

proof fn lemma_entries_map_remove(s: Seq<MemEntry>, i: int)
    requires
        unique_keys(s),
        0 <= i < s.len(),
    ensures
        entries_map(s.remove(i)) == entries_map(s).remove(s[i].key@),
        unique_keys(s.remove(i)),
    decreases s.len(),
{
    let k = s[i].key@;
    assert(unique_keys(s.remove(i))) by {
        assert forall|a: int, b: int| 0 <= a < b < s.remove(i).len()
            implies s.remove(i)[a].key@ != s.remove(i)[b].key@ by {
            let a0: int = if a < i { a } else { a + 1 };
            let b0: int = if b < i { b } else { b + 1 };
            assert(s.remove(i)[a] == s[a0] && s.remove(i)[b] == s[b0]);
        }
    }
    if i == s.len() - 1 {
        assert(s.remove(i) =~= s.drop_last());
        lemma_entries_map_membership(s.drop_last());
        assert(!entries_map(s.drop_last()).contains_key(k));
        assert(entries_map(s.drop_last()) =~= entries_map(s).remove(k));
    } else {
        lemma_entries_map_remove(s.drop_last(), i);
        assert(s.remove(i).drop_last() =~= s.drop_last().remove(i));
        assert(s.remove(i).last() == s.last());
        // unfold both sides one step and use the induction hypothesis
        assert(entries_map(s.remove(i))
            == entries_map(s.drop_last()).remove(k).insert(s.last().key@, blob_of(s.last())));
        assert(s.last().key@ != k);
        assert(entries_map(s.drop_last()).remove(k).insert(s.last().key@, blob_of(s.last()))
            =~= entries_map(s.drop_last()).insert(s.last().key@, blob_of(s.last())).remove(k));
    }
}

proof fn lemma_entries_map_push(s: Seq<MemEntry>, e: MemEntry)
    ensures
        entries_map(s.push(e)) == entries_map(s).insert(e.key@, blob_of(e)),
{
    assert(s.push(e).drop_last() =~= s);
    assert(s.push(e).last() == e);
}

/// An in-memory store: a list of entries with pairwise distinct keys.
pub struct MemoryStorage {
    pub entries: Vec<MemEntry>,
    /// How many operations this store has served (kept for reasoning about
    /// which tier a composite backend touched; it costs nothing at runtime).
    pub ops: Ghost<nat>,
}

impl MemoryStorage {
    /// An empty store.
    pub fn new() -> (r: Self)
        ensures
            r.inv(),
            r.model().contents == Map::<Seq<u8>, BlobSpec>::empty(),
            r.model().ops == 0,
    {
        MemoryStorage { entries: Vec::new(), ops: Ghost(0nat) }
    }

    /// The index holding `key`, if any.
    fn find_index(&self, key: &[u8]) -> (r: Option<usize>)
        ensures
            match r {
                Some(i) => i < self.entries@.len() && self.entries@[i as int].key@ == key@,
                None => forall|j: int|
                    0 <= j < self.entries@.len() ==> self.entries@[j].key@ != key@,
            },
    {
        let n = self.entries.len();
        for i in 0..n
            invariant
                n == self.entries@.len(),
                forall|j: int| 0 <= j < i ==> self.entries@[j].key@ != key@,
        {
            if bytes_equal(key, self.entries[i].key.as_slice()) {
                return Some(i);
            }
        }
        None
    }
}

/// Whether two byte strings hold the same bytes.
pub fn bytes_equal(a: &[u8], b: &[u8]) -> (r: bool)
    ensures
        r == (a@ == b@),
{
    if a.len() != b.len() {
        assert(a@ != b@);
        return false;
    }
    let n = a.len();
    for i in 0..n
        invariant
            n == a@.len() == b@.len(),
            forall|j: int| 0 <= j < i ==> a@[j] == b@[j],
    {
        if a[i] != b[i] {
            return false;
        }
    }
    assert(a@ =~= b@);
    true
}

impl MediaStorage for MemoryStorage {
    open spec fn inv(&self) -> bool {
        unique_keys(self.entries@)
    }

    open spec fn model(&self) -> StoreView {
        StoreView {
            contents: entries_map(self.entries@),
            create_ok: true,
            read_ok: true,
            delete_ok: true,
            exists_ok: true,
            metadata_ok: true,
            list_ok: true,
            lists_all: true,
            ops: self.ops@,
        }
    }

    fn create(&mut self, key: &[u8], data: &[u8], now: u64) -> (r: Result<(), StorageError>) {
        self.ops = Ghost(self.ops@ + 1);
        let ghost s0 = self.entries@;
        match self.find_index(key) {
            Some(i) => {
                proof {
                    lemma_entries_map_remove(s0, i as int);
                }
                self.entries.remove(i);
            },
            None => {
                proof {
                    lemma_entries_map_membership(s0);
                    assert(entries_map(s0).remove(key@) =~= entries_map(s0));
                }
            },
        }
        let ghost s1 = self.entries@;
        assert(forall|j: int| 0 <= j < s1.len() ==> s1[j].key@ != key@) by {
            lemma_entries_map_membership(s1);
        }
        let e = MemEntry {
            key: vstd::slice::slice_to_vec(key),
            data: vstd::slice::slice_to_vec(data),
            modified: now,
        };
        proof {
            lemma_entries_map_push(s1, e);
            assert(entries_map(s0).remove(key@).insert(key@, blob_of(e))
                =~= entries_map(s0).insert(key@, blob_of(e)));
        }
        self.entries.push(e);
        Ok(())
    }

    fn read(&mut self, key: &[u8]) -> (r: Result<Option<Vec<u8>>, StorageError>) {
        self.ops = Ghost(self.ops@ + 1);
        proof {
            lemma_entries_map_membership(self.entries@);
        }
        match self.find_index(key) {
            Some(i) => {
                proof {
                    lemma_entries_map_index(self.entries@, i as int);
                }
                Ok(Some(vstd::slice::slice_to_vec(self.entries[i].data.as_slice())))
            },
            None => Ok(None),
        }
    }

    fn delete(&mut self, key: &[u8]) -> (r: Result<(), StorageError>) {
        self.ops = Ghost(self.ops@ + 1);
        let ghost s0 = self.entries@;
        match self.find_index(key) {
            Some(i) => {
                proof {
                    lemma_entries_map_remove(s0, i as int);
                }
                self.entries.remove(i);
            },
            None => {
                proof {
                    lemma_entries_map_membership(s0);
                    assert(entries_map(s0).remove(key@) =~= entries_map(s0));
                }
            },
        }
        Ok(())
    }

    fn has_key(&mut self, key: &[u8]) -> (r: Result<bool, StorageError>) {
        self.ops = Ghost(self.ops@ + 1);
        proof {
            lemma_entries_map_membership(self.entries@);
        }
        Ok(self.find_index(key).is_some())
    }

    fn metadata(&mut self, key: &[u8]) -> (r: Result<Option<StorageMetadata>, StorageError>) {
        self.ops = Ghost(self.ops@ + 1);
        proof {
            lemma_entries_map_membership(self.entries@);
        }
        match self.find_index(key) {
            Some(i) => {
                proof {
                    lemma_entries_map_index(self.entries@, i as int);
                }
                Ok(Some(StorageMetadata {
                    size: self.entries[i].data.len() as u64,
                    modified: self.entries[i].modified,
                }))
            },
            None => Ok(None),
        }
    }

    fn list_keys(&mut self) -> (r: Result<Vec<Vec<u8>>, StorageError>) {
        self.ops = Ghost(self.ops@ + 1);
        let mut keys: Vec<Vec<u8>> = Vec::new();
        let n = self.entries.len();
        for i in 0..n
            invariant
                n == self.entries@.len(),
                keys@.len() == i,
                forall|j: int| 0 <= j < i ==> keys@[j]@ == self.entries@[j].key@,
        {
            keys.push(vstd::slice::slice_to_vec(self.entries[i].key.as_slice()));
        }
        proof {
            lemma_entries_map_membership(self.entries@);
            let dom = entries_map(self.entries@).dom();
            assert forall|j: int| 0 <= j < keys.deep_view().len()
                implies dom.contains(#[trigger] keys.deep_view()[j]) by {
                assert(keys.deep_view()[j] == self.entries@[j].key@);
            }
            assert forall|k: Seq<u8>| dom.contains(k) implies keys.deep_view().contains(k) by {
                let j = choose|j: int| 0 <= j < self.entries@.len() && #[trigger] self.entries@[j].key@ == k;
                assert(keys.deep_view()[j] == k);
            }
            assert forall|a: int, b: int| 0 <= a < b < keys.deep_view().len()
                implies keys.deep_view()[a] != keys.deep_view()[b] by {
                assert(keys.deep_view()[a] == self.entries@[a].key@);
                assert(keys.deep_view()[b] == self.entries@[b].key@);
            }
        }
        Ok(keys)
    }
}

} // verus!
