//! The storage capability: the uniform contract every blob store offers.
//!
//! A backend is modelled by a [`StoreView`]: the map from keys to stored
//! blobs, one availability flag per operation (a real medium can fail at any
//! of them), whether its key enumeration is complete, and how many operations
//! it has served.  Every method's contract is exact over that model, so a
//! composite backend can be verified against any store implementing the
//! trait.

use vstd::prelude::*;

verus! {

/// Metadata of a stored blob: its size in bytes and the time of its last
/// write, in seconds since the epoch.
#[derive(Clone, Copy, Debug)]
pub struct StorageMetadata {
    pub size: u64,
    pub modified: u64,
}

/// One stored blob in the mathematical model: its bytes and the time it was
/// last written.
pub struct BlobSpec {
    pub data: Seq<u8>,
    pub modified: u64,
}

/// The mathematical model of a storage backend.
pub struct StoreView {
    /// What the store holds.
    pub contents: Map<Seq<u8>, BlobSpec>,
    /// Whether a `create` on the medium currently succeeds.
    pub create_ok: bool,
    /// Whether a `read` currently succeeds.
    pub read_ok: bool,
    /// Whether a `delete` currently succeeds.
    pub delete_ok: bool,
    /// Whether an `exists` probe currently succeeds.
    pub exists_ok: bool,
    /// Whether a `metadata` probe currently succeeds.
    pub metadata_ok: bool,
    /// Whether a `list_keys` call currently succeeds.
    pub list_ok: bool,
    /// Whether `list_keys` enumerates every key; a store that cannot do so
    /// cheaply answers with an empty list instead.
    pub lists_all: bool,
    /// How many operations the store has served.
    pub ops: nat,
}

impl StoreView {
    /// The availability flags and the enumeration capability, which no
    /// operation changes.
    pub open spec fn same_health(self, other: StoreView) -> bool {
        &&& self.create_ok == other.create_ok
        &&& self.read_ok == other.read_ok
        &&& self.delete_ok == other.delete_ok
        &&& self.exists_ok == other.exists_ok
        &&& self.metadata_ok == other.metadata_ok
        &&& self.list_ok == other.list_ok
        &&& self.lists_all == other.lists_all
    }

    /// The same store with different contents.
    pub open spec fn with_contents(self, contents: Map<Seq<u8>, BlobSpec>) -> StoreView {
        StoreView { contents, ..self }
    }
}

/// A storage-I/O failure.  Absence of a key is never an error: it is an
/// ordinary result of `read`, `metadata` and `exists`.
#[derive(Debug)]
pub enum StorageError {
    /// A single backend could not serve the operation.
    Backend { message: String },
    /// Both tiers of a composite backend failed the same deletion; both
    /// underlying causes are kept for triage.
    BothTiersFailed { primary_cause: String, secondary_cause: String },
}

impl StorageError {
    /// The first underlying cause, for embedding into a combined failure.
    pub fn into_cause(self) -> (r: String)
        ensures
            r@ == self.cause_spec(),
    {
        match self {
            StorageError::Backend { message } => message,
            StorageError::BothTiersFailed { primary_cause, secondary_cause: _ } => primary_cause,
        }
    }

    pub open spec fn cause_spec(self) -> Seq<char> {
        match self {
            StorageError::Backend { message } => message@,
            StorageError::BothTiersFailed { primary_cause, .. } => primary_cause@,
        }
    }
}

/// Whether `keys` enumerates `dom` exactly, without repetition.
pub open spec fn key_listing_matches(keys: Seq<Seq<u8>>, dom: Set<Seq<u8>>) -> bool {
    &&& forall|i: int| 0 <= i < keys.len() ==> dom.contains(#[trigger] keys[i])
    &&& forall|k: Seq<u8>| dom.contains(k) ==> keys.contains(k)
    &&& forall|i: int, j: int| 0 <= i < j < keys.len() ==> keys[i] != keys[j]
}

/// Round trip at a single store: right after `create(key, data)` the store
/// holds exactly `data` under `key`, so a `read` of that key — which the
/// capability obliges to return the stored blob — answers `data`.
pub proof fn lemma_store_round_trip(v: StoreView, key: Seq<u8>, data: Seq<u8>, now: u64)
    ensures
        v.contents.insert(key, BlobSpec { data, modified: now }).contains_key(key),
        v.contents.insert(key, BlobSpec { data, modified: now })[key].data == data,
{
}

/// Deletion at a single store is idempotent: removing a key that is absent
/// changes nothing, and removing it twice leaves what removing it once
/// leaves.
pub proof fn lemma_store_delete_idempotent(v: StoreView, key: Seq<u8>)
    ensures
        !v.contents.contains_key(key) ==> v.contents.remove(key) == v.contents,
        v.contents.remove(key).remove(key) == v.contents.remove(key),
{
    if !v.contents.contains_key(key) {
        assert(v.contents.remove(key) =~= v.contents);
    }
    assert(v.contents.remove(key).remove(key) =~= v.contents.remove(key));
}

/// The capability every storage backend implements.
///
/// Each operation may fail with a storage-I/O error; whether it does is part
/// of the store's model, so a composite backend can state exactly when its
/// own operations succeed.  `now` is the caller's clock, in seconds since the
/// epoch: a store records it as the modification time of a written blob but
/// never interprets it.
pub trait MediaStorage: Sized {
    /// The store's internal well-formedness; constructors establish it and
    /// every operation preserves it.  Verified stores define it; an
    /// unverified store outside the library may leave the default.
    open spec fn inv(&self) -> bool {
        true
    }

    /// The store's mathematical model.  Verified stores define it; an
    /// unverified store outside the library may leave the default.
    open spec fn model(&self) -> StoreView {
        vstd::pervasive::arbitrary()
    }

    /// Store `data` under `key`, overwriting any prior blob.
    fn create(&mut self, key: &[u8], data: &[u8], now: u64) -> (r: Result<(), StorageError>)
        requires
            old(self).inv(),
        ensures
            final(self).inv(),
            final(self).model().same_health(old(self).model()),
            final(self).model().ops == old(self).model().ops + 1,
            r is Ok <==> old(self).model().create_ok,
            r is Ok ==> final(self).model().contents == old(self).model().contents.insert(
                key@,
                BlobSpec { data: data@, modified: now },
            ),
            r is Err ==> final(self).model().contents == old(self).model().contents,
    ;

    /// Return the blob stored under `key`, or `None` if the key is absent.
    fn read(&mut self, key: &[u8]) -> (r: Result<Option<Vec<u8>>, StorageError>)
        requires
            old(self).inv(),
        ensures
            final(self).inv(),
            final(self).model().same_health(old(self).model()),
            final(self).model().ops == old(self).model().ops + 1,
            final(self).model().contents == old(self).model().contents,
            r is Ok <==> old(self).model().read_ok,
            r matches Ok(found) ==> match found {
                Some(data) => old(self).model().contents.contains_key(key@)
                    && data@ == old(self).model().contents[key@].data,
                None => !old(self).model().contents.contains_key(key@),
            },
    ;

    /// Remove the blob stored under `key`; deleting an absent key succeeds.
    fn delete(&mut self, key: &[u8]) -> (r: Result<(), StorageError>)
        requires
            old(self).inv(),
        ensures
            final(self).inv(),
            final(self).model().same_health(old(self).model()),
            final(self).model().ops == old(self).model().ops + 1,
            r is Ok <==> old(self).model().delete_ok,
            r is Ok ==> final(self).model().contents == old(self).model().contents.remove(key@),
            r is Err ==> final(self).model().contents == old(self).model().contents,
    ;

    /// Whether a blob is stored under `key`, without transferring it.
    fn has_key(&mut self, key: &[u8]) -> (r: Result<bool, StorageError>)
        requires
            old(self).inv(),
        ensures
            final(self).inv(),
            final(self).model().same_health(old(self).model()),
            final(self).model().ops == old(self).model().ops + 1,
            final(self).model().contents == old(self).model().contents,
            r is Ok <==> old(self).model().exists_ok,
            r matches Ok(present) ==> present == old(self).model().contents.contains_key(key@),
    ;

    /// Size and last-write time of the blob under `key`, or `None` if absent.
    fn metadata(&mut self, key: &[u8]) -> (r: Result<Option<StorageMetadata>, StorageError>)
        requires
            old(self).inv(),
        ensures
            final(self).inv(),
            final(self).model().same_health(old(self).model()),
            final(self).model().ops == old(self).model().ops + 1,
            final(self).model().contents == old(self).model().contents,
            r is Ok <==> old(self).model().metadata_ok,
            r matches Ok(found) ==> match found {
                Some(meta) => old(self).model().contents.contains_key(key@)
                    && meta.size == old(self).model().contents[key@].data.len()
                    && meta.modified == old(self).model().contents[key@].modified,
                None => !old(self).model().contents.contains_key(key@),
            },
    ;

    /// Every key the store holds, when it can enumerate them cheaply; a store
    /// that cannot answers with an empty list, and callers must not treat
    /// that as completeness.
    fn list_keys(&mut self) -> (r: Result<Vec<Vec<u8>>, StorageError>)
        requires
            old(self).inv(),
        ensures
            final(self).inv(),
            final(self).model().same_health(old(self).model()),
            final(self).model().ops == old(self).model().ops + 1,
            final(self).model().contents == old(self).model().contents,
            r is Ok <==> old(self).model().list_ok,
            r matches Ok(keys) ==> (if old(self).model().lists_all {
                key_listing_matches(keys.deep_view(), old(self).model().contents.dom())
            } else {
                keys@.len() == 0
            }),
    ;
}

} // verus!
