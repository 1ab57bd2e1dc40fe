//! The filesystem backend's naming scheme: one file per key under a
//! configured root directory, named by the URL-safe rendering of the key's
//! digest.  The name derivation is the verified heart of the backend; the
//! actual file I/O is the embedding program's, which hands every key through
//! [`FilesystemStorage::file_name`] so that an identical key always lands in
//! the identical file.

use vstd::prelude::*;

use crate::keys::{b64_url_of, encode_key, is_b64_url_char, sha256, sha256_of};
use crate::storage::StorageError;

verus! {

/// A filesystem-backed media store: its root directory and the naming rule
/// every operation shares.
pub struct FilesystemStorage {
    pub root: String,
}

impl FilesystemStorage {
    /// A store rooted at `root`.
    pub fn new(root: String) -> (r: Result<Self, StorageError>)
        ensures
            r is Ok,
            r matches Ok(fs) ==> fs.root == root,
    {
        Ok(FilesystemStorage { root })
    }

    /// The file name a key's blob lives under: the URL-safe rendering of
    /// the key's digest.  Identical keys give identical names; the digest
    /// keeps arbitrarily long keys within path-length limits and the
    /// rendering within the filesystem's safe character set.  The rendering
    /// is injective, so distinct digests never share a file name — the
    /// name is as collision-resistant as the digest itself.
    pub fn file_name(&self, key: &[u8]) -> (r: String)
        requires
            key@.len() < 0x2000_0000_0000_0000,
        ensures
            r@ == b64_url_of(sha256_of(key@)),
            r@.len() == 43,
            forall|i: int| 0 <= i < r@.len() ==> is_b64_url_char(#[trigger] r@[i]),
            forall|other: Seq<u8>| #[trigger] b64_url_of(other) == r@ ==> other == sha256_of(
                key@,
            ),
    {
        let digest = sha256(key);
        encode_key(digest.as_slice())
    }
}

} // verus!
