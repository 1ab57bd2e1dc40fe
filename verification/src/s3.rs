//! The object-store backend's naming scheme and error classification.
//!
//! A storage key often embeds a human-legible media identifier (the last
//! path segment of the identifier URI that precedes the key's first NUL
//! byte).  When that segment, filtered to a safe character set, is long
//! enough to be collision-resistant, it becomes the object name; otherwise
//! the name falls back to the URL-safe rendering of the whole key.  An
//! optional configured prefix is prepended, and leading slashes are dropped.
//! The remote calls themselves are the embedding program's; it hands every
//! key through [`S3Storage::object_name`], and maps the provider's
//! not-found answers through [`is_not_found_status`].

use vstd::prelude::*;

use crate::keys::{b64_url_of, encode_key};
use crate::storage::StorageMetadata;
use vstd::utf8::encode_utf8;

verus! {

broadcast use vstd::string::group_string_axioms;

/// `/`, `0`, `9`, `A`, `Z`, `a`, `z`, `_`, `-` as bytes.
pub const SLASH: u8 = 47;
pub const DIGIT_0: u8 = 48;
pub const DIGIT_9: u8 = 57;
pub const UPPER_A: u8 = 65;
pub const UPPER_Z: u8 = 90;
pub const LOWER_A: u8 = 97;
pub const LOWER_Z: u8 = 122;
pub const UNDERSCORE: u8 = 95;
pub const HYPHEN: u8 = 45;

/// The bytes a derived object name may keep from a key: ASCII letters,
/// digits, `_` and `-`.
pub open spec fn is_safe_name_byte(b: u8) -> bool {
    (DIGIT_0 <= b && b <= DIGIT_9) || (UPPER_A <= b && b <= UPPER_Z) || (LOWER_A <= b && b
        <= LOWER_Z) || b == UNDERSCORE || b == HYPHEN
}

/// The bytes of a key before its first NUL: the identifier part of a key
/// that carries trailing metadata.
pub open spec fn before_nul(s: Seq<u8>) -> Seq<u8>
    decreases s.len(),
{
    if s.len() == 0 {
        s
    } else if s[0] == 0 {
        Seq::empty()
    } else {
        seq![s[0]] + before_nul(s.drop_first())
    }
}

/// The bytes after the last `/`: the final path segment (the whole string
/// when there is no `/`).
pub open spec fn after_last_slash(s: Seq<u8>) -> Seq<u8>
    decreases s.len(),
{
    if s.len() == 0 {
        s
    } else if s.last() == SLASH {
        Seq::empty()
    } else {
        after_last_slash(s.drop_last()).push(s.last())
    }
}

/// The identifier a key embeds: its first-NUL-terminated part's last path
/// segment, keeping only safe bytes.
pub open spec fn media_id_of(key: Seq<u8>) -> Seq<u8> {
    after_last_slash(before_nul(key)).filter(|b: u8| is_safe_name_byte(b))
}

/// The URL-safe rendering of a key, as bytes; the rendering is ASCII, so
/// each byte is its character.
pub open spec fn b64_url_bytes(key: Seq<u8>) -> Seq<u8> {
    Seq::new(b64_url_of(key).len(), |i: int| b64_url_of(key)[i] as u8)
}

/// The object name before any prefix: the embedded identifier when it is
/// long enough to be collision-resistant, else the rendering of the whole
/// key.
pub open spec fn bare_object_name(key: Seq<u8>) -> Seq<u8> {
    if media_id_of(key).len() >= 10 {
        media_id_of(key)
    } else {
        b64_url_bytes(key)
    }
}

/// A name with its leading slashes dropped, as object stores prefer.
pub open spec fn drop_leading_slashes(s: Seq<u8>) -> Seq<u8>
    decreases s.len(),
{
    if s.len() > 0 && s[0] == SLASH {
        drop_leading_slashes(s.drop_first())
    } else {
        s
    }
}

/// The full object name of a key under an optional prefix.
pub open spec fn object_name_spec(prefix: Option<Seq<char>>, key: Seq<u8>) -> Seq<u8> {
    let joined = match prefix {
        Some(p) => encode_utf8(p) + seq![SLASH] + bare_object_name(key),
        None => bare_object_name(key),
    };
    drop_leading_slashes(joined)
}

/// The configured prefix as a character sequence.
pub open spec fn prefix_view(prefix: Option<String>) -> Option<Seq<char>> {
    match prefix {
        Some(p) => Some(p@),
        None => None,
    }
}

proof fn lemma_before_nul_characterization(s: Seq<u8>, n: int)
    requires
        0 <= n <= s.len(),
        forall|j: int| 0 <= j < n ==> s[j] != 0,
        n == s.len() || s[n] == 0,
    ensures
        before_nul(s) == s.take(n),
    decreases s.len(),
{
    if s.len() == 0 {
        assert(s.take(0) =~= s);
    } else if s[0] == 0 {
        assert(s.take(0) =~= Seq::<u8>::empty());
    } else {
        let t = s.drop_first();
        assert(forall|j: int| 0 <= j < n - 1 ==> t[j] == s[j + 1] && s[j + 1] != 0);
        lemma_before_nul_characterization(t, n - 1);
        assert(seq![s[0]] + t.take(n - 1) =~= s.take(n));
    }
}

proof fn lemma_after_last_slash_characterization(s: Seq<u8>, st: int)
    requires
        0 <= st <= s.len(),
        st == 0 || s[st - 1] == SLASH,
        forall|j: int| st <= j < s.len() ==> s[j] != SLASH,
    ensures
        after_last_slash(s) == s.skip(st),
    decreases s.len(),
{
    if s.len() == 0 {
        assert(s.skip(0) =~= s);
    } else if s.last() == SLASH {
        assert(st == s.len());
        assert(s.skip(st) =~= Seq::<u8>::empty());
    } else {
        assert(st < s.len());
        let t = s.drop_last();
        lemma_after_last_slash_characterization(t, st);
        assert(t.skip(st).push(s.last()) =~= s.skip(st));
    }
}

proof fn lemma_drop_leading_slashes_characterization(s: Seq<u8>, t: int)
    requires
        0 <= t <= s.len(),
        forall|j: int| 0 <= j < t ==> s[j] == SLASH,
        t == s.len() || s[t] != SLASH,
    ensures
        drop_leading_slashes(s) == s.skip(t),
    decreases t,
{
    if t == 0 {
        assert(s.skip(0) =~= s);
    } else {
        let r = s.drop_first();
        assert(forall|j: int| 0 <= j < t - 1 ==> r[j] == s[j + 1] && s[j + 1] == SLASH);
        lemma_drop_leading_slashes_characterization(r, t - 1);
        assert(r.skip(t - 1) =~= s.skip(t));
    }
}

/// Whether a byte may stand in a derived object name.
fn is_safe_byte(b: u8) -> (r: bool)
    ensures
        r == is_safe_name_byte(b),
{
    (DIGIT_0 <= b && b <= DIGIT_9) || (UPPER_A <= b && b <= UPPER_Z) || (LOWER_A <= b && b
        <= LOWER_Z) || b == UNDERSCORE || b == HYPHEN
}

/// An object-store-backed media store: the bucket it writes, the optional
/// name prefix, and the naming rule every operation shares.
pub struct S3Storage {
    pub bucket: String,
    pub prefix: Option<String>,
}

impl S3Storage {
    /// A store over `bucket`, prefixing every object name with `prefix`.
    pub fn new(bucket: String, prefix: Option<String>) -> (r: Self)
        ensures
            r.bucket == bucket,
            r.prefix == prefix,
    {
        S3Storage { bucket, prefix }
    }

    /// The object name a key's blob lives under.  Identical keys give
    /// identical names, so a key always resolves to the same object.
    #[verifier::loop_isolation(false)]
    pub fn object_name(&self, key: &[u8]) -> (r: Vec<u8>)
        requires
            4 * key@.len() + 2 <= usize::MAX,
        ensures
            r@ == object_name_spec(prefix_view(self.prefix), key@),
    {
        // the identifier part: everything before the first NUL
        let mut nul: usize = 0;
        while nul < key.len() && key[nul] != 0
            invariant
                nul <= key@.len(),
                forall|j: int| 0 <= j < nul ==> key@[j] != 0,
            decreases key@.len() - nul,
        {
            nul += 1;
        }
        // its last path segment
        let mut start: usize = 0;
        for i in 0..nul
            invariant
                start <= i,
                start == 0 || key@[start - 1] == SLASH,
                forall|j: int| start <= j < i ==> key@[j] != SLASH,
        {
            if key[i] == SLASH {
                start = i + 1;
            }
        }
        // filtered to the safe character set
        let ghost segment = key@.take(nul as int).skip(start as int);
        let mut media: Vec<u8> = Vec::new();
        let ghost spred = |b: u8| is_safe_name_byte(b);
        proof {
            reveal(Seq::filter);
            assert(key@.subrange(start as int, start as int) =~= Seq::<u8>::empty());
        }
        for i in start..nul
            invariant
                media@ == key@.subrange(start as int, i as int).filter(spred),
        {
            proof {
                reveal(Seq::filter);
                assert(key@.subrange(start as int, i + 1).drop_last() =~= key@.subrange(
                    start as int,
                    i as int,
                ));
                assert(key@.subrange(start as int, i + 1).last() == key@[i as int]);
            }
            if is_safe_byte(key[i]) {
                media.push(key[i]);
            }
        }
        proof {
            lemma_before_nul_characterization(key@, nul as int);
            lemma_after_last_slash_characterization(key@.take(nul as int), start as int);
            assert(key@.subrange(start as int, nul as int) =~= segment);
            assert(media@ == media_id_of(key@));
        }
        // the identifier when collision-resistant, else the rendered key
        let mut bare: Vec<u8> = if media.len() >= 10 {
            media
        } else {
            let rendered = encode_key(key);
            let rendered_bytes = rendered.as_str().as_bytes_vec();
            proof {
                let chars = b64_url_of(key@);
                assert(vstd::utf8::is_ascii_chars(chars)) by {
                    assert(forall|i: int|
                        0 <= i < chars.len() ==> '\0' <= #[trigger] chars[i] <= '\u{7f}');
                }
                vstd::utf8::is_ascii_chars_encode_utf8(chars);
                assert(rendered_bytes@ =~= b64_url_bytes(key@));
            }
            rendered_bytes
        };
        // the configured prefix, then the name, then no leading slashes
        let mut named: Vec<u8> = Vec::new();
        match &self.prefix {
            Some(p) => {
                named = p.as_str().as_bytes_vec();
                named.push(SLASH);
            },
            None => {},
        }
        proof {
            match prefix_view(self.prefix) {
                Some(pv) => {
                    assert(named@ =~= encode_utf8(pv) + seq![SLASH]);
                },
                None => {
                    assert(named@ =~= Seq::<u8>::empty());
                },
            }
        }
        named.append(&mut bare);
        let ghost joined = named@;
        proof {
            match prefix_view(self.prefix) {
                Some(pv) => {
                    assert(joined =~= encode_utf8(pv) + seq![SLASH] + bare_object_name(key@));
                },
                None => {
                    assert(joined =~= bare_object_name(key@));
                },
            }
        }
        let mut cut: usize = 0;
        while cut < named.len() && named[cut] == SLASH
            invariant
                cut <= named@.len(),
                named@ == joined,
                forall|j: int| 0 <= j < cut ==> named@[j] == SLASH,
            decreases named@.len() - cut,
        {
            cut += 1;
        }
        let trimmed = named.split_off(cut);
        proof {
            lemma_drop_leading_slashes_characterization(joined, cut as int);
            assert(trimmed@ =~= joined.skip(cut as int));
        }
        trimmed
    }
}

/// The provider's object metadata mapped to the capability's: a missing
/// reported length counts as zero, a missing last-modified time as the
/// present moment.
pub fn metadata_from_provider(
    content_length: Option<u64>,
    last_modified: Option<u64>,
    now: u64,
) -> (r: StorageMetadata)
    ensures
        r.size == (match content_length {
            Some(len) => len,
            None => 0,
        }),
        r.modified == (match last_modified {
            Some(time) => time,
            None => now,
        }),
{
    let size = match content_length {
        Some(len) => len,
        None => 0,
    };
    let modified = match last_modified {
        Some(time) => time,
        None => now,
    };
    StorageMetadata { size, modified }
}

/// Whether a provider's answer means the object is absent — the one status
/// mapped to the capability's not-found result instead of a failure.
pub fn is_not_found_status(status: u16) -> (r: bool)
    ensures
        r == (status == 404),
{
    status == 404
}

} // verus!
