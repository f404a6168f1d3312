//! The tarball cache: `tarballs/sha512/<ab>/<hex>.tgz` below its root.
//!
//! Addressed by the integrity that the lockfile records, so where a tarball is
//! cached can be told without any network. Cached bytes are verified again when
//! they are read.

use vstd::prelude::*;

use crate::error::{VendorError, VendorErrorModel};
use crate::paths::{join_path, joined};
use crate::tarball::{
    accepted_bytes_match_the_lockfile, decode_integrity, hex, hex_digit, hex_text, recorded_digest,
    same_bytes, sha512, sha512_digest, verdict, MemberModel,
};
use crate::text::{chars_of, text_of};

verus! {

/// Where tarballs are cached.
#[derive(Debug, PartialEq, Eq)]
pub struct Cache {
    root: String,
}

/// Where a digest's tarball is cached, below the root.
pub open spec fn digest_path(digest: Seq<u8>) -> Seq<char> {
    "tarballs/sha512/"@ + hex_text(digest).take(2) + "/"@ + hex_text(digest) + ".tgz"@
}

/// Bytes that have the digest an integrity string records.
pub open spec fn trusted(integrity: Seq<char>, bytes: Seq<u8>) -> bool {
    recorded_digest(integrity) == Some(sha512(bytes))
}

impl Cache {
    /// The directory of the cache.
    pub closed spec fn dir(&self) -> Seq<char> {
        self.root@
    }

    pub fn with_root(root: String) -> (r: Self)
        ensures
            r.dir() == root@,
    {
        Cache { root }
    }

    pub fn root(&self) -> (r: &str)
        ensures
            r@ == self.dir(),
    {
        self.root.as_str()
    }

    /// The cache in the configured directory, else in the system's cache directory
    /// under `pudu`. A directory that is configured as nothing counts as not
    /// configured: the empty path would be the working directory.
    pub fn open(configured: Option<&str>, system: Option<&str>) -> (r: Result<Self, VendorError>)
        ensures
            match (configured, system) {
                (Some(dir), _) if dir@.len() > 0 => r is Ok && r->Ok_0.dir() == dir@,
                (_, Some(dir)) => r is Ok && r->Ok_0.dir() == joined(dir@, "pudu"@),
                (_, None) => r is Err && r->Err_0.deep_view() is CacheUnavailable,
            },
    {
        if let Some(dir) = configured {
            if !dir.is_empty() {
                return Ok(Cache { root: dir.to_owned() });
            }
        }
        match system {
            Some(dir) => Ok(Cache { root: join_path(dir, "pudu") }),
            None => Err(VendorError::CacheUnavailable),
        }
    }

    /// Where the tarball with this integrity is cached.
    pub fn path_for(&self, key: &str, integrity: &str) -> (r: Result<String, VendorError>)
        ensures
            match (recorded_digest(integrity@), r) {
                (Some(d), Ok(p)) => p@ == joined(self.dir(), digest_path(d)),
                (None, Err(e)) => e.deep_view() == (VendorErrorModel::MalformedIntegrity {
                    key: key@,
                    integrity: integrity@,
                }),
                _ => false,
            },
    {
        let digest = match decode_integrity(key, integrity) {
            Ok(d) => d,
            Err(e) => {
                return Err(e);
            },
        };
        Ok(self.path_of(&digest))
    }

    /// Where the tarball with this digest is cached.
    pub fn path_of(&self, digest: &Vec<u8>) -> (r: String)
        requires
            digest@.len() > 0,
        ensures
            r@ == joined(self.dir(), digest_path(digest@)),
    {
        let name = hex(digest.as_slice());
        let chars = chars_of(name.as_str());
        let mut rel = "tarballs/sha512/".to_owned();
        let fan = text_of(&chars, 0, 2);
        assert(fan@ =~= hex_text(digest@).take(2));
        rel.append(fan.as_str());
        rel.append("/");
        rel.append(name.as_str());
        rel.append(".tgz");
        join_path(self.root.as_str(), rel.as_str())
    }

    /// The bytes read from the cache, if there were any and they still hash
    /// correctly. A corrupt entry reads as a miss: the right response is to fetch
    /// it again.
    pub fn get(&self, key: &str, integrity: &str, read: Option<Vec<u8>>) -> (r: Option<Vec<u8>>)
        ensures
            match r {
                Some(bytes) => read == Some(bytes) && trusted(integrity@, bytes@),
                None => read is Some ==> !trusted(integrity@, read->Some_0@),
            },
    {
        let bytes = match read {
            Some(bytes) => bytes,
            None => {
                return None;
            },
        };
        match decode_integrity(key, integrity) {
            Ok(expected) => {
                let actual = sha512_digest(bytes.as_slice());
                if same_bytes(&actual, &expected) {
                    Some(bytes)
                } else {
                    None
                }
            },
            Err(_) => None,
        }
    }
}

/// The path of a cached tarball depends on its digest alone: two packages that
/// record the same digest share one file, wherever they come from.
pub proof fn equal_digests_share_a_path(dir: Seq<char>, a: Seq<char>, b: Seq<char>)
    requires
        recorded_digest(a) is Some,
        recorded_digest(a) == recorded_digest(b),
    ensures
        joined(dir, digest_path(recorded_digest(a)->Some_0)) == joined(
            dir,
            digest_path(recorded_digest(b)->Some_0),
        ),
{
}

proof fn digits_tell_the_byte(a: int, b: int)
    requires
        0 <= a < 16,
        0 <= b < 16,
        hex_digit(a) == hex_digit(b),
    ensures
        a == b,
{
    let x = hex_digit(a) as int;
    let y = hex_digit(b) as int;
    assert(x == if a < 10 {
        48 + a
    } else {
        97 + a - 10
    });
    assert(y == if b < 10 {
        48 + b
    } else {
        97 + b - 10
    });
}

/// Tarballs with different digests never share a file.
pub proof fn distinct_digests_have_distinct_paths(dir: Seq<char>, a: Seq<u8>, b: Seq<u8>)
    requires
        a.len() == 64,
        b.len() == 64,
        joined(dir, digest_path(a)) == joined(dir, digest_path(b)),
    ensures
        a == b,
{
    let p = joined(dir, digest_path(a));
    let from = p.len() - digest_path(a).len();
    let x = hex_text(a);
    let y = hex_text(b);
    let skip = from + "tarballs/sha512/"@.len() + 2 + "/"@.len();
    assert(digest_path(a).len() == digest_path(b).len());
    assert(x =~= p.subrange(skip, skip + 128));
    assert(y =~= p.subrange(skip, skip + 128));
    assert forall|i: int| 0 <= i < 64 implies a[i] == b[i] by {
        assert(x[2 * i] == y[2 * i]);
        assert(x[2 * i + 1] == y[2 * i + 1]);
        assert((2 * i) / 2 == i && (2 * i + 1) / 2 == i);
        digits_tell_the_byte(a[i] as int / 16, b[i] as int / 16);
        digits_tell_the_byte(a[i] as int % 16, b[i] as int % 16);
    }
    assert(a =~= b);
}

/// What is stored after a download reads back: bytes that were accepted for an
/// integrity are trusted under it, and whatever else stands in their place is not
/// taken for them unless it has the same digest.
pub proof fn stored_bytes_read_back(
    key: Seq<char>,
    url: Seq<char>,
    bytes: Seq<u8>,
    members: Seq<MemberModel>,
    integrity: Seq<char>,
    found: Seq<u8>,
)
    requires
        verdict(key, url, bytes, members, integrity) is Ok,
    ensures
        trusted(integrity, bytes),
        trusted(integrity, found) <==> sha512(found) == sha512(bytes),
{
    accepted_bytes_match_the_lockfile(key, url, bytes, members, integrity);
}

} // verus!
