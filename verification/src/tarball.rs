//! Tarball verification and inspection.
//!
//! One pass over the bytes answers everything that the package table records: the
//! sha256 that Buck can verify, the compressed size, the bin map, and whether the
//! package runs an install script. Reading `package.json` is not enough for the
//! last two: both need the archive's file list.

use std::io::Read;

use base64::Engine;
use flate2::read::GzDecoder;
use sha2::Digest;
use tar::Archive;
use vstd::prelude::*;

use crate::dict::{as_map, Dict};
use crate::error::{VendorError, VendorErrorModel, VendorWarning, VendorWarningModel};
use crate::json::{json_model, member_of, text_member, Json, JsonModel};
use crate::manifest::{manifest_doc, parse_manifest};
use crate::paths::{contained_path, contained_text, slash_path, slashed};
use crate::text::{
    ascii_alnum, chars_of, find_char, index_from, index_from_finds, index_from_first, index_from_is,
    is_ascii_alnum, precedes, same, split, split_on, starts_with, strip_prefix, text_lt, text_of,
};

verus! {

/// What SHA-256 yields for these bytes.
pub uninterp spec fn sha256(bytes: Seq<u8>) -> Seq<u8>;

/// What SHA-512 yields for these bytes.
pub uninterp spec fn sha512(bytes: Seq<u8>) -> Seq<u8>;

/// `sha2::Sha256`: the digest is a function of the bytes and 32 bytes long.
#[verifier::external_body]
pub(crate) fn sha256_digest(bytes: &[u8]) -> (r: Vec<u8>)
    ensures
        r@ == sha256(bytes@),
        r@.len() == 32,
{
    let mut h = sha2::Sha256::new();
    h.update(bytes);
    h.finalize().to_vec()
}

/// `sha2::Sha512`: the digest is a function of the bytes and 64 bytes long.
#[verifier::external_body]
pub fn sha512_digest(bytes: &[u8]) -> (r: Vec<u8>)
    ensures
        r@ == sha512(bytes@),
        r@.len() == 64,
{
    let mut h = sha2::Sha512::new();
    h.update(bytes);
    h.finalize().to_vec()
}

/// The lowercase hexadecimal digit for a number below sixteen.
pub open spec fn hex_digit(n: int) -> char
    recommends
        0 <= n < 16,
{
    if n < 10 {
        ('0' as int + n) as char
    } else {
        ('a' as int + n - 10) as char
    }
}

/// Bytes in lowercase hexadecimal, the high half of each first.
pub open spec fn hex_text(bytes: Seq<u8>) -> Seq<char> {
    Seq::new(
        2 * bytes.len(),
        |i: int|
            if i % 2 == 0 {
                hex_digit(bytes[i / 2] as int / 16)
            } else {
                hex_digit(bytes[i / 2] as int % 16)
            },
    )
}

/// The hexadecimal digit for a number below sixteen.
pub(crate) fn hex_char(n: u8) -> (c: char)
    requires
        n < 16,
    ensures
        c == hex_digit(n as int),
{
    match n {
        0 => '0',
        1 => '1',
        2 => '2',
        3 => '3',
        4 => '4',
        5 => '5',
        6 => '6',
        7 => '7',
        8 => '8',
        9 => '9',
        10 => 'a',
        11 => 'b',
        12 => 'c',
        13 => 'd',
        14 => 'e',
        _ => 'f',
    }
}

/// Writes bytes in lowercase hexadecimal.
pub fn hex(bytes: &[u8]) -> (r: String)
    ensures
        r@ == hex_text(bytes@),
{
    let mut out = String::new();
    let mut i: usize = 0;
    while i < bytes.len()
        invariant
            i <= bytes.len(),
            out@ == hex_text(bytes@).take(2 * i as int),
        decreases bytes.len() - i,
    {
        let b: u8 = bytes[i];
        out.push(hex_char(b / 16));
        out.push(hex_char(b % 16));
        i += 1;
        proof {
            let t = hex_text(bytes@);
            assert(t.take(2 * i as int) =~= t.take(2 * (i - 1)).push(t[2 * (i - 1)]).push(t[2 * (i - 1) + 1]));
        }
    }
    proof {
        assert(hex_text(bytes@).take(2 * i as int) =~= hex_text(bytes@));
    }
    out
}

// --- Integrity --------------------------------------------------------------------

/// What standard base64 text stands for, if it is that.
pub uninterp spec fn base64_bytes(text: Seq<char>) -> Option<Seq<u8>>;

/// Standard base64 text for these bytes.
pub uninterp spec fn base64_text(bytes: Seq<u8>) -> Seq<char>;

/// `Engine::decode` of `base64`'s standard engine: what comes out is a function of
/// the text.
#[verifier::external_body]
fn base64_decode(text: &str) -> (r: Option<Vec<u8>>)
    ensures
        match r {
            Some(bytes) => base64_bytes(text@) == Some(bytes@),
            None => base64_bytes(text@) is None,
        },
{
    match base64::engine::general_purpose::STANDARD.decode(text) {
        Ok(bytes) => Some(bytes),
        Err(_) => None,
    }
}

/// `Engine::encode` of `base64`'s standard engine: the text is a function of the
/// bytes, and the same engine decodes it to them. It panics where the text would be
/// too long to hold, so there is room for it.
#[verifier::external_body]
fn base64_encode(bytes: &[u8]) -> (r: String)
    requires
        bytes@.len() <= usize::MAX / 4,
    ensures
        r@ == base64_text(bytes@),
        base64_bytes(r@) == Some(bytes@),
{
    base64::engine::general_purpose::STANDARD.encode(bytes)
}

/// The digest that an integrity string records, given what its base64 part
/// decodes to.
pub open spec fn digest_in(integrity: Seq<char>, decoded: Option<Seq<u8>>) -> Option<Seq<u8>> {
    if "sha512-"@.is_prefix_of(integrity) && decoded is Some && decoded->Some_0.len() == 64 {
        decoded
    } else {
        None
    }
}

/// The base64 part of an integrity string.
pub open spec fn base64_part(integrity: Seq<char>) -> Seq<char> {
    integrity.skip("sha512-"@.len() as int)
}

/// The digest that an integrity string records.
pub open spec fn recorded_digest(integrity: Seq<char>) -> Option<Seq<u8>> {
    digest_in(integrity, base64_bytes(base64_part(integrity)))
}

/// The digest that an integrity string records, from what its base64 part decodes
/// to.
pub fn check_digest(key: &str, integrity: &str, decoded: Option<Vec<u8>>) -> (r: Result<
    Vec<u8>,
    VendorError,
>)
    ensures
        match (
            digest_in(
                integrity@,
                match decoded {
                    Some(bytes) => Some(bytes@),
                    None => None,
                },
            ),
            r,
        ) {
            (Some(d), Ok(raw)) => raw@ == d,
            (None, Err(e)) => e.deep_view() == (VendorErrorModel::MalformedIntegrity {
                key: key@,
                integrity: integrity@,
            }),
            _ => false,
        },
{
    if starts_with(integrity, "sha512-") {
        if let Some(raw) = decoded {
            if raw.len() == 64 {
                return Ok(raw);
            }
        }
    }
    Err(VendorError::MalformedIntegrity { key: key.to_owned(), integrity: integrity.to_owned() })
}

/// Decode a `sha512-<base64>` integrity string to its raw digest.
pub fn decode_integrity(key: &str, integrity: &str) -> (r: Result<Vec<u8>, VendorError>)
    ensures
        match (recorded_digest(integrity@), r) {
            (Some(d), Ok(raw)) => raw@ == d,
            (None, Err(e)) => e.deep_view() == (VendorErrorModel::MalformedIntegrity {
                key: key@,
                integrity: integrity@,
            }),
            _ => false,
        },
{
    let decoded = match strip_prefix(integrity, "sha512-") {
        Some(b64) => base64_decode(b64.as_str()),
        None => None,
    };
    check_digest(key, integrity, decoded)
}

/// The integrity string for a digest: decoding it gives the digest back.
pub fn encode_integrity(digest: &[u8]) -> (r: String)
    requires
        digest@.len() <= usize::MAX / 4,
    ensures
        r@ == "sha512-"@ + base64_text(digest@),
        digest@.len() == 64 ==> recorded_digest(r@) == Some(digest@),
{
    let mut out = "sha512-".to_owned();
    let b64 = base64_encode(digest);
    out.append(b64.as_str());
    proof {
        assert(out@.subrange(0, "sha512-"@.len() as int) =~= "sha512-"@);
        assert(base64_part(out@) =~= b64@);
    }
    out
}

// --- The archive ------------------------------------------------------------------

/// What the reader says of one member of a tar archive, in archive order.
#[derive(Debug, PartialEq)]
pub enum Header {
    /// The archive could not be opened: the reader's message.
    Unlisted(String),
    /// The next member could not be read: the reader's message.
    Unreadable(String),
    /// A member: its kind, and its path or the reader's message where this system
    /// cannot hold it.
    Entry { is_file: bool, is_dir: bool, path: Result<String, String> },
}

/// The mathematical value of a [`Header`].
pub enum HeaderModel {
    Unlisted(Seq<char>),
    Unreadable(Seq<char>),
    Entry { is_file: bool, is_dir: bool, path: Result<Seq<char>, Seq<char>> },
}

/// A text or a message, as it is.
pub open spec fn text_model(r: Result<String, String>) -> Result<Seq<char>, Seq<char>> {
    match r {
        Ok(s) => Ok(s@),
        Err(e) => Err(e@),
    }
}

impl DeepView for Header {
    type V = HeaderModel;

    open spec fn deep_view(&self) -> HeaderModel {
        match self {
            Header::Unlisted(e) => HeaderModel::Unlisted(e@),
            Header::Unreadable(e) => HeaderModel::Unreadable(e@),
            Header::Entry { is_file, is_dir, path } => HeaderModel::Entry {
                is_file: *is_file,
                is_dir: *is_dir,
                path: text_model(*path),
            },
        }
    }
}

/// The members of a gzipped tar archive, each path as text: what is not UTF-8 in it is
/// written with replacement characters.
pub uninterp spec fn archive_headers(bytes: Seq<u8>) -> Seq<HeaderModel>;

/// The text of a member, by its place, or the reader's message where it has none.
pub uninterp spec fn archive_text(bytes: Seq<u8>, i: int) -> Result<Seq<char>, Seq<char>>;

/// A system's reading of a member: as it is, but that a system whose paths are text
/// cannot hold a path that is none.
pub open spec fn header_fits(got: HeaderModel, named: HeaderModel) -> bool {
    ||| got == named
    ||| {
        &&& got is Entry && named is Entry
        &&& got->is_file == named->is_file
        &&& got->is_dir == named->is_dir
        &&& got->path is Err
        &&& named->path is Ok
        &&& named->path->Ok_0.contains('\u{fffd}')
    }
}

/// A system's reading of an archive.
pub open spec fn headers_fit(got: Seq<HeaderModel>, named: Seq<HeaderModel>) -> bool {
    &&& got.len() == named.len()
    &&& forall|i: int| 0 <= i < got.len() ==> header_fits(#[trigger] got[i], named[i])
}

/// `tar::Archive` over `flate2::read::GzDecoder`: what the members are is a function of
/// the bytes, but that a path that is not UTF-8 is refused on some systems. No member's
/// text is read.
#[verifier::external_body]
fn tar_headers(bytes: &[u8]) -> (r: Vec<Header>)
    ensures
        headers_fit(r.deep_view(), archive_headers(bytes@)),
{
    let mut ar = Archive::new(GzDecoder::new(bytes));
    let entries = match ar.entries() {
        Ok(entries) => entries,
        Err(e) => return vec![Header::Unlisted(e.to_string())],
    };
    entries.map(|entry| match entry {
        Err(e) => Header::Unreadable(e.to_string()),
        Ok(e) => {
            let kind = e.header().entry_type();
            let path = e.path().map(|p| p.to_string_lossy().into_owned());
            let path = path.map_err(|x| x.to_string());
            Header::Entry { is_file: kind.is_file(), is_dir: kind.is_dir(), path }
        },
    }).collect()
}

/// `Read::read_to_string` of the member of a `tar::Archive` at this place: its text, or
/// the reader's message, is a function of the bytes and the place.
#[verifier::external_body]
fn tar_text(bytes: &[u8], i: usize) -> (r: Result<String, String>)
    ensures
        text_model(r) == archive_text(bytes@, i as int),
{
    let (mut ar, mut s) = (Archive::new(GzDecoder::new(bytes)), String::new());
    let mut entries = match ar.entries() {
        Ok(entries) => entries,
        Err(e) => return Err(e.to_string()),
    };
    match entries.nth(i) {
        Some(Ok(mut e)) => e.read_to_string(&mut s).map(|_| s).map_err(|x| x.to_string()),
        Some(Err(e)) => Err(e.to_string()),
        None => Err(String::new()),
    }
}

/// One member of a tar archive, in archive order.
#[derive(Debug, PartialEq)]
pub enum Member {
    /// The archive could not be opened: the reader's message.
    Unlisted(String),
    /// The next member could not be read: the reader's message.
    Unreadable(String),
    /// A member: its kind, its path, and its text where it is a `package.json` at the
    /// root. No other text is read: it stands empty.
    Entry {
        is_file: bool,
        is_dir: bool,
        path: Result<String, String>,
        text: Result<String, String>,
    },
}

/// The mathematical value of a [`Member`].
pub enum MemberModel {
    Unlisted(Seq<char>),
    Unreadable(Seq<char>),
    Entry {
        is_file: bool,
        is_dir: bool,
        path: Result<Seq<char>, Seq<char>>,
        text: Result<Seq<char>, Seq<char>>,
    },
}

impl DeepView for Member {
    type V = MemberModel;

    open spec fn deep_view(&self) -> MemberModel {
        match self {
            Member::Unlisted(e) => MemberModel::Unlisted(e@),
            Member::Unreadable(e) => MemberModel::Unreadable(e@),
            Member::Entry { is_file, is_dir, path, text } => MemberModel::Entry {
                is_file: *is_file,
                is_dir: *is_dir,
                path: text_model(*path),
                text: text_model(*text),
            },
        }
    }
}

/// A file that is the `package.json` of its root.
pub open spec fn is_root_manifest(is_file: bool, path: Result<Seq<char>, Seq<char>>) -> bool {
    is_file && path is Ok && below_root(slashed(path->Ok_0)) == "package.json"@
}

/// A member with its text where that is read.
pub open spec fn member_from(bytes: Seq<u8>, header: HeaderModel, i: int) -> MemberModel {
    match header {
        HeaderModel::Unlisted(e) => MemberModel::Unlisted(e),
        HeaderModel::Unreadable(e) => MemberModel::Unreadable(e),
        HeaderModel::Entry { is_file, is_dir, path } => MemberModel::Entry {
            is_file,
            is_dir,
            path,
            text: if is_root_manifest(is_file, path) {
                archive_text(bytes, i)
            } else {
                Ok(Seq::empty())
            },
        },
    }
}

/// The members of an archive that a system reads like this.
pub open spec fn members_from(bytes: Seq<u8>, headers: Seq<HeaderModel>) -> Seq<MemberModel> {
    Seq::new(headers.len(), |i: int| member_from(bytes, headers[i], i))
}

fn root_manifest(is_file: bool, path: &Result<String, String>) -> (r: bool)
    ensures
        r == is_root_manifest(is_file, text_model(*path)),
{
    match path {
        Err(_) => false,
        Ok(path) => {
            let path = slash_path(path.as_str());
            let chars = chars_of(path.as_str());
            let slash = find_char(&chars, '/', 0);
            let rel = if slash < chars.len() {
                text_of(&chars, slash + 1, chars.len())
            } else {
                String::new()
            };
            assert(rel@ =~= below_root(path@));
            is_file && same(rel.as_str(), "package.json")
        },
    }
}

/// Reads the members of an archive.
fn read_members(bytes: &[u8]) -> (r: Vec<Member>)
    ensures
        exists|headers: Seq<HeaderModel>|
            #[trigger] headers_fit(headers, archive_headers(bytes@)) && r.deep_view() == members_from(
                bytes@,
                headers,
            ),
{
    let headers = tar_headers(bytes);
    let ghost hs = headers.deep_view();
    let ghost want = members_from(bytes@, hs);
    let mut out: Vec<Member> = Vec::new();
    let mut i: usize = 0;
    assert(out.deep_view() =~= want.take(0));
    while i < headers.len()
        invariant
            hs == headers.deep_view(),
            want == members_from(bytes@, hs),
            i <= hs.len(),
            out.deep_view() == want.take(i as int),
        decreases hs.len() - i,
    {
        assert(hs[i as int] == headers@[i as int].deep_view());
        let ghost before = out.deep_view();
        let member = match &headers[i] {
            Header::Unlisted(e) => Member::Unlisted(e.clone()),
            Header::Unreadable(e) => Member::Unreadable(e.clone()),
            Header::Entry { is_file, is_dir, path } => {
                let text = if root_manifest(*is_file, path) {
                    tar_text(bytes, i)
                } else {
                    Ok(String::new())
                };
                assert(text_model(text) =~= member_from(bytes@, hs[i as int], i as int)->text);
                let path = match path {
                    Ok(p) => Ok(p.clone()),
                    Err(e) => Err(e.clone()),
                };
                Member::Entry { is_file: *is_file, is_dir: *is_dir, path, text }
            },
        };
        assert(member.deep_view() == want[i as int]);
        out.push(member);
        i += 1;
        assert(out.deep_view() =~= before.push(want[i - 1]));
        assert(want.take(i as int) =~= before.push(want[i - 1]));
    }
    assert(want.take(i as int) =~= want);
    out
}

/// What is known of an archive part way through it.
pub struct ListingModel {
    pub root: Option<Seq<char>>,
    pub manifest: Option<Seq<char>>,
    pub entries: Seq<Seq<char>>,
}

/// The first component of a path.
pub open spec fn root_of(path: Seq<char>) -> Seq<char> {
    path.take(index_from(path, '/', 0))
}

/// What follows the first component of a path, empty where nothing does.
pub open spec fn below_root(path: Seq<char>) -> Seq<char> {
    if index_from(path, '/', 0) < path.len() {
        path.skip(index_from(path, '/', 0) + 1)
    } else {
        Seq::empty()
    }
}

/// A tarball that cannot be used.
pub open spec fn malformed(key: Seq<char>, reason: Seq<char>) -> VendorErrorModel {
    VendorErrorModel::MalformedTarball { key, reason }
}

/// What one more file or directory adds.
pub open spec fn after_entry(
    key: Seq<char>,
    before: ListingModel,
    is_file: bool,
    path: Seq<char>,
    text: Result<Seq<char>, Seq<char>>,
) -> Result<ListingModel, VendorErrorModel> {
    let root = root_of(path);
    let rel = below_root(path);
    if before.root is Some && before.root != Some(root) {
        Err(
            malformed(
                key,
                "archive has inconsistent root directories: `"@ + before.root->Some_0 + "` and `"@
                    + root + "`"@,
            ),
        )
    } else if rel.len() == 0 || !is_file {
        Ok(ListingModel { root: Some(root), ..before })
    } else if rel == "package.json"@ {
        match text {
            Err(e) => Err(malformed(key, "cannot read package.json: "@ + e)),
            Ok(s) => Ok(
                ListingModel {
                    root: Some(root),
                    manifest: Some(s),
                    entries: before.entries.push(rel),
                },
            ),
        }
    } else {
        Ok(ListingModel { root: Some(root), entries: before.entries.push(rel), ..before })
    }
}

/// What one more member adds. Members that are neither files nor directories carry
/// names that are not part of the tree.
pub open spec fn after_member(key: Seq<char>, before: ListingModel, member: MemberModel) -> Result<
    ListingModel,
    VendorErrorModel,
> {
    match member {
        MemberModel::Unlisted(e) => Err(malformed(key, "cannot read tar entries: "@ + e)),
        MemberModel::Unreadable(e) => Err(malformed(key, "cannot read tar entry: "@ + e)),
        MemberModel::Entry { is_file, is_dir, path, text } => if !is_file && !is_dir {
            Ok(before)
        } else {
            match path {
                Err(e) => Err(malformed(key, "cannot read entry path: "@ + e)),
                Ok(p) => after_entry(key, before, is_file, slashed(p), text),
            }
        },
    }
}

/// What the first `n` members come to.
pub open spec fn listing_of(key: Seq<char>, members: Seq<MemberModel>, n: int) -> Result<
    ListingModel,
    VendorErrorModel,
>
    decreases n,
{
    if n <= 0 {
        Ok(ListingModel { root: None, manifest: None, entries: Seq::empty() })
    } else {
        match listing_of(key, members, n - 1) {
            Err(e) => Err(e),
            Ok(before) => after_member(key, before, members[n - 1]),
        }
    }
}

/// `x` put into a sorted list, behind what does not come after it.
pub open spec fn insert_text(s: Seq<Seq<char>>, x: Seq<char>) -> Seq<Seq<char>>
    decreases s.len(),
{
    if s.len() > 0 && text_lt(x, s.last()) {
        insert_text(s.drop_last(), x).push(s.last())
    } else {
        s.push(x)
    }
}

/// The first `n` texts, sorted.
pub open spec fn sorted_texts(s: Seq<Seq<char>>, n: int) -> Seq<Seq<char>>
    decreases n,
{
    if n <= 0 {
        Seq::empty()
    } else {
        insert_text(sorted_texts(s, n - 1), s[n - 1])
    }
}

/// What an archive holds, reduced to what inspection needs.
#[derive(Debug, PartialEq)]
pub struct Listing {
    /// The single directory every entry nests under, no trailing slash.
    pub root: String,
    /// The text of the root's `package.json`.
    pub manifest: String,
    /// Files only, relative to the root, sorted.
    pub entries: Vec<String>,
}

/// An archive's listing, or why it cannot be used.
pub open spec fn listing_result(key: Seq<char>, members: Seq<MemberModel>) -> Result<
    ListingModel,
    VendorErrorModel,
> {
    match listing_of(key, members, members.len() as int) {
        Err(e) => Err(e),
        Ok(l) => if l.manifest is None {
            Err(VendorErrorModel::MissingPackageJson { key })
        } else {
            Ok(ListingModel { entries: sorted_texts(l.entries, l.entries.len() as int), ..l })
        },
    }
}

fn malformed_error(key: &str, what: &str, e: &str) -> (r: VendorError)
    ensures
        r.deep_view() == malformed(key@, what@ + e@),
{
    let mut reason = what.to_owned();
    reason.append(e);
    VendorError::MalformedTarball { key: key.to_owned(), reason }
}

/// Puts a text into a sorted list.
fn insert_sorted(list: &mut Vec<String>, x: String)
    ensures
        final(list).deep_view() == insert_text(old(list).deep_view(), x@),
{
    let ghost s = list.deep_view();
    let ghost key = x@;
    let mut p: usize = list.len();
    proof {
        assert(s.take(p as int) =~= s);
        assert(insert_text(s.take(p as int), key) + s.skip(p as int) =~= insert_text(s, key));
    }
    while p > 0 && precedes(x.as_str(), list[p - 1].as_str())
        invariant
            s == list.deep_view(),
            key == x@,
            p <= s.len(),
            insert_text(s, key) == insert_text(s.take(p as int), key) + s.skip(p as int),
        decreases p,
    {
        p -= 1;
        proof {
            assert(s[p as int] == list@[p as int]@);
            assert(s.take(p + 1).drop_last() =~= s.take(p as int));
            assert(s.take(p + 1).last() == s[p as int]);
            assert(s.skip(p as int) =~= seq![s[p as int]] + s.skip(p + 1));
            assert(insert_text(s.take(p as int), key).push(s[p as int]) + s.skip(p + 1)
                =~= insert_text(s.take(p as int), key) + s.skip(p as int));
        }
    }
    proof {
        if p > 0 {
            assert(s.take(p as int).last() == list@[p - 1]@);
        }
        assert(insert_text(s.take(p as int), key) == s.take(p as int).push(key));
    }
    list.insert(p, x);
    proof {
        assert(list.deep_view() =~= s.take(p as int).push(key) + s.skip(p as int));
    }
}

fn sort_texts(texts: &Vec<String>) -> (r: Vec<String>)
    ensures
        r.deep_view() == sorted_texts(texts.deep_view(), texts.deep_view().len() as int),
{
    let ghost s = texts.deep_view();
    let mut out: Vec<String> = Vec::new();
    let mut i: usize = 0;
    assert(out.deep_view() =~= sorted_texts(s, 0));
    while i < texts.len()
        invariant
            s == texts.deep_view(),
            i <= s.len(),
            out.deep_view() == sorted_texts(s, i as int),
        decreases s.len() - i,
    {
        assert(s[i as int] == texts@[i as int]@);
        insert_sorted(&mut out, texts[i].clone());
        i += 1;
    }
    out
}

/// Walks the members once, collecting `package.json` and the file list.
pub fn list_members(key: &str, members: &Vec<Member>) -> (r: Result<Listing, VendorError>)
    ensures
        match (listing_result(key@, members.deep_view()), r) {
            (Ok(m), Ok(l)) => m.root == Some(l.root@) && m.manifest == Some(l.manifest@)
                && m.entries == l.entries.deep_view(),
            (Err(m), Err(e)) => e.deep_view() == m,
            _ => false,
        },
{
    let ghost ms = members.deep_view();
    let mut root: Option<String> = None;
    let mut manifest: Option<String> = None;
    let mut entries: Vec<String> = Vec::new();
    let mut i: usize = 0;
    assert(entries.deep_view() =~= Seq::<Seq<char>>::empty());
    while i < members.len()
        invariant
            ms == members.deep_view(),
            i <= ms.len(),
            listing_of(key@, ms, i as int) == Ok::<ListingModel, VendorErrorModel>(
                ListingModel {
                    root: root.deep_view(),
                    manifest: manifest.deep_view(),
                    entries: entries.deep_view(),
                },
            ),
            manifest is Some ==> root is Some,
        decreases ms.len() - i,
    {
        let ghost before = ListingModel {
            root: root.deep_view(),
            manifest: manifest.deep_view(),
            entries: entries.deep_view(),
        };
        assert(ms[i as int] == members@[i as int].deep_view());
        assert(listing_of(key@, ms, i + 1) == after_member(key@, before, ms[i as int]));
        match &members[i] {
            Member::Unlisted(e) => {
                proof {
                    listing_fails(key@, ms, i + 1);
                }
                return Err(malformed_error(key, "cannot read tar entries: ", e.as_str()));
            },
            Member::Unreadable(e) => {
                proof {
                    listing_fails(key@, ms, i + 1);
                }
                return Err(malformed_error(key, "cannot read tar entry: ", e.as_str()));
            },
            Member::Entry { is_file, is_dir, path, text } => {
                if *is_file || *is_dir {
                    let path = match path {
                        Ok(p) => slash_path(p.as_str()),
                        Err(e) => {
                            proof {
                                listing_fails(key@, ms, i + 1);
                            }
                            return Err(
                                malformed_error(key, "cannot read entry path: ", e.as_str()),
                            );
                        },
                    };
                    let chars = chars_of(path.as_str());
                    let slash = find_char(&chars, '/', 0);
                    let this_root = text_of(&chars, 0, slash);
                    assert(this_root@ =~= root_of(path@));
                    if let Some(r) = &root {
                        if !same(r.as_str(), this_root.as_str()) {
                            proof {
                                listing_fails(key@, ms, i + 1);
                            }
                            let mut reason =
                                "archive has inconsistent root directories: `".to_owned();
                            reason.append(r.as_str());
                            reason.append("` and `");
                            reason.append(this_root.as_str());
                            reason.append("`");
                            return Err(
                                VendorError::MalformedTarball { key: key.to_owned(), reason },
                            );
                        }
                    }
                    root = Some(this_root);
                    let rel = if slash < chars.len() {
                        text_of(&chars, slash + 1, chars.len())
                    } else {
                        String::new()
                    };
                    assert(rel@ =~= below_root(path@));
                    if *is_file && !rel.as_str().is_empty() {
                        if same(rel.as_str(), "package.json") {
                            match text {
                                Ok(s) => {
                                    manifest = Some(s.clone());
                                },
                                Err(e) => {
                                    proof {
                                        listing_fails(key@, ms, i + 1);
                                    }
                                    return Err(
                                        malformed_error(
                                            key,
                                            "cannot read package.json: ",
                                            e.as_str(),
                                        ),
                                    );
                                },
                            }
                        }
                        let ghost prior = entries.deep_view();
                        let ghost added = rel@;
                        entries.push(rel);
                        assert(entries.deep_view() =~= prior.push(added));
                    }
                }
            },
        }
        i += 1;
    }
    match (root, manifest) {
        (Some(root), Some(manifest)) => Ok(
            Listing { root, manifest, entries: sort_texts(&entries) },
        ),
        _ => Err(VendorError::MissingPackageJson { key: key.to_owned() }),
    }
}

/// What fails part way fails altogether, and in the same way.
proof fn listing_fails(key: Seq<char>, members: Seq<MemberModel>, n: int)
    requires
        0 <= n <= members.len(),
        listing_of(key, members, n) is Err,
    ensures
        listing_of(key, members, members.len() as int) == listing_of(key, members, n),
{
    listing_fails_from(key, members, n, members.len() as int);
}

proof fn listing_fails_from(key: Seq<char>, members: Seq<MemberModel>, n: int, m: int)
    requires
        0 <= n <= m,
        listing_of(key, members, n) is Err,
    ensures
        listing_of(key, members, m) == listing_of(key, members, n),
    decreases m - n,
{
    if n < m {
        listing_fails_from(key, members, n, m - 1);
    }
}

// --- What the package declares ------------------------------------------------------

/// What inspecting the archive yields.
#[derive(Debug, PartialEq)]
pub struct Inspection {
    /// The archive's single root directory, with no trailing slash. Usually
    /// `package`, but `@types/*` packages nest under their own display name.
    pub root: String,
    pub bin: Dict<String>,
    pub has_install_script: bool,
}

/// A tarball whose sha512 matched the lockfile.
#[derive(Debug, PartialEq)]
pub struct Verified {
    /// Lowercase hex.
    pub sha256: String,
    /// Compressed byte count.
    pub size: u64,
    pub inspection: Inspection,
}

/// The mathematical value of an [`Inspection`].
pub struct InspectionModel {
    pub root: Seq<char>,
    pub bin: Seq<(Seq<char>, Seq<char>)>,
    pub has_install_script: bool,
}

impl DeepView for Inspection {
    type V = InspectionModel;

    open spec fn deep_view(&self) -> InspectionModel {
        InspectionModel {
            root: self.root@,
            bin: self.bin.deep_view(),
            has_install_script: self.has_install_script,
        }
    }
}

/// The mathematical value of a [`Verified`].
pub struct VerifiedModel {
    pub sha256: Seq<char>,
    pub size: u64,
    pub inspection: InspectionModel,
}

impl DeepView for Verified {
    type V = VerifiedModel;

    open spec fn deep_view(&self) -> VerifiedModel {
        VerifiedModel {
            sha256: self.sha256@,
            size: self.size,
            inspection: self.inspection.deep_view(),
        }
    }
}

/// A field of a manifest, null where it is absent.
pub open spec fn manifest_field(doc: JsonModel, key: Seq<char>) -> JsonModel {
    match member_of(doc, key) {
        Some(v) => v,
        None => JsonModel::Null,
    }
}

/// A manifest's `bin`.
pub open spec fn bin_field(doc: JsonModel) -> JsonModel {
    manifest_field(doc, "bin"@)
}

/// A manifest's `directories`.
pub open spec fn directories_field(doc: JsonModel) -> JsonModel {
    manifest_field(doc, "directories"@)
}

/// A manifest's `scripts`.
pub open spec fn scripts_field(doc: JsonModel) -> JsonModel {
    manifest_field(doc, "scripts"@)
}

/// A script of this name that is not empty.
pub open spec fn has_script(scripts: JsonModel, name: Seq<char>) -> bool {
    text_member(scripts, name) is Some && text_member(scripts, name)->Some_0.len() > 0
}

/// The package runs something when it is installed: it has an install script, a
/// `binding.gyp` at its root, or anything under `.hooks/`.
pub open spec fn runs_on_install(doc: JsonModel, entries: Seq<Seq<char>>) -> bool {
    let scripts = scripts_field(doc);
    ||| has_script(scripts, "preinstall"@)
    ||| has_script(scripts, "install"@)
    ||| has_script(scripts, "postinstall"@)
    ||| exists|i: int|
        0 <= i < entries.len() && (#[trigger] entries[i] == "binding.gyp"@
            || ".hooks/"@.is_prefix_of(entries[i]))
}

/// `@scope/tool` is the command `tool`; `tool` is itself.
pub open spec fn command_text(raw: Seq<char>) -> Seq<char> {
    if raw.len() > 0 && raw[0] == '@' && index_from(raw, '/', 0) < raw.len() {
        raw.skip(index_from(raw, '/', 0) + 1)
    } else {
        raw
    }
}

/// A character that stands for itself in a URL component.
pub open spec fn is_unreserved(c: char) -> bool {
    is_ascii_alnum(c) || c == '-' || c == '_' || c == '.' || c == '!' || c == '~' || c == '*' || c
        == '\'' || c == '(' || c == ')'
}

/// A command name that needs no escaping in a URL.
pub open spec fn url_safe(s: Seq<char>) -> bool {
    forall|i: int| 0 <= i < s.len() ==> is_unreserved(#[trigger] s[i])
}

/// One thing that comes of a declared bin.
pub enum BinStep {
    Put { name: Seq<char>, path: Seq<char> },
    Warn { warning: VendorWarningModel },
}

/// What comes of a bin that the manifest names.
pub open spec fn declared_step(key: Seq<char>, name: Seq<char>, path: Seq<char>) -> BinStep {
    if !url_safe(name) && name != "$"@ {
        BinStep::Warn { warning: VendorWarningModel::BinNameRejected { key, name } }
    } else {
        match contained_text(path) {
            Some(p) => BinStep::Put { name, path: p },
            None => BinStep::Warn {
                warning: VendorWarningModel::BinPathEscapes { key, name, path },
            },
        }
    }
}

/// What comes of one member of a `bin` object.
pub open spec fn member_step(key: Seq<char>, member: (Seq<char>, JsonModel)) -> BinStep {
    match member.1 {
        JsonModel::Text(path) => declared_step(key, command_text(member.0), path),
        _ => BinStep::Warn {
            warning: VendorWarningModel::NonStringBinValue { key, name: member.0 },
        },
    }
}

/// What comes of those of the first `n` files that lie under `prefix`: each under
/// its own file name.
pub open spec fn directory_steps(prefix: Seq<char>, entries: Seq<Seq<char>>, n: int) -> Seq<BinStep>
    decreases n,
{
    if n <= 0 {
        Seq::empty()
    } else {
        let before = directory_steps(prefix, entries, n - 1);
        let e = entries[n - 1];
        if prefix.is_prefix_of(e) {
            before.push(
                BinStep::Put { name: split_on(e.skip(prefix.len() as int), '/').last(), path: e },
            )
        } else {
            before
        }
    }
}

/// A printed number that is zero.
pub open spec fn is_zero(n: Seq<char>) -> bool {
    n == "0"@ || n == "0.0"@ || n == "-0.0"@
}

/// A `bin` that JavaScript would take for absent: null, `false`, an empty text or
/// zero.
pub open spec fn is_falsy(bin: JsonModel) -> bool {
    match bin {
        JsonModel::Null => true,
        JsonModel::Bool(b) => !b,
        JsonModel::Number(n) => is_zero(n),
        JsonModel::Text(s) => s.len() == 0,
        _ => false,
    }
}

/// What comes of a package's bins.
///
/// A `bin` field takes precedence over `directories.bin` even when it yields
/// nothing.
pub open spec fn bin_steps(
    key: Seq<char>,
    name: Seq<char>,
    doc: JsonModel,
    entries: Seq<Seq<char>>,
) -> Seq<BinStep> {
    let bin = bin_field(doc);
    if is_falsy(bin) {
        match text_member(directories_field(doc), "bin"@) {
            Some(dir) => match contained_text(dir) {
                Some(d) => directory_steps(d + "/"@, entries, entries.len() as int),
                None => Seq::empty(),
            },
            None => Seq::empty(),
        }
    } else {
        match bin {
            JsonModel::Text(path) => seq![declared_step(key, command_text(name), path)],
            JsonModel::Object(members) => members.map_values(
                |m: (Seq<char>, JsonModel)| member_step(key, m),
            ),
            _ => Seq::empty(),
        }
    }
}

/// The bins after the first `n` steps: the last of a name stays.
pub open spec fn bins_after(steps: Seq<BinStep>, n: int) -> Map<Seq<char>, Seq<char>>
    decreases n,
{
    if n <= 0 {
        Map::empty()
    } else {
        match steps[n - 1] {
            BinStep::Put { name, path } => bins_after(steps, n - 1).insert(name, path),
            BinStep::Warn { warning } => bins_after(steps, n - 1),
        }
    }
}

/// The warnings after the first `n` steps: those given, and one for each bin whose
/// name was there already.
pub open spec fn warnings_after(key: Seq<char>, steps: Seq<BinStep>, n: int) -> Seq<
    VendorWarningModel,
>
    decreases n,
{
    if n <= 0 {
        Seq::empty()
    } else {
        let before = warnings_after(key, steps, n - 1);
        match steps[n - 1] {
            BinStep::Put { name, path } => if bins_after(steps, n - 1).contains_key(name) {
                before.push(VendorWarningModel::BinNameCollision { key, name })
            } else {
                before
            },
            BinStep::Warn { warning } => before.push(warning),
        }
    }
}

fn script(scripts: Option<&Json>, name: &str) -> (r: bool)
    ensures
        r == match scripts {
            Some(j) => has_script(json_model(*j), name@),
            None => false,
        },
{
    match scripts {
        Some(j) => match j.get_str(name) {
            Some(s) => !s.as_str().is_empty(),
            None => false,
        },
        None => false,
    }
}

/// Whether the package runs something when it is installed.
pub fn has_install_script(doc: &Json, entries: &Vec<String>) -> (r: bool)
    ensures
        r == runs_on_install(json_model(*doc), entries.deep_view()),
{
    let ghost es = entries.deep_view();
    let scripts = doc.get("scripts");
    if script(scripts, "preinstall") || script(scripts, "install") || script(
        scripts,
        "postinstall",
    ) {
        return true;
    }
    let mut i: usize = 0;
    while i < entries.len()
        invariant
            es == entries.deep_view(),
            i <= es.len(),
            forall|k: int|
                0 <= k < i ==> !(#[trigger] es[k] == "binding.gyp"@ || ".hooks/"@.is_prefix_of(
                    es[k],
                )),
        decreases es.len() - i,
    {
        assert(es[i as int] == entries@[i as int]@);
        if same(entries[i].as_str(), "binding.gyp") || starts_with(entries[i].as_str(), ".hooks/") {
            return true;
        }
        i += 1;
    }
    false
}

/// `@scope/tool` becomes `tool`.
fn command_name(raw: &str) -> (r: String)
    ensures
        r@ == command_text(raw@),
{
    let chars = chars_of(raw);
    if chars.len() > 0 && chars[0] == '@' {
        let slash = find_char(&chars, '/', 0);
        if slash < chars.len() {
            let r = text_of(&chars, slash + 1, chars.len());
            assert(r@ =~= raw@.skip(slash + 1));
            return r;
        }
    }
    raw.to_owned()
}

/// Whether a command name needs no escaping in a URL. An empty name passes.
pub(crate) fn is_url_safe(s: &str) -> (r: bool)
    ensures
        r == url_safe(s@),
{
    let chars = chars_of(s);
    let mut i: usize = 0;
    while i < chars.len()
        invariant
            chars@ == s@,
            i <= chars.len(),
            forall|k: int| 0 <= k < i ==> is_unreserved(#[trigger] s@[k]),
        decreases chars.len() - i,
    {
        let c = chars[i];
        if !(ascii_alnum(c) || c == '-' || c == '_' || c == '.' || c == '!' || c == '~' || c == '*' || c
            == '\'' || c == '(' || c == ')') {
            assert(!is_unreserved(s@[i as int]));
            return false;
        }
        i += 1;
    }
    true
}

/// The bins and warnings gathered by the first `n` steps, the warnings behind those
/// that were there before.
spec fn gathered(
    key: Seq<char>,
    steps: Seq<BinStep>,
    n: int,
    earlier: Seq<VendorWarningModel>,
    out: Dict<String>,
    warnings: Vec<VendorWarning>,
) -> bool {
    &&& as_map(out.deep_view()) == bins_after(steps, n)
    &&& warnings.deep_view() == earlier + warnings_after(key, steps, n)
}

/// Puts a bin in and warns where its name was there already.
fn insert_named(
    key: &str,
    name: &str,
    path: &str,
    out: &mut Dict<String>,
    warnings: &mut Vec<VendorWarning>,
)
    ensures
        as_map(final(out).deep_view()) == as_map(old(out).deep_view()).insert(name@, path@),
        final(warnings).deep_view() == if as_map(old(out).deep_view()).contains_key(name@) {
            old(warnings).deep_view().push(
                VendorWarningModel::BinNameCollision { key: key@, name: name@ },
            )
        } else {
            old(warnings).deep_view()
        },
{
    let there = out.contains_key(name);
    out.insert(name.to_owned(), path.to_owned());
    if there {
        let ghost before = warnings.deep_view();
        warnings.push(
            VendorWarning::BinNameCollision { key: key.to_owned(), name: name.to_owned() },
        );
        assert(warnings.deep_view() =~= before.push(
            VendorWarningModel::BinNameCollision { key: key@, name: name@ },
        ));
    }
}

/// Takes a bin that the manifest names.
fn insert_bin(
    key: &str,
    name: &str,
    path: &str,
    out: &mut Dict<String>,
    warnings: &mut Vec<VendorWarning>,
)
    ensures
        match declared_step(key@, name@, path@) {
            BinStep::Put { name: n, path: p } => {
                &&& as_map(final(out).deep_view()) == as_map(old(out).deep_view()).insert(n, p)
                &&& final(warnings).deep_view() == if as_map(
                    old(out).deep_view(),
                ).contains_key(n) {
                    old(warnings).deep_view().push(
                        VendorWarningModel::BinNameCollision { key: key@, name: n },
                    )
                } else {
                    old(warnings).deep_view()
                }
            },
            BinStep::Warn { warning } => {
                &&& as_map(final(out).deep_view()) == as_map(old(out).deep_view())
                &&& final(warnings).deep_view() == old(warnings).deep_view().push(warning)
            },
        },
{
    let ghost before = warnings.deep_view();
    if !is_url_safe(name) && !same(name, "$") {
        warnings.push(
            VendorWarning::BinNameRejected { key: key.to_owned(), name: name.to_owned() },
        );
        assert(warnings.deep_view() =~= before.push(
            VendorWarningModel::BinNameRejected { key: key@, name: name@ },
        ));
        return ;
    }
    match contained_path(path) {
        Some(p) => {
            insert_named(key, name, p.as_str(), out, warnings);
        },
        None => {
            warnings.push(
                VendorWarning::BinPathEscapes {
                    key: key.to_owned(),
                    name: name.to_owned(),
                    path: path.to_owned(),
                },
            );
            assert(warnings.deep_view() =~= before.push(
                VendorWarningModel::BinPathEscapes { key: key@, name: name@, path: path@ },
            ));
        },
    }
}

fn number_is_zero(n: &str) -> (r: bool)
    ensures
        r == is_zero(n@),
{
    same(n, "0") || same(n, "0.0") || same(n, "-0.0")
}

fn bins_from_object(
    key: &str,
    members: &Vec<(String, Json)>,
    warnings: &mut Vec<VendorWarning>,
) -> (out: Dict<String>)
    ensures
        ({
            let steps = json_model(Json::Object(*members))->Object_0.map_values(
                |m: (Seq<char>, JsonModel)| member_step(key@, m),
            );
            gathered(
                key@,
                steps,
                steps.len() as int,
                old(warnings).deep_view(),
                out,
                *final(warnings),
            )
        }),
{
    let ghost ms = json_model(Json::Object(*members))->Object_0;
    let ghost steps = ms.map_values(|m: (Seq<char>, JsonModel)| member_step(key@, m));
    let ghost earlier = warnings.deep_view();
    let mut out: Dict<String> = Dict::new();
    let mut i: usize = 0;
    assert(as_map(out.deep_view()) =~= bins_after(steps, 0));
    assert(earlier + warnings_after(key@, steps, 0) =~= earlier);
    while i < members.len()
        invariant
            ms == json_model(Json::Object(*members))->Object_0,
            ms.len() == members.len(),
            steps == ms.map_values(|m: (Seq<char>, JsonModel)| member_step(key@, m)),
            i <= members.len(),
            gathered(key@, steps, i as int, earlier, out, *warnings),
        decreases members.len() - i,
    {
        assert(ms[i as int] == (members@[i as int].0@, json_model(members@[i as int].1)));
        assert(steps[i as int] == member_step(key@, ms[i as int]));
        let ghost prior = warnings.deep_view();
        match &members[i].1 {
            Json::Text(path) => {
                let name = command_name(members[i].0.as_str());
                insert_bin(key, name.as_str(), path.as_str(), &mut out, warnings);
            },
            _ => {
                warnings.push(
                    VendorWarning::NonStringBinValue {
                        key: key.to_owned(),
                        name: members[i].0.clone(),
                    },
                );
                assert(warnings.deep_view() =~= prior.push(
                    VendorWarningModel::NonStringBinValue { key: key@, name: ms[i as int].0 },
                ));
            },
        }
        i += 1;
        assert(warnings.deep_view() =~= earlier + warnings_after(key@, steps, i as int));
    }
    out
}

fn bins_from_directory(
    key: &str,
    prefix: &str,
    entries: &Vec<String>,
    warnings: &mut Vec<VendorWarning>,
) -> (out: Dict<String>)
    ensures
        ({
            let steps = directory_steps(
                prefix@,
                entries.deep_view(),
                entries.deep_view().len() as int,
            );
            gathered(
                key@,
                steps,
                steps.len() as int,
                old(warnings).deep_view(),
                out,
                *final(warnings),
            )
        }),
{
    let ghost es = entries.deep_view();
    let ghost all = directory_steps(prefix@, es, es.len() as int);
    let ghost earlier = warnings.deep_view();
    let mut out: Dict<String> = Dict::new();
    let mut i: usize = 0;
    let ghost mut steps = directory_steps(prefix@, es, 0);
    assert(as_map(out.deep_view()) =~= bins_after(steps, 0));
    assert(earlier + warnings_after(key@, steps, 0) =~= earlier);
    while i < entries.len()
        invariant
            es == entries.deep_view(),
            i <= es.len(),
            steps == directory_steps(prefix@, es, i as int),
            gathered(key@, steps, steps.len() as int, earlier, out, *warnings),
        decreases es.len() - i,
    {
        let entry = entries[i].as_str();
        assert(es[i as int] == entry@);
        let ghost before = steps;
        if let Some(rest) = strip_prefix(entry, prefix) {
            let parts = split(rest.as_str(), '/');
            let ghost ps = split_on(rest@, '/');
            let base = &parts[parts.len() - 1];
            assert(ps.last() == base@);
            insert_named(key, base.as_str(), entry, &mut out, warnings);
            proof {
                let step = BinStep::Put { name: base@, path: entry@ };
                steps = before.push(step);
                steps_extend(key@, before, step, before.len() as int);
                assert(steps == directory_steps(prefix@, es, i + 1));
                assert(warnings.deep_view() =~= earlier + warnings_after(
                    key@,
                    steps,
                    steps.len() as int,
                ));
            }
        }
        i += 1;
    }
    out
}

/// Steps added behind leave what the earlier ones gathered as it is.
proof fn steps_extend(key: Seq<char>, steps: Seq<BinStep>, step: BinStep, n: int)
    requires
        0 <= n <= steps.len(),
    ensures
        bins_after(steps.push(step), n) == bins_after(steps, n),
        warnings_after(key, steps.push(step), n) == warnings_after(key, steps, n),
    decreases n,
{
    if n > 0 {
        steps_extend(key, steps, step, n - 1);
        assert(steps.push(step)[n - 1] == steps[n - 1]);
    }
}

/// The commands that a package installs, from its manifest and its files.
pub fn resolve_bins(
    key: &str,
    name: &str,
    doc: &Json,
    entries: &Vec<String>,
    warnings: &mut Vec<VendorWarning>,
) -> (out: Dict<String>)
    ensures
        ({
            let steps = bin_steps(key@, name@, json_model(*doc), entries.deep_view());
            &&& as_map(out.deep_view()) == bins_after(steps, steps.len() as int)
            &&& final(warnings).deep_view() == old(warnings).deep_view() + warnings_after(
                key@,
                steps,
                steps.len() as int,
            )
        }),
{
    let ghost m = json_model(*doc);
    let ghost earlier = warnings.deep_view();
    let ghost steps = bin_steps(key@, name@, m, entries.deep_view());
    let bin = doc.get("bin");
    let falsy = match bin {
        None => true,
        Some(j) => match j {
            Json::Null => true,
            Json::Bool(b) => !*b,
            Json::Number(n) => number_is_zero(n.as_str()),
            Json::Text(s) => s.as_str().is_empty(),
            _ => false,
        },
    };
    assert(falsy == is_falsy(bin_field(m)));
    if falsy {
        if let Some(directories) = doc.get("directories") {
            if let Some(dir) = directories.get_str("bin") {
                if let Some(d) = contained_path(dir.as_str()) {
                    let mut prefix = d;
                    prefix.append("/");
                    return bins_from_directory(key, prefix.as_str(), entries, warnings);
                }
            }
        }
    } else if let Some(j) = bin {
        match j {
            Json::Text(path) => {
                let mut out: Dict<String> = Dict::new();
                let command = command_name(name);
                proof {
                    assert(as_map(out.deep_view()) =~= bins_after(steps, 0));
                }
                insert_bin(key, command.as_str(), path.as_str(), &mut out, warnings);
                proof {
                    assert(steps[0] == declared_step(key@, command_text(name@), path@));
                    assert(bins_after(steps, 0) =~= Map::empty());
                    assert(warnings_after(key@, steps, 0) =~= Seq::empty());
                    assert(warnings.deep_view() =~= earlier + warnings_after(key@, steps, 1));
                }
                return out;
            },
            Json::Object(members) => {
                return bins_from_object(key, members, warnings);
            },
            _ => {},
        }
    }
    let out: Dict<String> = Dict::new();
    proof {
        assert(steps =~= Seq::empty());
        assert(as_map(out.deep_view()) =~= bins_after(steps, 0));
        assert(earlier + warnings_after(key@, steps, 0) =~= earlier);
    }
    out
}

/// Inspects an archive whose manifest has been read.
pub fn inspect(key: &str, name: &str, listing: Listing, doc: &Json) -> (r: (
    Inspection,
    Vec<VendorWarning>,
))
    ensures
        inspection_agrees(
            key@,
            name@,
            listing.root@,
            listing.entries.deep_view(),
            json_model(*doc),
            r.0,
            r.1,
        ),
{
    let mut warnings: Vec<VendorWarning> = Vec::new();
    assert(warnings.deep_view() =~= Seq::<VendorWarningModel>::empty());
    let bin = resolve_bins(key, name, doc, &listing.entries, &mut warnings);
    let has_install_script = has_install_script(doc, &listing.entries);
    proof {
        let steps = bin_steps(key@, name@, json_model(*doc), listing.entries.deep_view());
        assert(warnings.deep_view() =~= warnings_after(key@, steps, steps.len() as int));
    }
    (Inspection { root: listing.root, bin, has_install_script }, warnings)
}

/// An inspection holds what the archive's root, files and manifest come to.
pub open spec fn inspection_agrees(
    key: Seq<char>,
    name: Seq<char>,
    root: Seq<char>,
    entries: Seq<Seq<char>>,
    doc: JsonModel,
    inspection: Inspection,
    warnings: Vec<VendorWarning>,
) -> bool {
    let steps = bin_steps(key, name, doc, entries);
    &&& inspection.root@ == root
    &&& as_map(inspection.bin.deep_view()) == bins_after(steps, steps.len() as int)
    &&& inspection.has_install_script == runs_on_install(doc, entries)
    &&& warnings.deep_view() == warnings_after(key, steps, steps.len() as int)
}

/// The manifest of a listing, or why it is none.
pub open spec fn manifest_result(key: Seq<char>, parsed: Result<JsonModel, Seq<char>>) -> Result<
    JsonModel,
    VendorErrorModel,
> {
    match parsed {
        Err(e) => Err(malformed(key, "package.json is not valid JSON: "@ + e)),
        Ok(doc) => Ok(doc),
    }
}

/// Takes a manifest, or says why the package has none.
pub fn check_manifest(key: &str, parsed: Result<Json, String>) -> (r: Result<Json, VendorError>)
    ensures
        match (
            manifest_result(
                key@,
                match parsed {
                    Ok(j) => Ok(json_model(j)),
                    Err(e) => Err(e@),
                },
            ),
            r,
        ) {
            (Ok(m), Ok(j)) => json_model(j) == m,
            (Err(m), Err(e)) => e.deep_view() == m,
            _ => false,
        },
{
    match parsed {
        Err(e) => Err(malformed_error(key, "package.json is not valid JSON: ", e.as_str())),
        Ok(doc) => Ok(doc),
    }
}

/// What verifying a tarball against its lockfile entry comes to, but for the
/// inspection itself: the digest must match, the archive must have a single root
/// and a `package.json` that is a manifest.
pub open spec fn verdict(
    key: Seq<char>,
    url: Seq<char>,
    bytes: Seq<u8>,
    members: Seq<MemberModel>,
    integrity: Seq<char>,
) -> Result<(ListingModel, JsonModel), VendorErrorModel> {
    match recorded_digest(integrity) {
        None => Err(VendorErrorModel::MalformedIntegrity { key, integrity }),
        Some(expected) => if sha512(bytes) != expected {
            Err(
                VendorErrorModel::IntegrityMismatch {
                    key,
                    url,
                    expected: integrity,
                    actual: "sha512-"@ + base64_text(sha512(bytes)),
                },
            )
        } else {
            match listing_result(key, members) {
                Err(e) => Err(e),
                Ok(listing) => match manifest_result(key, manifest_doc(listing.manifest->Some_0)) {
                    Err(e) => Err(e),
                    Ok(doc) => Ok((listing, doc)),
                },
            }
        },
    }
}

/// What came of a tarball is what verifying and inspecting it comes to, with these
/// members.
pub open spec fn outcome_agrees(
    key: Seq<char>,
    name: Seq<char>,
    url: Seq<char>,
    bytes: Seq<u8>,
    members: Seq<MemberModel>,
    integrity: Seq<char>,
    r: Result<(Verified, Vec<VendorWarning>), VendorError>,
) -> bool {
    match (verdict(key, url, bytes, members, integrity), r) {
        (Ok((listing, doc)), Ok((verified, warnings))) => {
            &&& verified.sha256@ == hex_text(sha256(bytes))
            &&& verified.size == bytes.len()
            &&& inspection_agrees(
                key,
                name,
                listing.root->Some_0,
                listing.entries,
                doc,
                verified.inspection,
                warnings,
            )
        },
        (Err(m), Err(e)) => e.deep_view() == m,
        _ => false,
    }
}

/// What came of a tarball is what it comes to on this system.
pub open spec fn tarball_agrees(
    key: Seq<char>,
    name: Seq<char>,
    url: Seq<char>,
    bytes: Seq<u8>,
    integrity: Seq<char>,
    r: Result<(Verified, Vec<VendorWarning>), VendorError>,
) -> bool {
    exists|headers: Seq<HeaderModel>|
        #[trigger] headers_fit(headers, archive_headers(bytes)) && outcome_agrees(
            key,
            name,
            url,
            bytes,
            members_from(bytes, headers),
            integrity,
            r,
        )
}

/// Whether two byte strings are the same.
pub(crate) fn same_bytes(a: &Vec<u8>, b: &Vec<u8>) -> (r: bool)
    ensures
        r == (a@ == b@),
{
    if a.len() != b.len() {
        return false;
    }
    let mut i: usize = 0;
    while i < a.len()
        invariant
            i <= a.len(),
            a.len() == b.len(),
            forall|k: int| 0 <= k < i ==> a@[k] == b@[k],
        decreases a.len() - i,
    {
        if a[i] != b[i] {
            return false;
        }
        i += 1;
    }
    assert(a@ =~= b@);
    true
}

/// Verify `bytes` against `integrity`, then inspect the archive.
///
/// The order is the trust chain: sha256 is computed only for bytes whose sha512
/// matched what pnpm recorded.
pub fn verify_and_inspect(key: &str, name: &str, url: &str, bytes: &[u8], integrity: &str) -> (r:
    Result<(Verified, Vec<VendorWarning>), VendorError>)
    ensures
        tarball_agrees(key@, name@, url@, bytes@, integrity@, r),
{
    let ghost named = archive_headers(bytes@);
    assert(headers_fit(named, named));
    let expected = match decode_integrity(key, integrity) {
        Ok(d) => d,
        Err(e) => {
            return Err(e);
        },
    };
    let actual = sha512_digest(bytes);
    if !same_bytes(&actual, &expected) {
        return Err(
            VendorError::IntegrityMismatch {
                key: key.to_owned(),
                url: url.to_owned(),
                expected: integrity.to_owned(),
                actual: encode_integrity(actual.as_slice()),
            },
        );
    }
    let members = read_members(bytes);
    let ghost headers = choose|headers: Seq<HeaderModel>|
        #[trigger] headers_fit(headers, archive_headers(bytes@)) && members.deep_view() == members_from(
            bytes@,
            headers,
        );
    assert(headers_fit(headers, archive_headers(bytes@)));
    let listing = match list_members(key, &members) {
        Ok(l) => l,
        Err(e) => {
            return Err(e);
        },
    };
    let doc = match check_manifest(key, parse_manifest(listing.manifest.as_str())) {
        Ok(doc) => doc,
        Err(e) => {
            return Err(e);
        },
    };
    let (inspection, warnings) = inspect(key, name, listing, &doc);
    let verified = Verified {
        sha256: hex(sha256_digest(bytes).as_slice()),
        size: bytes.len() as u64,
        inspection,
    };
    Ok((verified, warnings))
}

// --- Laws ---------------------------------------------------------------------------

/// Only bytes with the recorded digest are ever accepted.
pub proof fn accepted_bytes_match_the_lockfile(
    key: Seq<char>,
    url: Seq<char>,
    bytes: Seq<u8>,
    members: Seq<MemberModel>,
    integrity: Seq<char>,
)
    requires
        verdict(key, url, bytes, members, integrity) is Ok,
    ensures
        recorded_digest(integrity) == Some(sha512(bytes)),
{
}

/// An archive whose paths are all UTF-8 is read alike on every system.
pub proof fn plain_archives_are_read_alike(bytes: Seq<u8>, headers: Seq<HeaderModel>)
    requires
        headers_fit(headers, archive_headers(bytes)),
        forall|i: int|
            0 <= i < archive_headers(bytes).len() && (#[trigger] archive_headers(bytes)[i]) is Entry
                && archive_headers(bytes)[i]->path is Ok
                ==> !archive_headers(bytes)[i]->path->Ok_0.contains('\u{fffd}'),
    ensures
        headers == archive_headers(bytes),
{
    assert forall|i: int| 0 <= i < headers.len() implies headers[i] == archive_headers(bytes)[i] by {
        assert(header_fits(headers[i], archive_headers(bytes)[i]));
    }
    assert(headers =~= archive_headers(bytes));
}

/// Everything in an archive that is accepted nests under its one root.
pub proof fn listing_has_one_root(key: Seq<char>, members: Seq<MemberModel>, n: int, i: int)
    requires
        0 <= i < n <= members.len(),
        listing_of(key, members, n) is Ok,
        members[i] is Entry,
        members[i]->is_file || members[i]->is_dir,
    ensures
        members[i]->path is Ok,
        listing_of(key, members, n)->Ok_0.root == Some(root_of(slashed(members[i]->path->Ok_0))),
    decreases n,
{
    if i < n - 1 {
        listing_has_one_root(key, members, n - 1, i);
    }
}

proof fn insert_keeps_sorted(s: Seq<Seq<char>>, x: Seq<char>)
    requires
        forall|i: int, j: int| 0 <= i < j < s.len() ==> !text_lt(#[trigger] s[j], #[trigger] s[i]),
    ensures
        forall|i: int, j: int|
            0 <= i < j < insert_text(s, x).len() ==> !text_lt(
                #[trigger] insert_text(s, x)[j],
                #[trigger] insert_text(s, x)[i],
            ),
        insert_text(s, x).to_multiset() == s.to_multiset().insert(x),
    decreases s.len(),
{
    let r = insert_text(s, x);
    if s.len() > 0 && text_lt(x, s.last()) {
        let front = s.drop_last();
        assert forall|i: int, j: int| 0 <= i < j < front.len() implies !text_lt(#[trigger] front[j], #[trigger] front[i]) by {
            assert(front[i] == s[i] && front[j] == s[j]);
        }
        insert_keeps_sorted(front, x);
        let inner = insert_text(front, x);
        inner.to_multiset_ensures();
        front.to_multiset_ensures();
        s.to_multiset_ensures();
        assert(s =~= front.push(s.last()));
        assert(r.to_multiset() =~= s.to_multiset().insert(x));
        assert forall|i: int, j: int| 0 <= i < j < r.len() implies !text_lt(#[trigger] r[j], #[trigger] r[i]) by {
            if j == r.len() - 1 {
                assert(r[i] == inner[i]);
                assert(inner.to_multiset().contains(inner[i]));
                inserted_is_old_or_new(front, x, i);
                if inner[i] != x {
                    let k = front.index_of(inner[i]);
                    assert(s[k] == inner[i]);
                } else if text_lt(s.last(), x) {
                    crate::text::text_lt_transitive(x, s.last(), x);
                    crate::text::text_lt_irreflexive(x);
                }
            } else {
                assert(r[i] == inner[i] && r[j] == inner[j]);
            }
        }
    } else {
        s.to_multiset_ensures();
        assert forall|i: int, j: int| 0 <= i < j < r.len() implies !text_lt(#[trigger] r[j], #[trigger] r[i]) by {
            if j == s.len() {
                let last = s[s.len() - 1];
                if i < s.len() - 1 {
                    assert(!text_lt(last, s[i]));
                    crate::text::text_lt_total(last, s[i]);
                    crate::text::text_lt_total(x, last);
                    if text_lt(x, s[i]) {
                        if s[i] != last {
                            crate::text::text_lt_transitive(x, s[i], last);
                        }
                    }
                }
            } else {
                assert(r[i] == s[i] && r[j] == s[j]);
            }
        }
    }
}

proof fn inserted_is_old_or_new(s: Seq<Seq<char>>, x: Seq<char>, i: int)
    requires
        0 <= i < insert_text(s, x).len(),
    ensures
        insert_text(s, x)[i] == x || s.contains(insert_text(s, x)[i]),
        insert_text(s, x).len() == s.len() + 1,
    decreases s.len(),
{
    let r = insert_text(s, x);
    if s.len() > 0 && text_lt(x, s.last()) {
        let inner = insert_text(s.drop_last(), x);
        if i < inner.len() {
            inserted_is_old_or_new(s.drop_last(), x, i);
            if r[i] != x {
                let k = s.drop_last().index_of(r[i]);
                assert(s[k] == r[i]);
            }
        } else {
            inserted_is_old_or_new(s.drop_last(), x, 0);
            assert(s[s.len() - 1] == r[i]);
        }
    } else if i < s.len() {
        assert(s[i] == r[i]);
    }
}

/// The file list comes sorted, and no file is lost or added.
pub proof fn file_list_is_sorted(s: Seq<Seq<char>>, n: int)
    requires
        0 <= n <= s.len(),
    ensures
        forall|i: int, j: int|
            0 <= i < j < sorted_texts(s, n).len() ==> !text_lt(
                #[trigger] sorted_texts(s, n)[j],
                #[trigger] sorted_texts(s, n)[i],
            ),
        sorted_texts(s, n).to_multiset() == s.take(n).to_multiset(),
    decreases n,
{
    if n > 0 {
        file_list_is_sorted(s, n - 1);
        insert_keeps_sorted(sorted_texts(s, n - 1), s[n - 1]);
        s.take(n - 1).to_multiset_ensures();
        assert(s.take(n) =~= s.take(n - 1).push(s[n - 1]));
    } else {
        assert(s.take(0) =~= Seq::<Seq<char>>::empty());
        assert(sorted_texts(s, 0) =~= s.take(0));
    }
}

proof fn put_names_are_segments(
    key: Seq<char>,
    name: Seq<char>,
    doc: JsonModel,
    entries: Seq<Seq<char>>,
    i: int,
)
    requires
        0 <= i < bin_steps(key, name, doc, entries).len(),
        bin_steps(key, name, doc, entries)[i] is Put,
    ensures
        !bin_steps(key, name, doc, entries)[i]->name.contains('/'),
{
    let steps = bin_steps(key, name, doc, entries);
    if is_falsy(bin_field(doc)) {
        let d = contained_text(text_member(directories_field(doc), "bin"@)->Some_0)->Some_0;
        directory_names_are_segments(d + "/"@, entries, entries.len() as int, i);
    } else {
        match bin_field(doc) {
            JsonModel::Text(path) => {
                declared_name_is_segment(key, command_text(name), path);
            },
            JsonModel::Object(members) => {
                assert(steps[i] == member_step(key, members[i]));
                match members[i].1 {
                    JsonModel::Text(path) => {
                        declared_name_is_segment(key, command_text(members[i].0), path);
                    },
                    _ => {},
                }
            },
            _ => {},
        }
    }
}

proof fn declared_name_is_segment(key: Seq<char>, name: Seq<char>, path: Seq<char>)
    requires
        declared_step(key, name, path) is Put,
    ensures
        !declared_step(key, name, path)->name.contains('/'),
{
    reveal_strlit("$");
    if name.contains('/') {
        let k = name.index_of('/');
        assert(name[k] == '/');
        if url_safe(name) {
            assert(is_unreserved(name[k]));
        } else {
            assert("$"@[0] == '$');
        }
    }
}

proof fn directory_names_are_segments(prefix: Seq<char>, entries: Seq<Seq<char>>, n: int, i: int)
    requires
        0 <= n <= entries.len(),
        0 <= i < directory_steps(prefix, entries, n).len(),
    ensures
        directory_steps(prefix, entries, n)[i] is Put,
        !directory_steps(prefix, entries, n)[i]->name.contains('/'),
    decreases n,
{
    if n > 0 {
        let before = directory_steps(prefix, entries, n - 1);
        if i < before.len() {
            directory_names_are_segments(prefix, entries, n - 1, i);
        } else {
            let rest = entries[n - 1].skip(prefix.len() as int);
            crate::text::split_not_empty(rest, '/');
            crate::paths::pieces_hold_no_separator(rest, '/', split_on(rest, '/').len() - 1);
        }
    }
}

/// Every command is a single path segment, so it names an entry of `.bin/` itself.
pub proof fn commands_are_single_segments(
    key: Seq<char>,
    name: Seq<char>,
    doc: JsonModel,
    entries: Seq<Seq<char>>,
    n: int,
    command: Seq<char>,
)
    requires
        0 <= n <= bin_steps(key, name, doc, entries).len(),
        bins_after(bin_steps(key, name, doc, entries), n).contains_key(command),
    ensures
        !command.contains('/'),
    decreases n,
{
    let steps = bin_steps(key, name, doc, entries);
    if n > 0 {
        match steps[n - 1] {
            BinStep::Put { name: put, path } => {
                put_names_are_segments(key, name, doc, entries, n - 1);
                if command != put {
                    commands_are_single_segments(key, name, doc, entries, n - 1, command);
                }
            },
            BinStep::Warn { warning } => {
                commands_are_single_segments(key, name, doc, entries, n - 1, command);
            },
        }
    }
}

/// A command that the manifest's `bin` declares never leads out of the package.
pub proof fn declared_commands_stay_inside(
    key: Seq<char>,
    name: Seq<char>,
    doc: JsonModel,
    entries: Seq<Seq<char>>,
    n: int,
    command: Seq<char>,
)
    requires
        !is_falsy(bin_field(doc)),
        0 <= n <= bin_steps(key, name, doc, entries).len(),
        bins_after(bin_steps(key, name, doc, entries), n).contains_key(command),
    ensures
        crate::paths::is_plain_path(bins_after(bin_steps(key, name, doc, entries), n)[command]),
    decreases n,
{
    let steps = bin_steps(key, name, doc, entries);
    if n > 0 {
        match steps[n - 1] {
            BinStep::Put { name: put, path } => {
                if command != put {
                    declared_commands_stay_inside(key, name, doc, entries, n - 1, command);
                } else {
                    match bin_field(doc) {
                        JsonModel::Text(raw) => {
                            crate::paths::contained_is_plain(raw);
                        },
                        JsonModel::Object(members) => {
                            assert(steps[n - 1] == member_step(key, members[n - 1]));
                            match members[n - 1].1 {
                                JsonModel::Text(raw) => {
                                    crate::paths::contained_is_plain(raw);
                                },
                                _ => {},
                            }
                        },
                        _ => {},
                    }
                }
            },
            BinStep::Warn { warning } => {
                declared_commands_stay_inside(key, name, doc, entries, n - 1, command);
            },
        }
    }
}

// --- What the pieces come to --------------------------------------------------------------

/// What a lowercase hexadecimal digit is worth.
pub open spec fn nibble(c: char) -> int {
    if '0' <= c <= '9' {
        c as int - '0' as int
    } else if 'a' <= c <= 'f' {
        c as int - 'a' as int + 10
    } else {
        -1
    }
}

/// Every byte is written as two lowercase hexadecimal digits, the high one first.
pub proof fn hex_reads_back(bytes: Seq<u8>, i: int)
    requires
        0 <= i < bytes.len(),
    ensures
        hex_text(bytes).len() == 2 * bytes.len(),
        0 <= nibble(hex_text(bytes)[2 * i]) < 16,
        0 <= nibble(hex_text(bytes)[2 * i + 1]) < 16,
        bytes[i] == 16 * nibble(hex_text(bytes)[2 * i]) + nibble(hex_text(bytes)[2 * i + 1]),
{
    let b = bytes[i] as int;
    assert((2 * i) / 2 == i && (2 * i) % 2 == 0 && (2 * i + 1) / 2 == i && (2 * i + 1) % 2 == 1);
    assert(hex_text(bytes)[2 * i] == hex_digit(b / 16));
    assert(hex_text(bytes)[2 * i + 1] == hex_digit(b % 16));
    digit_is_worth(b / 16);
    digit_is_worth(b % 16);
}

proof fn digit_is_worth(n: int)
    requires
        0 <= n < 16,
    ensures
        nibble(hex_digit(n)) == n,
{
    let c = hex_digit(n);
    assert(c as int == if n < 10 {
        48 + n
    } else {
        97 + n - 10
    });
}

/// An integrity string records a digest exactly where it is `sha512-` and base64 of 64
/// bytes, and then it records those.
pub proof fn only_sha512_is_recorded(integrity: Seq<char>, rest: Seq<char>)
    ensures
        !"sha512-"@.is_prefix_of(integrity) ==> recorded_digest(integrity) is None,
        base64_bytes(rest) is None ==> recorded_digest("sha512-"@ + rest) is None,
        base64_bytes(rest) is Some && base64_bytes(rest)->Some_0.len() != 64 ==> recorded_digest(
            "sha512-"@ + rest,
        ) is None,
        base64_bytes(rest) is Some && base64_bytes(rest)->Some_0.len() == 64 ==> recorded_digest(
            "sha512-"@ + rest,
        ) == base64_bytes(rest),
{
    let whole = "sha512-"@ + rest;
    assert(whole.subrange(0, "sha512-"@.len() as int) =~= "sha512-"@);
    assert(base64_part(whole) =~= rest);
}

/// The object has a text that is not empty under this name.
pub open spec fn has_text(doc: JsonModel, section: Seq<char>, name: Seq<char>) -> bool {
    &&& member_of(doc, section) is Some
    &&& member_of(member_of(doc, section)->Some_0, name) is Some
    &&& member_of(member_of(doc, section)->Some_0, name)->Some_0 is Text
    &&& member_of(member_of(doc, section)->Some_0, name)->Some_0->Text_0.len() > 0
}

/// A package runs something when it is installed exactly where its manifest has a script
/// `preinstall`, `install` or `postinstall` that is not empty, or the archive holds
/// `binding.gyp` at its root or anything under `.hooks/`.
pub proof fn install_scripts_are_exact(doc: JsonModel, entries: Seq<Seq<char>>)
    ensures
        runs_on_install(doc, entries) <==> {
            ||| has_text(doc, "scripts"@, "preinstall"@)
            ||| has_text(doc, "scripts"@, "install"@)
            ||| has_text(doc, "scripts"@, "postinstall"@)
            ||| entries.contains("binding.gyp"@)
            ||| exists|rest: Seq<char>| entries.contains(#[trigger] (".hooks/"@ + rest))
        },
{
    let hooks = ".hooks/"@;
    assert(member_of(JsonModel::Null, "install"@) is None);
    if entries.contains("binding.gyp"@) {
        assert(entries[entries.index_of("binding.gyp"@)] == "binding.gyp"@);
    }
    if exists|rest: Seq<char>| entries.contains(#[trigger] (hooks + rest)) {
        let rest = choose|rest: Seq<char>| entries.contains(#[trigger] (hooks + rest));
        let i = entries.index_of(hooks + rest);
        assert((hooks + rest).subrange(0, hooks.len() as int) =~= hooks);
        assert(hooks.is_prefix_of(entries[i]));
        assert(runs_on_install(doc, entries));
    }
    if exists|i: int|
        0 <= i < entries.len() && (#[trigger] entries[i] == "binding.gyp"@ || hooks.is_prefix_of(
            entries[i],
        )) {
        let i = choose|i: int|
            0 <= i < entries.len() && (#[trigger] entries[i] == "binding.gyp"@
                || hooks.is_prefix_of(entries[i]));
        if hooks.is_prefix_of(entries[i]) {
            let rest = entries[i].skip(hooks.len() as int);
            assert(entries[i] =~= hooks + rest);
            assert(entries.contains(hooks + rest));
        }
    }
}

/// The command of a bin is its name, without the scope where it has one: what stands before
/// the first `/` of a name that starts with `@`.
pub proof fn a_command_drops_its_scope(scope: Seq<char>, rest: Seq<char>)
    requires
        !scope.contains('/'),
    ensures
        command_text(scope) == scope,
        scope.len() > 0 && scope[0] == '@' ==> command_text(scope + seq!['/'] + rest) == rest,
        scope.len() > 0 && scope[0] != '@' ==> command_text(scope + seq!['/'] + rest) == scope
            + seq!['/'] + rest,
{
    let name = scope + seq!['/'] + rest;
    let n = scope.len() as int;
    index_from_is(scope, '/', 0, n);
    if n > 0 {
        assert(name[n] == '/');
        assert forall|i: int| 0 <= i < n implies name[i] != '/' by {
            assert(scope.contains(scope[i]));
        }
        index_from_is(name, '/', 0, n);
        assert(name[0] == scope[0]);
        assert(name.skip(n + 1) =~= rest);
    }
}

/// A name of ASCII letters, digits and the marks that stand for themselves in a URL.
pub open spec fn fits_a_url(name: Seq<char>) -> bool {
    forall|i: int|
        0 <= i < name.len() ==> {
            ||| 'a' <= #[trigger] name[i] <= 'z'
            ||| 'A' <= name[i] <= 'Z'
            ||| '0' <= name[i] <= '9'
            ||| (seq!['-', '_', '.', '!', '~', '*', '\'', '(', ')']).contains(name[i])
        }
}

/// Such a name needs no escapes.
pub proof fn fits_is_safe(name: Seq<char>)
    ensures
        fits_a_url(name) <==> url_safe(name),
{
    let marks = seq!['-', '_', '.', '!', '~', '*', '\'', '(', ')'];
    assert(marks[0] == '-' && marks[1] == '_' && marks[2] == '.' && marks[3] == '!' && marks[4]
        == '~' && marks[5] == '*' && marks[6] == '\'' && marks[7] == '(' && marks[8] == ')');
    assert forall|i: int| 0 <= i < name.len() implies (is_unreserved(#[trigger] name[i]) <==> {
        ||| 'a' <= name[i] <= 'z'
        ||| 'A' <= name[i] <= 'Z'
        ||| '0' <= name[i] <= '9'
        ||| marks.contains(name[i])
    }) by {}
}

/// A member of a `bin` object declares this command: its value is a text that does not lead
/// out of the package, and its name without a scope is the command, which fits a URL or is
/// `$`.
pub open spec fn declares(member: (Seq<char>, JsonModel), command: Seq<char>) -> bool {
    &&& command_text(member.0) == command
    &&& fits_a_url(command) || command == "$"@
    &&& member.1 is Text
    &&& contained_text(member.1->Text_0) is Some
}

proof fn bins_after_is(steps: Seq<BinStep>, n: int, c: Seq<char>)
    requires
        0 <= n <= steps.len(),
    ensures
        bins_after(steps, n).contains_key(c) <==> exists|i: int|
            0 <= i < n && (#[trigger] steps[i]) is Put && steps[i]->name == c,
        bins_after(steps, n).contains_key(c) ==> exists|i: int|
            0 <= i < n && #[trigger] steps[i] == (BinStep::Put {
                name: c,
                path: bins_after(steps, n)[c],
            }) && forall|j: int|
                i < j < n ==> !((#[trigger] steps[j]) is Put && steps[j]->name == c),
    decreases n,
{
    if n > 0 {
        bins_after_is(steps, n - 1, c);
        let last = steps[n - 1];
        if last is Put && last->name == c {
            assert(last == (BinStep::Put { name: c, path: bins_after(steps, n)[c] }));
        } else if bins_after(steps, n).contains_key(c) {
            let i = choose|i: int|
                0 <= i < n - 1 && #[trigger] steps[i] == (BinStep::Put {
                    name: c,
                    path: bins_after(steps, n - 1)[c],
                }) && forall|j: int|
                    i < j < n - 1 ==> !((#[trigger] steps[j]) is Put && steps[j]->name == c);
            assert(steps[i] is Put);
            assert(steps[i] == (BinStep::Put { name: c, path: bins_after(steps, n)[c] }));
        }
    }
}

/// All bins of a package.
pub open spec fn all_bins(
    key: Seq<char>,
    name: Seq<char>,
    doc: JsonModel,
    entries: Seq<Seq<char>>,
) -> Map<Seq<char>, Seq<char>> {
    bins_after(
        bin_steps(key, name, doc, entries),
        bin_steps(key, name, doc, entries).len() as int,
    )
}

/// A `bin` that is an object gives exactly the commands that its members declare, each
/// with the path of the last member that declares it, freed of dots.
pub proof fn an_object_of_bins_is_read(
    key: Seq<char>,
    name: Seq<char>,
    doc: JsonModel,
    entries: Seq<Seq<char>>,
    members: Seq<(Seq<char>, JsonModel)>,
    c: Seq<char>,
)
    requires
        member_of(doc, "bin"@) == Some(JsonModel::Object(members)),
    ensures
        all_bins(key, name, doc, entries).contains_key(c) <==> exists|i: int|
            0 <= i < members.len() && declares(#[trigger] members[i], c),
        all_bins(key, name, doc, entries).contains_key(c) ==> exists|i: int|
            0 <= i < members.len() && declares(#[trigger] members[i], c) && contained_text(
                members[i].1->Text_0,
            ) == Some(all_bins(key, name, doc, entries)[c]) && forall|j: int|
                i < j < members.len() ==> !declares(#[trigger] members[j], c),
{
    let steps = bin_steps(key, name, doc, entries);
    let n = steps.len() as int;
    let bins = all_bins(key, name, doc, entries);
    fits_is_safe(c);
    bins_after_is(steps, n, c);
    assert forall|i: int| 0 <= i < n implies (declares(#[trigger] members[i], c) <==> steps[i] is Put
        && steps[i]->name == c) && (steps[i] is Put ==> members[i].1 is Text && contained_text(
        members[i].1->Text_0,
    ) == Some(steps[i]->path)) by {
        assert(steps[i] == member_step(key, members[i]));
    }
    if exists|i: int| 0 <= i < members.len() && declares(#[trigger] members[i], c) {
        let i = choose|i: int| 0 <= i < members.len() && declares(#[trigger] members[i], c);
        assert(steps[i] is Put && steps[i]->name == c);
    }
    if bins.contains_key(c) {
        let i = choose|i: int|
            0 <= i < n && #[trigger] steps[i] == (BinStep::Put { name: c, path: bins[c] })
                && forall|j: int|
                i < j < n ==> !((#[trigger] steps[j]) is Put && steps[j]->name == c);
        assert(declares(members[i], c));
        assert forall|j: int| i < j < members.len() implies !declares(#[trigger] members[j], c) by {
            assert(!(steps[j] is Put && steps[j]->name == c));
        }
    }
}

/// A `bin` that is a text gives one command at most: the package's own name without its
/// scope, with that path freed of dots, where the name fits a URL and the path does not
/// lead out.
pub proof fn a_single_bin_is_read(
    key: Seq<char>,
    name: Seq<char>,
    doc: JsonModel,
    entries: Seq<Seq<char>>,
    path: Seq<char>,
    c: Seq<char>,
)
    requires
        member_of(doc, "bin"@) == Some(JsonModel::Text(path)),
        path.len() > 0,
    ensures
        all_bins(key, name, doc, entries).contains_key(c) <==> declares(
            (name, JsonModel::Text(path)),
            c,
        ),
        all_bins(key, name, doc, entries).contains_key(c) ==> contained_text(path) == Some(
            all_bins(key, name, doc, entries)[c],
        ),
{
    let steps = bin_steps(key, name, doc, entries);
    fits_is_safe(c);
    bins_after_is(steps, 1, c);
    assert(steps[0] == declared_step(key, command_text(name), path));
    if steps[0] is Put && steps[0]->name == c {
        assert(all_bins(key, name, doc, entries).contains_key(c));
    }
}

proof fn directory_step_is(prefix: Seq<char>, entries: Seq<Seq<char>>, n: int, i: int)
    requires
        0 <= n <= entries.len(),
        0 <= i < directory_steps(prefix, entries, n).len(),
    ensures
        ({
            let s = directory_steps(prefix, entries, n)[i];
            &&& s is Put
            &&& entries.contains(s->path)
            &&& prefix.is_prefix_of(s->path)
            &&& s->name == split_on(s->path.skip(prefix.len() as int), '/').last()
        }),
    decreases n,
{
    if n > 0 {
        let before = directory_steps(prefix, entries, n - 1);
        if i < before.len() {
            directory_step_is(prefix, entries, n - 1, i);
        } else {
            assert(entries.contains(entries[n - 1]));
        }
    }
}

proof fn directory_entry_is_a_step(prefix: Seq<char>, entries: Seq<Seq<char>>, n: int, i: int)
    requires
        0 <= i < n <= entries.len(),
        prefix.is_prefix_of(entries[i]),
    ensures
        exists|k: int|
            0 <= k < directory_steps(prefix, entries, n).len() && #[trigger] directory_steps(
                prefix,
                entries,
                n,
            )[k] == (BinStep::Put {
                name: split_on(entries[i].skip(prefix.len() as int), '/').last(),
                path: entries[i],
            }),
    decreases n,
{
    let before = directory_steps(prefix, entries, n - 1);
    let all = directory_steps(prefix, entries, n);
    let step = BinStep::Put {
        name: split_on(entries[i].skip(prefix.len() as int), '/').last(),
        path: entries[i],
    };
    if i == n - 1 {
        assert(all[before.len() as int] == step);
    } else {
        directory_entry_is_a_step(prefix, entries, n - 1, i);
        let k = choose|k: int| 0 <= k < before.len() && #[trigger] before[k] == step;
        assert(all[k] == step);
    }
}

/// Where a manifest has no `bin` of its own, each file below its `directories.bin` is a
/// command: under the last component of its path, and no other command is there.
pub proof fn a_directory_of_bins_is_read(
    key: Seq<char>,
    name: Seq<char>,
    doc: JsonModel,
    entries: Seq<Seq<char>>,
    dir: Seq<char>,
    c: Seq<char>,
)
    requires
        member_of(doc, "bin"@) is None,
        member_of(doc, "directories"@) is Some,
        member_of(member_of(doc, "directories"@)->Some_0, "bin"@) == Some(JsonModel::Text(dir)),
        contained_text(dir) is Some,
    ensures
        ({
            let bins = all_bins(key, name, doc, entries);
            let below = contained_text(dir)->Some_0 + seq!['/'];
            &&& bins.contains_key(c) ==> entries.contains(bins[c]) && below.is_prefix_of(bins[c])
                && c == split_on(bins[c].skip(below.len() as int), '/').last()
            &&& forall|i: int|
                0 <= i < entries.len() && below.is_prefix_of(#[trigger] entries[i])
                    ==> bins.contains_key(
                    split_on(entries[i].skip(below.len() as int), '/').last(),
                )
        }),
{
    let bins = all_bins(key, name, doc, entries);
    let steps = bin_steps(key, name, doc, entries);
    let n = steps.len() as int;
    let below = contained_text(dir)->Some_0 + seq!['/'];
    reveal_strlit("/");
    assert("/"@ =~= seq!['/']);
    assert(steps == directory_steps(below, entries, entries.len() as int));
    bins_after_is(steps, n, c);
    if bins.contains_key(c) {
        let i = choose|i: int|
            0 <= i < n && #[trigger] steps[i] == (BinStep::Put { name: c, path: bins[c] })
                && forall|j: int|
                i < j < n ==> !((#[trigger] steps[j]) is Put && steps[j]->name == c);
        directory_step_is(below, entries, entries.len() as int, i);
    }
    assert forall|i: int|
        0 <= i < entries.len() && below.is_prefix_of(#[trigger] entries[i]) implies bins.contains_key(
        split_on(entries[i].skip(below.len() as int), '/').last(),
    ) by {
        let command = split_on(entries[i].skip(below.len() as int), '/').last();
        directory_entry_is_a_step(below, entries, entries.len() as int, i);
        bins_after_is(steps, n, command);
        let k = choose|k: int|
            0 <= k < n && #[trigger] steps[k] == (BinStep::Put { name: command, path: entries[i] });
        assert(steps[k] is Put && steps[k]->name == command);
    }
}

proof fn warning_is_given(key: Seq<char>, steps: Seq<BinStep>, n: int, i: int)
    requires
        0 <= i < n <= steps.len(),
    ensures
        steps[i] is Warn ==> warnings_after(key, steps, n).contains(steps[i]->warning),
        steps[i] is Put && bins_after(steps, i).contains_key(steps[i]->name) ==> warnings_after(
            key,
            steps,
            n,
        ).contains(VendorWarningModel::BinNameCollision { key, name: steps[i]->name }),
    decreases n,
{
    let all = warnings_after(key, steps, n);
    let before = warnings_after(key, steps, n - 1);
    if i == n - 1 {
        if all.len() > 0 {
            assert(all[all.len() - 1] == all.last());
        }
    } else {
        warning_is_given(key, steps, n - 1, i);
        if steps[i] is Warn {
            assert(all[before.index_of(steps[i]->warning)] == steps[i]->warning);
        } else if bins_after(steps, i).contains_key(steps[i]->name) {
            let w = VendorWarningModel::BinNameCollision { key, name: steps[i]->name };
            assert(all[before.index_of(w)] == w);
        }
    }
}

/// Every member of a `bin` object that gives no command is warned of, with what is wrong:
/// its value is no text, its command does not fit a URL, or its path leads out. So is every
/// command that an earlier member declares already.
pub proof fn refused_bins_are_warned_of(
    key: Seq<char>,
    name: Seq<char>,
    doc: JsonModel,
    entries: Seq<Seq<char>>,
    members: Seq<(Seq<char>, JsonModel)>,
    i: int,
)
    requires
        member_of(doc, "bin"@) == Some(JsonModel::Object(members)),
        0 <= i < members.len(),
    ensures
        ({
            let steps = bin_steps(key, name, doc, entries);
            let warnings = warnings_after(key, steps, steps.len() as int);
            let (raw, value) = members[i];
            let command = command_text(raw);
            let fits = fits_a_url(command) || command == "$"@;
            &&& !(value is Text) ==> warnings.contains(
                VendorWarningModel::NonStringBinValue { key, name: raw },
            )
            &&& value is Text && !fits ==> warnings.contains(
                VendorWarningModel::BinNameRejected { key, name: command },
            )
            &&& value is Text && fits && contained_text(value->Text_0) is None ==> warnings.contains(
                VendorWarningModel::BinPathEscapes { key, name: command, path: value->Text_0 },
            )
            &&& declares(members[i], command) && (exists|j: int|
                0 <= j < i && declares(#[trigger] members[j], command)) ==> warnings.contains(
                VendorWarningModel::BinNameCollision { key, name: command },
            )
        }),
{
    let steps = bin_steps(key, name, doc, entries);
    let command = command_text(members[i].0);
    fits_is_safe(command);
    assert(steps[i] == member_step(key, members[i]));
    warning_is_given(key, steps, steps.len() as int, i);
    if declares(members[i], command) && exists|j: int|
        0 <= j < i && declares(#[trigger] members[j], command) {
        let j = choose|j: int| 0 <= j < i && declares(#[trigger] members[j], command);
        assert(steps[j] == member_step(key, members[j]));
        bins_after_is(steps, i, command);
        assert(steps[j] is Put && steps[j]->name == command);
    }
}

/// The member is a file or a directory.
pub open spec fn is_in_tree(m: MemberModel) -> bool {
    m is Entry && (m->is_file || m->is_dir)
}

/// The member is a file at `rel` below this root.
pub open spec fn is_file_at(m: MemberModel, root: Seq<char>, rel: Seq<char>) -> bool {
    &&& m is Entry && m->is_file
    &&& m->path is Ok
    &&& slashed(m->path->Ok_0) == root + seq!['/'] + rel
}

proof fn path_falls_apart(path: Seq<char>, root: Seq<char>, rel: Seq<char>)
    requires
        !root.contains('/'),
        rel.len() > 0,
    ensures
        path == root + seq!['/'] + rel <==> root_of(path) == root && below_root(path) == rel,
        path == root || (root + seq!['/']).is_prefix_of(path) <==> root_of(path) == root,
{
    let p = index_from(path, '/', 0);
    let n = root.len() as int;
    index_from_finds(path, '/', 0);
    if path == root + seq!['/'] + rel {
        assert(path[n] == '/');
        assert forall|i: int| 0 <= i < n implies path[i] != '/' by {
            assert(root.contains(root[i]));
        }
        index_from_is(path, '/', 0, n);
        assert(path.take(n) =~= root);
        assert(path.skip(n + 1) =~= rel);
    }
    if path == root {
        index_from_is(path, '/', 0, n);
        assert(path.take(n) =~= root);
    }
    if (root + seq!['/']).is_prefix_of(path) {
        let head = root + seq!['/'];
        assert(path.subrange(0, head.len() as int) == head);
        assert(path[n] == head[n]);
        assert forall|i: int| 0 <= i < n implies path[i] != '/' by {
            assert(path[i] == head[i]);
            assert(root.contains(root[i]));
        }
        index_from_is(path, '/', 0, n);
        assert(path.take(n) =~= root);
    }
    if root_of(path) == root {
        assert(p == n || p > path.len());
        index_from_first(path, '/', 0);
        if p < path.len() {
            assert(path[p] == '/');
            let head = root + seq!['/'];
            assert(path.subrange(0, head.len() as int) =~= head);
            if below_root(path) == rel {
                assert(path =~= root + seq!['/'] + rel);
            }
        } else {
            assert(path =~= root);
        }
    }
}

/// The member is a file whose path below its first component is this.
spec fn lists(m: MemberModel, rel: Seq<char>) -> bool {
    &&& m is Entry && m->is_file
    &&& m->path is Ok
    &&& below_root(slashed(m->path->Ok_0)) == rel
    &&& rel.len() > 0
}

proof fn listing_facts(key: Seq<char>, members: Seq<MemberModel>, n: int)
    requires
        0 <= n <= members.len(),
        listing_of(key, members, n) is Ok,
    ensures
        ({
            let l = listing_of(key, members, n)->Ok_0;
            let wanted = "package.json"@;
            &&& forall|i: int|
                0 <= i < n ==> (#[trigger] members[i]) is Entry && (is_in_tree(members[i])
                    ==> members[i]->path is Ok && l.root == Some(
                    root_of(slashed(members[i]->path->Ok_0)),
                ))
            &&& forall|e: Seq<char>|
                #[trigger] l.entries.contains(e) <==> exists|i: int|
                    0 <= i < n && lists(#[trigger] members[i], e)
            &&& l.manifest is Some ==> l.root is Some && exists|i: int|
                0 <= i < n && lists(#[trigger] members[i], wanted) && members[i]->text == Ok::<
                    Seq<char>,
                    Seq<char>,
                >(l.manifest->Some_0) && forall|j: int|
                    i < j < n ==> !lists(#[trigger] members[j], wanted)
            &&& l.manifest is None ==> forall|i: int|
                0 <= i < n ==> !lists(#[trigger] members[i], wanted)
        }),
    decreases n,
{
    reveal_strlit("package.json");
    let l = listing_of(key, members, n)->Ok_0;
    let wanted = "package.json"@;
    if n > 0 {
        listing_facts(key, members, n - 1);
        let before = listing_of(key, members, n - 1)->Ok_0;
        let m = members[n - 1];
        assert forall|e: Seq<char>| #[trigger] l.entries.contains(e) <==> exists|i: int|
            0 <= i < n && lists(#[trigger] members[i], e) by {
            if l.entries.contains(e) {
                let p = l.entries.index_of(e);
                if p < before.entries.len() {
                    assert(before.entries[p] == e);
                    assert(before.entries.contains(e));
                    let i = choose|i: int| 0 <= i < n - 1 && lists(#[trigger] members[i], e);
                    assert(lists(members[i], e));
                } else {
                    assert(lists(members[n - 1], e));
                }
            }
            if exists|i: int| 0 <= i < n && lists(#[trigger] members[i], e) {
                let i = choose|i: int| 0 <= i < n && lists(#[trigger] members[i], e);
                if i < n - 1 {
                    assert(before.entries.contains(e));
                    assert(l.entries[before.entries.index_of(e)] == e);
                } else {
                    assert(l.entries[l.entries.len() - 1] == e);
                }
            }
        }
        if l.manifest is Some {
            if lists(m, wanted) {
                assert(lists(members[n - 1], wanted));
            } else {
                assert(before.manifest == l.manifest);
                let i = choose|i: int|
                    0 <= i < n - 1 && lists(#[trigger] members[i], wanted) && members[i]->text
                        == Ok::<Seq<char>, Seq<char>>(before.manifest->Some_0) && forall|j: int|
                        i < j < n - 1 ==> !lists(#[trigger] members[j], wanted);
                assert(lists(members[i], wanted));
            }
        }
    }
}

/// An archive that is accepted has one root, which every file and directory lies under. Its
/// file list has exactly the paths of its files below that root, and its manifest is the
/// text of the last `package.json` that stands there.
pub proof fn a_listing_holds_the_files(key: Seq<char>, members: Seq<MemberModel>)
    requires
        listing_result(key, members) is Ok,
    ensures
        ({
            let l = listing_result(key, members)->Ok_0;
            let root = l.root->Some_0;
            &&& l.root is Some && !root.contains('/')
            &&& forall|i: int| 0 <= i < members.len() ==> (#[trigger] members[i]) is Entry
            &&& forall|i: int|
                0 <= i < members.len() && is_in_tree(#[trigger] members[i]) ==> members[i]->path is Ok
                    && (slashed(members[i]->path->Ok_0) == root || (root
                    + seq!['/']).is_prefix_of(slashed(members[i]->path->Ok_0)))
            &&& forall|rel: Seq<char>|
                #[trigger] l.entries.contains(rel) <==> rel.len() > 0 && exists|i: int|
                    0 <= i < members.len() && is_file_at(#[trigger] members[i], root, rel)
            &&& l.manifest is Some
            &&& exists|i: int|
                0 <= i < members.len() && is_file_at(
                    #[trigger] members[i],
                    root,
                    "package.json"@,
                ) && members[i]->text == Ok::<Seq<char>, Seq<char>>(l.manifest->Some_0) && forall|
                    j: int,
                |
                    i < j < members.len() ==> !is_file_at(
                        #[trigger] members[j],
                        root,
                        "package.json"@,
                    )
        }),
{
    reveal_strlit("package.json");
    let n = members.len() as int;
    let raw = listing_of(key, members, n)->Ok_0;
    let l = listing_result(key, members)->Ok_0;
    let root = l.root->Some_0;
    let wanted = "package.json"@;
    listing_facts(key, members, n);
    let w = choose|i: int|
        0 <= i < n && lists(#[trigger] members[i], wanted) && members[i]->text == Ok::<
            Seq<char>,
            Seq<char>,
        >(l.manifest->Some_0) && forall|j: int|
            i < j < n ==> !lists(#[trigger] members[j], wanted);
    assert(is_in_tree(members[w]));
    let first = slashed(members[w]->path->Ok_0);
    index_from_first(first, '/', 0);
    assert(!root.contains('/')) by {
        if root.contains('/') {
            let k = root.index_of('/');
            assert(first[k] == '/');
        }
    }
    assert forall|i: int, rel: Seq<char>|
        0 <= i < n && rel.len() > 0 implies #[trigger] lists(members[i], rel) == is_file_at(
        members[i],
        root,
        rel,
    ) by {
        if members[i] is Entry && members[i]->is_file && members[i]->path is Ok {
            assert(is_in_tree(members[i]));
            path_falls_apart(slashed(members[i]->path->Ok_0), root, rel);
        }
    }
    assert forall|i: int| 0 <= i < n && is_in_tree(#[trigger] members[i]) implies members[i]->path is Ok
        && (slashed(members[i]->path->Ok_0) == root || (root + seq!['/']).is_prefix_of(
        slashed(members[i]->path->Ok_0),
    )) by {
        path_falls_apart(slashed(members[i]->path->Ok_0), root, wanted);
    }
    file_list_is_sorted(raw.entries, raw.entries.len() as int);
    assert(raw.entries.take(raw.entries.len() as int) =~= raw.entries);
    assert forall|rel: Seq<char>| #[trigger] l.entries.contains(rel) <==> rel.len() > 0 && exists|
        i: int,
    |
        0 <= i < n && is_file_at(#[trigger] members[i], root, rel) by {
        l.entries.to_multiset_ensures();
        raw.entries.to_multiset_ensures();
        assert(l.entries.to_multiset().count(rel) == raw.entries.to_multiset().count(rel));
        assert(l.entries.contains(rel) <==> raw.entries.contains(rel));
        if raw.entries.contains(rel) {
            let i = choose|i: int| 0 <= i < n && lists(#[trigger] members[i], rel);
            assert(is_file_at(members[i], root, rel));
        }
        if rel.len() > 0 && exists|i: int|
            0 <= i < n && is_file_at(#[trigger] members[i], root, rel) {
            let i = choose|i: int| 0 <= i < n && is_file_at(#[trigger] members[i], root, rel);
            assert(lists(members[i], rel));
        }
    }
    assert(is_file_at(members[w], root, wanted));
    assert forall|j: int| w < j < n implies !is_file_at(#[trigger] members[j], root, wanted) by {
        assert(!lists(members[j], wanted));
    }
}

/// The text of a member is read exactly where the member is a file called `package.json`
/// directly below its root: of all others nothing is read.
pub proof fn only_the_manifest_is_read(
    bytes: Seq<u8>,
    headers: Seq<HeaderModel>,
    i: int,
    root: Seq<char>,
)
    requires
        0 <= i < headers.len(),
        headers[i] is Entry,
        headers[i]->path is Ok,
        !root.contains('/'),
    ensures
        ({
            let member = members_from(bytes, headers)[i];
            let path = slashed(headers[i]->path->Ok_0);
            &&& member is Entry
            &&& member->path == headers[i]->path
            &&& member->is_file == headers[i]->is_file
            &&& member->is_dir == headers[i]->is_dir
            &&& headers[i]->is_file && path == root + "/package.json"@ ==> member->text
                == archive_text(bytes, i)
            &&& !headers[i]->is_file ==> member->text == Ok::<Seq<char>, Seq<char>>(Seq::empty())
            &&& root.len() <= path.len() && path.take(root.len() as int) == root && (root.len()
                == path.len() || (path[root.len() as int] == '/' && path.skip(
                root.len() as int,
            ) != "/package.json"@)) ==> member->text == Ok::<Seq<char>, Seq<char>>(Seq::empty())
        }),
{
    reveal_strlit("/package.json");
    reveal_strlit("package.json");
    let path = slashed(headers[i]->path->Ok_0);
    let n = root.len() as int;
    if n <= path.len() && path.take(n) == root {
        assert forall|k: int| 0 <= k < n implies path[k] != '/' by {
            assert(path.take(n)[k] == path[k]);
            assert(root.contains(root[k]));
        }
        if n == path.len() || path[n] == '/' {
            index_from_is(path, '/', 0, n);
        }
        if n < path.len() && path[n] == '/' {
            assert(path.skip(n) =~= seq!['/'] + path.skip(n + 1));
            assert("/package.json"@ =~= seq!['/'] + "package.json"@);
            if path.skip(n + 1) == "package.json"@ {
                assert(path.skip(n) =~= "/package.json"@);
            }
        }
    }
    if path == root + "/package.json"@ {
        assert(path.take(n) =~= root);
        assert(path[n] == '/');
        assert(path.skip(n + 1) =~= "package.json"@);
        index_from_is(path, '/', 0, n);
    }
}

/// What is recorded of a tarball that is accepted is what its bytes are: their number,
/// their SHA-256 in hexadecimal digits, and a SHA-512 that the lockfile records.
pub proof fn an_accepted_tarball_is_what_was_asked_for(
    key: Seq<char>,
    name: Seq<char>,
    url: Seq<char>,
    bytes: Seq<u8>,
    integrity: Seq<char>,
    verified: Verified,
    warnings: Vec<VendorWarning>,
)
    requires
        tarball_agrees(key, name, url, bytes, integrity, Ok((verified, warnings))),
    ensures
        verified.size == bytes.len(),
        verified.sha256@.len() == 2 * sha256(bytes).len(),
        forall|i: int|
            0 <= i < sha256(bytes).len() ==> #[trigger] sha256(bytes)[i] == 16 * nibble(
                verified.sha256@[2 * i],
            ) + nibble(verified.sha256@[2 * i + 1]),
        recorded_digest(integrity) == Some(sha512(bytes)),
{
    let headers = choose|headers: Seq<HeaderModel>|
        #[trigger] headers_fit(headers, archive_headers(bytes)) && outcome_agrees(
            key,
            name,
            url,
            bytes,
            members_from(bytes, headers),
            integrity,
            Ok((verified, warnings)),
        );
    accepted_bytes_match_the_lockfile(key, url, bytes, members_from(bytes, headers), integrity);
    assert forall|i: int| 0 <= i < sha256(bytes).len() implies #[trigger] sha256(bytes)[i] == 16 * nibble(
        verified.sha256@[2 * i],
    ) + nibble(verified.sha256@[2 * i + 1]) by {
        hex_reads_back(sha256(bytes), i);
    }
}

/// A `bin` that says nothing: null, false, an empty text, or zero.
pub open spec fn says_nothing(bin: JsonModel) -> bool {
    ||| bin == JsonModel::Null
    ||| bin == JsonModel::Bool(false)
    ||| bin == JsonModel::Text(Seq::empty())
    ||| bin == JsonModel::Number(seq!['0'])
    ||| bin == JsonModel::Number(seq!['0', '.', '0'])
    ||| bin == JsonModel::Number(seq!['-', '0', '.', '0'])
}

/// A `bin` that says nothing counts as none at all: what comes of a package is then what
/// comes of it without one. A `bin` that says anything, even where no command comes of it,
/// hides the `directories`: which files there are makes no difference.
pub proof fn a_bin_hides_the_directories(
    key: Seq<char>,
    name: Seq<char>,
    doc: JsonModel,
    plain: JsonModel,
    entries: Seq<Seq<char>>,
    others: Seq<Seq<char>>,
)
    requires
        member_of(plain, "bin"@) is None,
        member_of(plain, "directories"@) == member_of(doc, "directories"@),
        member_of(doc, "bin"@) is Some,
    ensures
        says_nothing(member_of(doc, "bin"@)->Some_0) ==> bin_steps(key, name, doc, entries)
            == bin_steps(key, name, plain, entries),
        !says_nothing(member_of(doc, "bin"@)->Some_0) ==> bin_steps(key, name, doc, entries)
            == bin_steps(key, name, doc, others),
{
    reveal_strlit("0");
    reveal_strlit("0.0");
    reveal_strlit("-0.0");
    assert("0"@ =~= seq!['0']);
    assert("0.0"@ =~= seq!['0', '.', '0']);
    assert("-0.0"@ =~= seq!['-', '0', '.', '0']);
    if let JsonModel::Text(s) = bin_field(doc) {
        if s.len() == 0 {
            assert(s =~= Seq::empty());
        }
    }
}

proof fn a_sound_listing_goes_on(key: Seq<char>, members: Seq<MemberModel>, root: Seq<char>, n: int)
    requires
        0 <= n <= members.len(),
        !root.contains('/'),
        forall|i: int| 0 <= i < members.len() ==> (#[trigger] members[i]) is Entry,
        forall|i: int|
            0 <= i < members.len() && is_in_tree(#[trigger] members[i]) ==> members[i]->path is Ok
                && (slashed(members[i]->path->Ok_0) == root || (root + seq!['/']).is_prefix_of(
                slashed(members[i]->path->Ok_0),
            )),
        forall|i: int|
            0 <= i < members.len() && is_file_at(#[trigger] members[i], root, "package.json"@)
                ==> members[i]->text is Ok,
    ensures
        listing_of(key, members, n) is Ok,
        ({
            let l = listing_of(key, members, n)->Ok_0;
            &&& l.root is None || l.root == Some(root)
            &&& (exists|i: int|
                0 <= i < n && is_file_at(#[trigger] members[i], root, "package.json"@))
                ==> l.manifest is Some
        }),
    decreases n,
{
    reveal_strlit("package.json");
    if n > 0 {
        a_sound_listing_goes_on(key, members, root, n - 1);
        let m = members[n - 1];
        let wanted = "package.json"@;
        if is_in_tree(m) {
            let path = slashed(m->path->Ok_0);
            path_falls_apart(path, root, wanted);
            assert(root_of(path) == root);
            if m->is_file && below_root(path) == wanted {
                assert(is_file_at(m, root, wanted));
            }
        }
    }
}

/// An archive is refused only for cause: where every member can be read, everything lies
/// under one root, and a `package.json` stands there that can be read, it is accepted.
pub proof fn a_sound_archive_is_accepted(key: Seq<char>, members: Seq<MemberModel>, root: Seq<char>)
    requires
        !root.contains('/'),
        forall|i: int| 0 <= i < members.len() ==> (#[trigger] members[i]) is Entry,
        forall|i: int|
            0 <= i < members.len() && is_in_tree(#[trigger] members[i]) ==> members[i]->path is Ok
                && (slashed(members[i]->path->Ok_0) == root || (root + seq!['/']).is_prefix_of(
                slashed(members[i]->path->Ok_0),
            )),
        exists|i: int|
            0 <= i < members.len() && is_file_at(#[trigger] members[i], root, "package.json"@),
        forall|i: int|
            0 <= i < members.len() && is_file_at(#[trigger] members[i], root, "package.json"@)
                ==> members[i]->text is Ok,
    ensures
        listing_result(key, members) is Ok,
        listing_result(key, members)->Ok_0.root == Some(root),
{
    let n = members.len() as int;
    a_sound_listing_goes_on(key, members, root, n);
    let i = choose|i: int|
        0 <= i < n && is_file_at(#[trigger] members[i], root, "package.json"@);
    listing_facts(key, members, n);
    assert(is_in_tree(members[i]));
    reveal_strlit("package.json");
    path_falls_apart(slashed(members[i]->path->Ok_0), root, "package.json"@);
}

/// Bytes that have another SHA-512 than the lockfile records are refused whatever archive
/// they are, and so are any bytes where it records none; no other bytes are refused for
/// their hash.
pub proof fn other_bytes_are_refused(
    key: Seq<char>,
    url: Seq<char>,
    bytes: Seq<u8>,
    members: Seq<MemberModel>,
    integrity: Seq<char>,
)
    ensures
        verdict(key, url, bytes, members, integrity) is Err && verdict(
            key,
            url,
            bytes,
            members,
            integrity,
        )->Err_0 is IntegrityMismatch <==> recorded_digest(integrity) is Some && recorded_digest(
            integrity,
        )->Some_0 != sha512(bytes),
        verdict(key, url, bytes, members, integrity) is Err && verdict(
            key,
            url,
            bytes,
            members,
            integrity,
        )->Err_0 is MalformedIntegrity <==> recorded_digest(integrity) is None,
        recorded_digest(integrity) is Some && recorded_digest(integrity)->Some_0 != sha512(bytes)
            ==> match verdict(key, url, bytes, members, integrity)->Err_0 {
            VendorErrorModel::IntegrityMismatch { key: k, url: u, expected, actual } => k == key
                && u == url && expected == integrity && actual == "sha512-"@ + base64_text(
                sha512(bytes),
            ),
            _ => false,
        },
{
    listing_is_refused_for_its_members(key, members, members.len() as int);
}

proof fn listing_is_refused_for_its_members(key: Seq<char>, members: Seq<MemberModel>, n: int)
    ensures
        listing_of(key, members, n) is Err ==> listing_of(
            key,
            members,
            n,
        )->Err_0 is MalformedTarball,
    decreases n,
{
    if n > 0 {
        listing_is_refused_for_its_members(key, members, n - 1);
    }
}

} // verus!
