//! The pnpm snapshot-key grammar.
//!
//! ```text
//! key     := name "@" version peers?
//! name    := ("@" scope "/")? ident
//! peers   := "(" key ")" peers?
//! ```
//!
//! A peer is itself a full key, so the grammar is recursive and the parens
//! balance to arbitrary depth. Splitting on the first `(` alone would ignore
//! nesting, and splitting the head on the first `@` would break scoped names.

use vstd::prelude::*;

use crate::tarball::{hex, hex_text, sha256, sha256_digest};
use crate::text::{byte_len, byte_offsets, chars_of, decimal, decimal_text, starts_with, text_of};

verus! {

/// Maximum peer-nesting depth. Real lockfiles nest three levels.
pub const MAX_PEER_DEPTH: usize = 64;

/// A parsed snapshot key.
#[derive(Debug, PartialEq, Eq)]
pub struct SnapshotKey {
    pub name: String,
    pub version: String,
    /// In lockfile order, never sorted: directory naming hashes this order.
    pub peers: Vec<SnapshotKey>,
}

/// Why a key failed to parse: the whole key, the byte in it, and the reason.
#[derive(Debug, Clone, PartialEq, Eq)]
pub struct KeyParseError {
    pub key: String,
    pub offset: usize,
    pub reason: &'static str,
}

/// The mathematical value of a snapshot key.
pub struct KeyModel {
    pub name: Seq<char>,
    pub version: Seq<char>,
    pub peers: Seq<KeyModel>,
}

/// Where in a text, counted in characters, parsing fails and why.
pub struct KeyFault {
    pub at: int,
    pub reason: Seq<char>,
}

/// What a key stands for.
pub open spec fn key_model(k: SnapshotKey) -> KeyModel
    decreases k,
{
    KeyModel {
        name: k.name@,
        version: k.version@,
        peers: Seq::new(
            k.peers@.len(),
            |i: int|
                if 0 <= i < k.peers@.len() {
                    key_model(k.peers@[i])
                } else {
                    arbitrary()
                },
        ),
    }
}

/// The first unbalanced paren of `s` from `i` on, with `open` parens open there.
pub open spec fn paren_fault(s: Seq<char>, i: int, open: int) -> Option<KeyFault>
    decreases s.len() - i,
{
    if i < 0 || i >= s.len() {
        if open == 0 {
            None
        } else {
            Some(KeyFault { at: s.len() as int, reason: "unbalanced `(`"@ })
        }
    } else if s[i] == '(' {
        paren_fault(s, i + 1, open + 1)
    } else if s[i] == ')' {
        if open == 0 {
            Some(KeyFault { at: i, reason: "unbalanced `)`"@ })
        } else {
            paren_fault(s, i + 1, open - 1)
        }
    } else {
        paren_fault(s, i + 1, open)
    }
}

/// The first `(` of `s` at or after `i`, or the end of `s`.
pub open spec fn next_open(s: Seq<char>, i: int) -> int
    decreases s.len() - i,
{
    if i < 0 || i >= s.len() {
        s.len() as int
    } else if s[i] == '(' {
        i
    } else {
        next_open(s, i + 1)
    }
}

/// The `)` at or after `i` that closes the outermost of `open` open parens, or
/// the end of `s`.
pub open spec fn close_of(s: Seq<char>, i: int, open: int) -> int
    decreases s.len() - i,
{
    if i < 0 || i >= s.len() {
        s.len() as int
    } else if s[i] == '(' {
        close_of(s, i + 1, open + 1)
    } else if s[i] == ')' {
        if open <= 1 {
            i
        } else {
            close_of(s, i + 1, open - 1)
        }
    } else {
        close_of(s, i + 1, open)
    }
}

/// The last `@` of `s[..n]` that is not its first character.
pub open spec fn last_at(s: Seq<char>, n: int) -> Option<int>
    decreases n,
{
    if n <= 1 {
        None
    } else if s[n - 1] == '@' {
        Some(n - 1)
    } else {
        last_at(s, n - 1)
    }
}

/// A key without its peers, as text: the `packages:` table's key.
pub open spec fn base_text(k: KeyModel) -> Seq<char> {
    k.name + seq!['@'] + k.version
}

/// What `s` parses to as a key that is itself nested `depth` levels deep.
pub open spec fn parse_key(s: Seq<char>, depth: int) -> Result<KeyModel, KeyFault>
    decreases s.len(), 1int, 0int,
{
    match paren_fault(s, 0, 0) {
        Some(f) => Err(f),
        None => {
            let cut = next_open(s, 0);
            match last_at(s, cut) {
                None => Err(KeyFault { at: 0, reason: "expected `name@version`"@ }),
                Some(at) => if at + 1 >= cut {
                    Err(KeyFault { at: at + 1, reason: "empty version"@ })
                } else {
                    match parse_groups(s, cut, depth) {
                        Err(f) => Err(f),
                        Ok(peers) => Ok(
                            KeyModel {
                                name: s.subrange(0, at),
                                version: s.subrange(at + 1, cut),
                                peers,
                            },
                        ),
                    }
                },
            }
        },
    }
}

/// What `s` from `from` on parses to as the peers of a key nested `depth` levels
/// deep: one paren group behind the other, and nothing between or behind them.
pub open spec fn parse_groups(s: Seq<char>, from: int, depth: int) -> Result<
    Seq<KeyModel>,
    KeyFault,
>
    decreases s.len(), 0int, s.len() - from,
{
    let c = close_of(s, from + 1, 1);
    if from < 0 || from >= s.len() {
        Ok(Seq::empty())
    } else if s[from] != '(' {
        Err(KeyFault { at: from, reason: "expected `(` or the end of the key"@ })
    } else if c <= from || c >= s.len() {
        Ok(Seq::empty())
    } else if depth + 1 > MAX_PEER_DEPTH {
        Err(KeyFault { at: from + 1, reason: "peer nesting exceeds the maximum depth of 64"@ })
    } else {
        match parse_key(s.subrange(from + 1, c), depth + 1) {
            Err(f) => Err(KeyFault { at: from + 1 + f.at, reason: f.reason }),
            Ok(k) => match parse_groups(s, c + 1, depth) {
                Err(f) => Err(f),
                Ok(rest) => Ok(seq![k] + rest),
            },
        }
    }
}

/// A key's text: name, version, then each peer in parens.
pub open spec fn canonical_text(k: KeyModel) -> Seq<char>
    decreases k,
{
    base_text(k) + groups_text(k.peers)
}

/// The text of peers, each in parens, in order.
pub open spec fn groups_text(peers: Seq<KeyModel>) -> Seq<char>
    decreases peers,
{
    if peers.len() == 0 {
        Seq::empty()
    } else {
        groups_text(peers.drop_last()) + seq!['('] + canonical_text(peers.last()) + seq![')']
    }
}

/// A parse result agrees with the model, offsets being bytes of `whole` from
/// character `lo` on.
pub open spec fn parse_agrees(
    whole: Seq<char>,
    lo: int,
    want: Result<KeyModel, KeyFault>,
    got: Result<SnapshotKey, KeyParseError>,
) -> bool {
    match (want, got) {
        (Ok(m), Ok(k)) => key_model(k) == m,
        (Err(f), Err(e)) => fault_agrees(whole, lo, f, e),
        _ => false,
    }
}

/// An error names the whole key, the absolute byte of the fault and its reason.
pub open spec fn fault_agrees(whole: Seq<char>, lo: int, f: KeyFault, e: KeyParseError) -> bool {
    &&& 0 <= lo + f.at <= whole.len()
    &&& e.key@ == whole
    &&& e.offset == byte_len(whole.take(lo + f.at))
    &&& e.reason@ == f.reason
}

proof fn close_of_bounds(s: Seq<char>, i: int, open: int)
    requires
        0 <= i <= s.len(),
    ensures
        i <= close_of(s, i, open) <= s.len(),
    decreases s.len() - i,
{
    if i < s.len() {
        close_of_bounds(s, i + 1, open + 1);
        close_of_bounds(s, i + 1, open - 1);
        close_of_bounds(s, i + 1, open);
    }
}

/// A whole key with its characters and the byte offset of each.
struct Source {
    whole: String,
    chars: Vec<char>,
    offsets: Vec<usize>,
}

impl Source {
    spec fn wf(&self) -> bool {
        &&& self.chars@ == self.whole@
        &&& self.offsets.len() == self.chars.len() + 1
        &&& forall|i: int|
            0 <= i <= self.chars.len() ==> #[trigger] self.offsets@[i] == byte_len(
                self.whole@.take(i),
            )
    }

    fn error(&self, at: usize, reason: &'static str) -> (e: KeyParseError)
        requires
            self.wf(),
            at <= self.chars.len(),
        ensures
            e.key@ == self.whole@,
            e.offset == byte_len(self.whole@.take(at as int)),
            e.reason@ == reason@,
    {
        KeyParseError { key: self.whole.clone(), offset: self.offsets[at], reason }
    }
}

/// Index of the first `(` of `chars[lo..hi]`, or `hi`. Errors on unbalanced
/// parens.
fn top_level_paren(src: &Source, lo: usize, hi: usize) -> (r: Result<usize, KeyParseError>)
    requires
        src.wf(),
        lo <= hi <= src.chars.len(),
    ensures
        match (paren_fault(src.whole@.subrange(lo as int, hi as int), 0, 0), r) {
            (None, Ok(i)) => lo <= i <= hi && i - lo == next_open(
                src.whole@.subrange(lo as int, hi as int),
                0,
            ),
            (Some(f), Err(e)) => fault_agrees(src.whole@, lo as int, f, e),
            _ => false,
        },
{
    let ghost s = src.whole@.subrange(lo as int, hi as int);
    let mut open: usize = 0;
    let mut first: Option<usize> = None;
    let mut i: usize = lo;
    while i < hi
        invariant
            src.wf(),
            lo <= i <= hi <= src.chars.len(),
            s == src.whole@.subrange(lo as int, hi as int),
            open <= i - lo,
            paren_fault(s, 0, 0) == paren_fault(s, i - lo, open as int),
            match first {
                Some(k) => lo <= k < hi && k - lo == next_open(s, 0),
                None => open == 0 && next_open(s, 0) == next_open(s, i - lo),
            },
        decreases hi - i,
    {
        let c = src.chars[i];
        assert(c == s[i - lo]);
        if c == '(' {
            if open == 0 && first.is_none() {
                first = Some(i);
            }
            open += 1;
        } else if c == ')' {
            if open == 0 {
                return Err(src.error(i, "unbalanced `)`"));
            }
            open -= 1;
        }
        i += 1;
    }
    if open != 0 {
        return Err(src.error(hi, "unbalanced `(`"));
    }
    match first {
        Some(k) => Ok(k),
        None => Ok(hi),
    }
}

/// Parses the groups that make up `chars[cut..hi]`, the suffix of the key that
/// starts at `lo` and is nested `depth` levels deep.
fn parse_peers(src: &Source, lo: usize, cut: usize, hi: usize, depth: usize) -> (r: Result<
    Vec<SnapshotKey>,
    KeyParseError,
>)
    requires
        src.wf(),
        lo <= cut <= hi <= src.chars.len(),
        depth <= MAX_PEER_DEPTH,
    ensures
        match (
            parse_groups(
                src.whole@.subrange(lo as int, hi as int),
                cut - lo,
                depth as int,
            ),
            r,
        ) {
            (Ok(m), Ok(ks)) => m == ks@.map_values(|k: SnapshotKey| key_model(k)),
            (Err(f), Err(e)) => fault_agrees(src.whole@, lo as int, f, e),
            _ => false,
        },
    decreases hi - lo, 0nat,
{
    let ghost s = src.whole@.subrange(lo as int, hi as int);
    let ghost want = parse_groups(s, cut - lo, depth as int);
    let mut peers: Vec<SnapshotKey> = Vec::new();
    let mut pos: usize = cut;
    proof {
        let none = peers@.map_values(|k: SnapshotKey| key_model(k));
        assert(none =~= Seq::<KeyModel>::empty());
        match want {
            Ok(m) => {
                assert(none + m =~= m);
            },
            Err(_) => {},
        }
    }
    loop
        invariant
            src.wf(),
            lo <= pos <= hi <= src.chars.len(),
            depth <= MAX_PEER_DEPTH,
            s == src.whole@.subrange(lo as int, hi as int),
            want == parse_groups(s, cut - lo, depth as int),
            match (want, parse_groups(s, pos - lo, depth as int)) {
                (Ok(m), Ok(rest)) => m == peers@.map_values(|k: SnapshotKey| key_model(k)) + rest,
                (Err(f), Err(g)) => f == g,
                _ => false,
            },
        ensures
            want == Ok::<Seq<KeyModel>, KeyFault>(
                peers@.map_values(|k: SnapshotKey| key_model(k)),
            ),
        decreases hi - pos,
    {
        if pos >= hi {
            proof {
                let got = peers@.map_values(|k: SnapshotKey| key_model(k));
                assert(got + Seq::<KeyModel>::empty() =~= got);
            }
            break ;
        }
        let o: usize = pos;
        assert(src.chars@[o as int] == s[o - lo]);
        if src.chars[o] != '(' {
            return Err(src.error(o, "expected `(` or the end of the key"));
        }
        let mut c: usize = o + 1;
        let mut open: usize = 1;
        while c < hi && !(open == 1 && src.chars[c] == ')')
            invariant
                src.wf(),
                lo <= o < c <= hi <= src.chars.len(),
                1 <= open <= c - o,
                s == src.whole@.subrange(lo as int, hi as int),
                close_of(s, o + 1 - lo, 1) == close_of(s, c - lo, open as int),
            decreases hi - c,
        {
            assert(src.chars@[c as int] == s[c - lo]);
            if src.chars[c] == '(' {
                open += 1;
            } else if src.chars[c] == ')' {
                open -= 1;
            }
            c += 1;
        }
        proof {
            if c < hi {
                assert(src.chars@[c as int] == s[c - lo]);
            }
            assert(close_of(s, o + 1 - lo, 1) == c - lo);
        }
        if c >= hi {
            proof {
                let got = peers@.map_values(|k: SnapshotKey| key_model(k));
                assert(got + Seq::<KeyModel>::empty() =~= got);
            }
            break ;
        }
        if depth + 1 > MAX_PEER_DEPTH {
            return Err(src.error(o + 1, "peer nesting exceeds the maximum depth of 64"));
        }
        proof {
            assert(s.subrange(o + 1 - lo, c - lo) =~= src.whole@.subrange(o + 1, c as int));
        }
        match parse_inner(src, o + 1, c, depth + 1) {
            Err(e) => {
                return Err(e);
            },
            Ok(k) => {
                let ghost before = peers@.map_values(|k: SnapshotKey| key_model(k));
                peers.push(k);
                proof {
                    let after = peers@.map_values(|k: SnapshotKey| key_model(k));
                    assert(after =~= before.push(key_model(k)));
                    match parse_groups(s, c + 1 - lo, depth as int) {
                        Ok(rest) => {
                            assert(before + (seq![key_model(k)] + rest) =~= after + rest);
                        },
                        Err(_) => {},
                    }
                }
            },
        }
        pos = c + 1;
    }
    Ok(peers)
}

/// Parses `chars[lo..hi]`, a key nested `depth` levels deep.
fn parse_inner(src: &Source, lo: usize, hi: usize, depth: usize) -> (r: Result<
    SnapshotKey,
    KeyParseError,
>)
    requires
        src.wf(),
        lo <= hi <= src.chars.len(),
        depth <= MAX_PEER_DEPTH,
    ensures
        parse_agrees(
            src.whole@,
            lo as int,
            parse_key(src.whole@.subrange(lo as int, hi as int), depth as int),
            r,
        ),
    decreases hi - lo, 1nat,
{
    let ghost s = src.whole@.subrange(lo as int, hi as int);
    let cut = match top_level_paren(src, lo, hi) {
        Ok(i) => i,
        Err(e) => {
            return Err(e);
        },
    };
    // The split is the last '@' that is not the first character: a scoped name
    // starts with '@'.
    let mut at: usize = cut;
    while at > lo + 1 && src.chars[at - 1] != '@'
        invariant
            src.wf(),
            lo <= at <= cut <= hi <= src.chars.len(),
            s == src.whole@.subrange(lo as int, hi as int),
            last_at(s, cut - lo) == last_at(s, at - lo),
        decreases at,
    {
        assert(src.chars@[at - 1] == s[at - 1 - lo]);
        at -= 1;
    }
    if at <= lo + 1 {
        return Err(src.error(lo, "expected `name@version`"));
    }
    assert(src.chars@[at - 1] == s[at - 1 - lo]);
    if at == cut {
        return Err(src.error(at, "empty version"));
    }
    let name = text_of(&src.chars, lo, at - 1);
    let version = text_of(&src.chars, at, cut);
    match parse_peers(src, lo, cut, hi, depth) {
        Err(e) => Err(e),
        Ok(peers) => {
            let k = SnapshotKey { name, version, peers };
            proof {
                assert(k.name@ =~= s.subrange(0, at - 1 - lo));
                assert(k.version@ =~= s.subrange(at - lo, cut - lo));
                assert(key_model(k).peers =~= peers@.map_values(|k: SnapshotKey| key_model(k)));
            }
            Ok(k)
        },
    }
}

impl KeyParseError {
    /// The error in words.
    pub fn message(&self) -> (r: String)
        ensures
            r@ == "invalid snapshot key `"@ + self.key@ + "` at byte "@ + decimal_text(
                self.offset as nat,
            ) + ": "@ + self.reason@,
    {
        let mut out = "invalid snapshot key `".to_owned();
        out.append(self.key.as_str());
        out.append("` at byte ");
        out.append(decimal(self.offset as u64).as_str());
        out.append(": ");
        out.append(self.reason);
        out
    }
}

impl SnapshotKey {
    /// The Buck target name of this key.
    pub fn target_name(&self) -> (r: String)
        ensures
            r@ == target_text(canonical_text(key_model(*self))),
            r@.len() <= MAX_LEN_WITHOUT_HASH,
    {
        target_name(self.canonical().as_str())
    }

    /// Parse a snapshot key.
    pub fn parse(s: &str) -> (r: Result<Self, KeyParseError>)
        ensures
            parse_agrees(s@, 0, parse_key(s@, 0), r),
    {
        let chars = chars_of(s);
        let offsets = byte_offsets(s, &chars);
        let n: usize = chars.len();
        let src = Source { whole: s.to_owned(), chars, offsets };
        proof {
            assert(s@.subrange(0, n as int) =~= s@);
        }
        parse_inner(&src, 0, n, 0)
    }

    /// The key with its peer suffix removed: the `packages:` table's key.
    pub fn base(&self) -> (r: String)
        ensures
            r@ == base_text(key_model(*self)),
    {
        let mut out = self.name.clone();
        out.push('@');
        out.append(self.version.as_str());
        proof {
            assert(out@ =~= self.name@ + seq!['@'] + self.version@);
        }
        out
    }

    /// Render back to lockfile form, peer order preserved.
    pub fn canonical(&self) -> (r: String)
        ensures
            r@ == canonical_text(key_model(*self)),
        decreases self,
    {
        let mut out = self.base();
        let ghost m = key_model(*self);
        let ghost head = out@;
        let mut i: usize = 0;
        proof {
            assert(head + groups_text(m.peers.take(0)) =~= head);
        }
        while i < self.peers.len()
            invariant
                i <= self.peers.len(),
                m == key_model(*self),
                out@ == head + groups_text(m.peers.take(i as int)),
            decreases self.peers.len() - i,
        {
            proof {
                assert(decreases_to!(self => self.peers[i as int]));
            }
            let p = self.peers[i].canonical();
            out.push('(');
            out.append(p.as_str());
            out.push(')');
            i += 1;
            proof {
                let ps = m.peers.take(i as int);
                assert(ps.drop_last() =~= m.peers.take(i - 1));
                assert(ps.last() == key_model(self.peers@[i - 1]));
                assert(out@ =~= head + groups_text(ps));
            }
        }
        proof {
            assert(m.peers.take(i as int) =~= m.peers);
            assert(out@ =~= canonical_text(m));
        }
        out
    }
}

/// A text without parens.
pub open spec fn no_parens(s: Seq<char>) -> bool {
    forall|i: int| 0 <= i < s.len() ==> #[trigger] s[i] != '(' && s[i] != ')'
}

/// The longest directory name that is not shortened by a hash.
pub const MAX_LEN_WITHOUT_HASH: usize = 120;

/// A character that pnpm does not let into a directory name.
pub open spec fn replaced_in_names(c: char) -> bool {
    c == '\\' || c == '/' || c == ':' || c == '*' || c == '?' || c == '"' || c == '<' || c == '>' || c
        == '|' || c == '#'
}

/// `s` with such characters written as `+`.
pub open spec fn plussed(s: Seq<char>) -> Seq<char> {
    Seq::new(
        s.len(),
        |i: int|
            if replaced_in_names(s[i]) {
                '+'
            } else {
                s[i]
            },
    )
}

/// `s` from `i` on with a closing paren at the very end dropped, and each `)(`,
/// `(` and `)` written as one `_`.
pub open spec fn flattened(s: Seq<char>, i: int) -> Seq<char>
    decreases s.len() - i,
{
    if i < 0 || i >= s.len() {
        Seq::empty()
    } else if s[i] == ')' && i + 1 == s.len() {
        Seq::empty()
    } else if s[i] == ')' && s[i + 1] == '(' {
        seq!['_'] + flattened(s, i + 2)
    } else if s[i] == '(' || s[i] == ')' {
        seq!['_'] + flattened(s, i + 1)
    } else {
        seq![s[i]] + flattened(s, i + 1)
    }
}

/// The directory name of a key before any shortening.
pub open spec fn long_name(s: Seq<char>) -> Seq<char> {
    if plussed(s).contains('(') {
        flattened(plussed(s), 0)
    } else {
        plussed(s)
    }
}

/// Has an upper-case ASCII letter.
pub open spec fn has_upper(s: Seq<char>) -> bool {
    exists|i: int| 0 <= i < s.len() && 'A' <= #[trigger] s[i] <= 'Z'
}

/// A name that is too long, or that a case-insensitive file system could
/// confuse with another.
pub open spec fn needs_hash(name: Seq<char>) -> bool {
    name.len() > MAX_LEN_WITHOUT_HASH || (has_upper(name) && !"file+"@.is_prefix_of(name))
}

/// The first 16 bytes of a digest, in hexadecimal.
pub open spec fn short_hash(digest: Seq<u8>) -> Seq<char> {
    hex_text(Seq::new(16, |i: int| digest[i]))
}

/// The start of a name, with the hash of the whole behind it.
pub open spec fn hashed_text(name: Seq<char>, digest: Seq<u8>) -> Seq<char> {
    let keep = if name.len() < 87 {
        name.len() as int
    } else {
        87
    };
    name.take(keep) + seq!['_'] + short_hash(digest)
}

/// The directory name of a key in pnpm's virtual store: its long name, or the
/// start of it with a 32-digit hash of the whole behind.
pub open spec fn target_text(s: Seq<char>) -> Seq<char> {
    let name = long_name(s);
    if needs_hash(name) {
        hashed_text(name, sha256(vstd::utf8::encode_utf8(name)))
    } else {
        name
    }
}

/// Shortens a name by the digest of the whole.
pub fn hashed_name(name: &str, digest: &Vec<u8>) -> (r: String)
    requires
        digest@.len() >= 16,
    ensures
        r@ == hashed_text(name@, digest@),
{
    let chars = chars_of(name);
    let keep: usize = if chars.len() < 87 {
        chars.len()
    } else {
        87
    };
    let mut out = text_of(&chars, 0, keep);
    out.push('_');
    let tail = text_of(&chars_of(hex(digest.as_slice()).as_str()), 0, 32);
    out.append(tail.as_str());
    proof {
        assert(tail@ =~= short_hash(digest@));
        assert(out@ =~= hashed_text(name@, digest@));
    }
    out
}

fn plus_chars(s: &str) -> (r: Vec<char>)
    ensures
        r@ == plussed(s@),
{
    let chars = chars_of(s);
    let mut r: Vec<char> = Vec::new();
    let mut i: usize = 0;
    while i < chars.len()
        invariant
            chars@ == s@,
            i <= chars.len(),
            r@ == plussed(s@).take(i as int),
        decreases chars.len() - i,
    {
        let c = chars[i];
        if c == '\\' || c == '/' || c == ':' || c == '*' || c == '?' || c == '"' || c == '<' || c == '>'
            || c == '|' || c == '#' {
            r.push('+');
        } else {
            r.push(c);
        }
        i += 1;
        proof {
            assert(plussed(s@).take(i as int) =~= plussed(s@).take(i - 1).push(plussed(s@)[i - 1]));
        }
    }
    proof {
        assert(plussed(s@).take(i as int) =~= plussed(s@));
    }
    r
}

fn flatten_parens(s: &Vec<char>) -> (r: Vec<char>)
    ensures
        r@ == flattened(s@, 0),
{
    let mut r: Vec<char> = Vec::new();
    let mut i: usize = 0;
    let ghost want = flattened(s@, 0);
    proof {
        assert(r@ + want =~= want);
    }
    while i < s.len()
        invariant
            i <= s.len(),
            want == flattened(s@, 0),
            want == r@ + flattened(s@, i as int),
        decreases s.len() - i,
    {
        let c = s[i];
        let ghost before = r@;
        if c == ')' && i + 1 == s.len() {
            i += 1;
            proof {
                assert(r@ + flattened(s@, i as int) =~= r@ + flattened(s@, i - 1));
            }
        } else if c == ')' && s[i + 1] == '(' {
            r.push('_');
            i += 2;
            proof {
                assert(r@ + flattened(s@, i as int) =~= before + flattened(s@, i - 2));
            }
        } else {
            if c == '(' || c == ')' {
                r.push('_');
            } else {
                r.push(c);
            }
            i += 1;
            proof {
                assert(r@ + flattened(s@, i as int) =~= before + flattened(s@, i - 1));
            }
        }
    }
    proof {
        assert(r@ + flattened(s@, i as int) =~= r@);
    }
    r
}

/// The directory name of a snapshot key in pnpm's virtual store, which is also
/// its Buck target name.
pub fn target_name(key: &str) -> (r: String)
    ensures
        r@ == target_text(key@),
        r@.len() <= MAX_LEN_WITHOUT_HASH,
{
    let plain = plus_chars(key);
    let mut grouped = false;
    let mut i: usize = 0;
    while i < plain.len()
        invariant
            i <= plain.len(),
            grouped <==> exists|k: int| 0 <= k < i && plain@[k] == '(',
        decreases plain.len() - i,
    {
        if plain[i] == '(' {
            grouped = true;
        }
        i += 1;
    }
    let name = if grouped {
        flatten_parens(&plain)
    } else {
        plain
    };
    assert(name@ == long_name(key@));
    let mut upper = false;
    i = 0;
    while i < name.len()
        invariant
            i <= name.len(),
            upper <==> exists|k: int| 0 <= k < i && 'A' <= #[trigger] name@[k] <= 'Z',
        decreases name.len() - i,
    {
        if 'A' <= name[i] && name[i] <= 'Z' {
            upper = true;
        }
        i += 1;
    }
    let whole = text_of(&name, 0, name.len());
    proof {
        assert(whole@ =~= name@);
    }
    if name.len() > MAX_LEN_WITHOUT_HASH || (upper && !starts_with(whole.as_str(), "file+")) {
        hashed_name(whole.as_str(), &sha256_digest(whole.as_str().as_bytes()))
    } else {
        whole
    }
}

proof fn flattened_chars(s: Seq<char>, i: int, c: char)
    requires
        0 <= i,
        flattened(s, i).contains(c),
    ensures
        s.contains(c) || c == '_',
    decreases s.len() - i,
{
    if i >= s.len() || (s[i] == ')' && i + 1 == s.len()) {
    } else {
        let step = if s[i] == ')' && s[i + 1] == '(' { 2int } else { 1int };
        let rest = flattened(s, i + step);
        let all = flattened(s, i);
        let j = all.index_of(c);
        if j > 0 {
            assert(all[j] == rest[j - 1]);
            assert(rest.contains(c));
            flattened_chars(s, i + step, c);
        } else {
            assert(s.contains(s[i]));
        }
    }
}

proof fn flattened_keeps(s: Seq<char>, i: int, j: int)
    requires
        0 <= i <= j < s.len(),
        s[j] != '(' && s[j] != ')',
    ensures
        flattened(s, i).contains(s[j]),
    decreases s.len() - i,
{
    let step = if s[i] == ')' && i + 1 < s.len() && s[i + 1] == '(' { 2int } else { 1int };
    let rest = flattened(s, i + step);
    let all = flattened(s, i);
    if i == j {
        assert(all[0] == s[j]);
    } else {
        flattened_keeps(s, i + step, j);
        let p = rest.index_of(s[j]);
        assert(all[p + 1] == s[j]);
    }
}

/// A target name is one path segment: it holds no `/`.
pub proof fn target_name_has_no_slash(key: Seq<char>)
    ensures
        !target_text(key).contains('/'),
{
    let p = plussed(key);
    let name = long_name(key);
    assert(!p.contains('/')) by {
        if p.contains('/') {
            let i = p.index_of('/');
            assert(p[i] == '/');
        }
    }
    assert(!name.contains('/')) by {
        if name.contains('/') && p.contains('(') {
            flattened_chars(p, 0, '/');
        }
    }
    let t = target_text(key);
    if t.contains('/') {
        let i = t.index_of('/');
        if needs_hash(name) {
            let keep = if name.len() < 87 { name.len() as int } else { 87 };
            if i < keep {
                assert(name[i] == '/');
                assert(name.contains('/'));
            } else if i > keep {
                let digest = sha256(vstd::utf8::encode_utf8(name));
                assert(t[i] == short_hash(digest)[i - keep - 1]);
            }
        }
    }
}

/// The target name of a key that holds an `@`, as every snapshot key does, is
/// never one of the names that stand for no directory of their own.
pub proof fn target_name_is_a_name(key: Seq<char>)
    requires
        key.contains('@'),
    ensures
        target_text(key).len() > 0,
        target_text(key) != seq!['.'],
        target_text(key) != seq!['.', '.'],
{
    let p = plussed(key);
    let name = long_name(key);
    let i = key.index_of('@');
    assert(p[i] == '@');
    if p.contains('(') {
        flattened_keeps(p, 0, i);
    } else {
        assert(p.contains('@'));
    }
    assert(name.contains('@'));
    let j = name.index_of('@');
    let t = target_text(key);
    let one = seq!['.'];
    let two = seq!['.', '.'];
    if needs_hash(name) {
        assert(t.len() > 32);
    } else {
        assert(t[j] == '@');
        assert(one[0] == '.');
        assert(two[0] == '.' && two[1] == '.');
    }
}

/// A target name is never longer than the longest that needs no hash.
pub proof fn target_name_is_short(key: Seq<char>)
    ensures
        target_text(key).len() <= MAX_LEN_WITHOUT_HASH,
{
}

/// A key that the grammar can spell, its peers nested at most `height` deep.
pub open spec fn spellable(k: KeyModel, height: int) -> bool
    decreases k,
{
    &&& k.name.len() > 0
    &&& no_parens(k.name)
    &&& k.version.len() > 0
    &&& no_parens(k.version)
    &&& !k.version.contains('@')
    &&& k.peers.len() > 0 ==> height > 0
    &&& forall|i: int| 0 <= i < k.peers.len() ==> spellable(#[trigger] k.peers[i], height - 1)
}

/// The next `(` is one, and none stands before it.
pub proof fn next_open_skips(s: Seq<char>, i: int)
    requires
        0 <= i <= s.len(),
    ensures
        forall|j: int| i <= j < next_open(s, i) ==> s[j] != '(',
        next_open(s, i) < s.len() ==> s[next_open(s, i)] == '(',
        i <= next_open(s, i) <= s.len(),
    decreases s.len() - i,
{
    if i < s.len() && s[i] != '(' {
        next_open_skips(s, i + 1);
    }
}

proof fn balanced_head(s: Seq<char>, i: int, cut: int)
    requires
        0 <= i <= cut <= s.len(),
        forall|j: int| i <= j < cut ==> s[j] != '(',
        paren_fault(s, i, 0) is None,
    ensures
        forall|j: int| i <= j < cut ==> s[j] != ')',
        paren_fault(s, cut, 0) is None,
    decreases cut - i,
{
    if i < cut {
        assert(s[i] != ')');
        balanced_head(s, i + 1, cut);
    }
}

proof fn balanced_close(s: Seq<char>, i: int, open: int)
    requires
        0 <= i <= s.len(),
        open >= 1,
        paren_fault(s, i, open) is None,
    ensures
        i <= close_of(s, i, open) < s.len(),
        s[close_of(s, i, open)] == ')',
        paren_fault(s, close_of(s, i, open) + 1, 0) is None,
    decreases s.len() - i,
{
    if i < s.len() {
        if s[i] == '(' {
            balanced_close(s, i + 1, open + 1);
        } else if s[i] == ')' {
            if open > 1 {
                balanced_close(s, i + 1, open - 1);
            }
        } else {
            balanced_close(s, i + 1, open);
        }
    }
}

/// The last `@` is one, and none stands behind it.
pub proof fn last_at_splits(s: Seq<char>, n: int)
    requires
        0 <= n <= s.len(),
    ensures
        match last_at(s, n) {
            Some(at) => 0 < at < n && s[at] == '@' && (forall|j: int| at < j < n ==> s[j] != '@'),
            None => forall|j: int| 0 < j < n ==> s[j] != '@',
        },
    decreases n,
{
    if n > 1 && s[n - 1] != '@' {
        last_at_splits(s, n - 1);
    }
}

proof fn groups_text_front(k: KeyModel, rest: Seq<KeyModel>)
    ensures
        groups_text(seq![k] + rest) == seq!['('] + canonical_text(k) + seq![')'] + groups_text(rest),
    decreases rest.len(),
{
    let all = seq![k] + rest;
    let front = seq!['('] + canonical_text(k) + seq![')'];
    if rest.len() == 0 {
        assert(all.drop_last() =~= Seq::<KeyModel>::empty());
        assert(all.last() == k);
        assert(groups_text(all.drop_last()) =~= Seq::<char>::empty());
        assert(groups_text(all) =~= front + groups_text(rest));
    } else {
        assert(all.drop_last() =~= seq![k] + rest.drop_last());
        assert(all.last() == rest.last());
        groups_text_front(k, rest.drop_last());
        assert(groups_text(all) =~= front + groups_text(rest));
    }
}

/// A key that parses is spelled exactly as its canonical form: `canonical` undoes
/// `parse`.
pub proof fn canonical_of_parsed(s: Seq<char>, depth: int)
    requires
        parse_key(s, depth) is Ok,
    ensures
        canonical_text(parse_key(s, depth)->Ok_0) == s,
    decreases s.len(), 1int, 0int,
{
    let cut = next_open(s, 0);
    next_open_skips(s, 0);
    balanced_head(s, 0, cut);
    last_at_splits(s, cut);
    let at = last_at(s, cut)->Some_0;
    let k = parse_key(s, depth)->Ok_0;
    groups_of_parsed(s, cut, depth);
    assert(canonical_text(k) =~= s);
}

proof fn groups_of_parsed(s: Seq<char>, from: int, depth: int)
    requires
        0 <= from <= s.len(),
        paren_fault(s, from, 0) is None,
        parse_groups(s, from, depth) is Ok,
    ensures
        groups_text(parse_groups(s, from, depth)->Ok_0) == s.subrange(from, s.len() as int),
    decreases s.len(), 0int, s.len() - from,
{
    let got = parse_groups(s, from, depth)->Ok_0;
    if from < s.len() {
        assert(s[from] == '(');
        let o = from;
        balanced_close(s, o + 1, 1);
        let c = close_of(s, o + 1, 1);
        let inner = s.subrange(o + 1, c);
        canonical_of_parsed(inner, depth + 1);
        groups_of_parsed(s, c + 1, depth);
        let k = parse_key(inner, depth + 1)->Ok_0;
        let rest = parse_groups(s, c + 1, depth)->Ok_0;
        groups_text_front(k, rest);
        assert(groups_text(got) =~= s.subrange(from, s.len() as int));
    } else {
        assert(got =~= Seq::<KeyModel>::empty());
        assert(groups_text(got) =~= s.subrange(from, s.len() as int));
    }
}

/// In a key that parses nothing stands between or behind groups: only a paren follows a
/// closing paren.
pub proof fn nothing_follows_a_group(s: Seq<char>, depth: int, i: int)
    requires
        parse_key(s, depth) is Ok,
        0 <= i && i + 1 < s.len(),
        s[i] == ')',
    ensures
        s[i + 1] == '(' || s[i + 1] == ')',
    decreases s.len(), 1int, 0int,
{
    let cut = next_open(s, 0);
    next_open_skips(s, 0);
    balanced_head(s, 0, cut);
    nothing_follows_in_groups(s, cut, depth, i);
}

proof fn nothing_follows_in_groups(s: Seq<char>, from: int, depth: int, i: int)
    requires
        0 <= from <= i && i + 1 < s.len(),
        s[i] == ')',
        paren_fault(s, from, 0) is None,
        parse_groups(s, from, depth) is Ok,
    ensures
        s[i + 1] == '(' || s[i + 1] == ')',
    decreases s.len(), 0int, s.len() - from,
{
    balanced_close(s, from + 1, 1);
    let c = close_of(s, from + 1, 1);
    let inner = s.subrange(from + 1, c);
    if i < c {
        assert(inner[i - from - 1] == ')');
        if i + 1 < c {
            assert(inner[i - from] == s[i + 1]);
            nothing_follows_a_group(inner, depth + 1, i - from - 1);
        }
    } else if i > c {
        nothing_follows_in_groups(s, c + 1, depth, i);
    }
}

/// Whatever parses holds an `@`.
pub proof fn parsed_holds_an_at(s: Seq<char>, depth: int)
    requires
        parse_key(s, depth) is Ok,
    ensures
        s.contains('@'),
{
    let cut = next_open(s, 0);
    next_open_skips(s, 0);
    last_at_splits(s, cut);
    assert(s[last_at(s, cut)->Some_0] == '@');
}

/// Whatever parses is a key the grammar can spell, within the nesting cap.
pub proof fn parsed_is_spellable(s: Seq<char>, depth: int)
    requires
        parse_key(s, depth) is Ok,
        depth <= MAX_PEER_DEPTH,
    ensures
        spellable(parse_key(s, depth)->Ok_0, MAX_PEER_DEPTH - depth),
    decreases s.len(), 1int, 0int,
{
    let cut = next_open(s, 0);
    next_open_skips(s, 0);
    balanced_head(s, 0, cut);
    last_at_splits(s, cut);
    let at = last_at(s, cut)->Some_0;
    let k = parse_key(s, depth)->Ok_0;
    assert forall|i: int| 0 <= i < k.version.len() implies #[trigger] k.version[i] != '@' && k.version[i] != '('
        && k.version[i] != ')' by {
        assert(k.version[i] == s[at + 1 + i]);
    }
    assert forall|i: int| 0 <= i < k.name.len() implies #[trigger] k.name[i] != '(' && k.name[i] != ')' by {
        assert(k.name[i] == s[i]);
    }
    groups_are_spellable(s, cut, depth);
}

proof fn groups_are_spellable(s: Seq<char>, from: int, depth: int)
    requires
        0 <= from <= s.len(),
        parse_groups(s, from, depth) is Ok,
        depth <= MAX_PEER_DEPTH,
    ensures
        ({
            let ks = parse_groups(s, from, depth)->Ok_0;
            &&& ks.len() > 0 ==> depth < MAX_PEER_DEPTH
            &&& forall|i: int|
                0 <= i < ks.len() ==> spellable(#[trigger] ks[i], MAX_PEER_DEPTH - depth - 1)
        }),
    decreases s.len(), 0int, s.len() - from,
{
    let c = close_of(s, from + 1, 1);
    if from < s.len() {
        close_of_bounds(s, from + 1, 1);
    }
    if from < s.len() && from < c < s.len() {
        let inner = s.subrange(from + 1, c);
        parsed_is_spellable(inner, depth + 1);
        groups_are_spellable(s, c + 1, depth);
        let ks = parse_groups(s, from, depth)->Ok_0;
        let rest = parse_groups(s, c + 1, depth)->Ok_0;
        assert forall|i: int| 0 <= i < ks.len() implies spellable(#[trigger] ks[i], MAX_PEER_DEPTH - depth - 1) by {
            if i > 0 {
                assert(ks[i] == rest[i - 1]);
            }
        }
    }
}

/// Scanning over a balanced stretch `s[i..j]` leaves the nesting level, and so
/// the verdict and the closing paren found behind it, as they were.
proof fn scan_over_balanced(s: Seq<char>, i: int, j: int, p: int, level: int, open: int)
    requires
        0 <= i <= p <= j <= s.len(),
        level >= 0,
        open >= 0,
        paren_fault(s.subrange(i, j), p - i, level) is None,
    ensures
        paren_fault(s, p, open + level) == paren_fault(s, j, open),
        open >= 1 ==> close_of(s, p, open + level) == close_of(s, j, open),
    decreases j - p,
{
    let t = s.subrange(i, j);
    if p < j {
        assert(t[p - i] == s[p]);
        if s[p] == '(' {
            scan_over_balanced(s, i, j, p + 1, level + 1, open);
        } else if s[p] == ')' {
            scan_over_balanced(s, i, j, p + 1, level - 1, open);
        } else {
            scan_over_balanced(s, i, j, p + 1, level, open);
        }
    }
}

proof fn scan_over_plain(s: Seq<char>, i: int, j: int, open: int)
    requires
        0 <= i <= j <= s.len(),
        forall|p: int| i <= p < j ==> s[p] != '(' && s[p] != ')',
    ensures
        paren_fault(s, i, open) == paren_fault(s, j, open),
        next_open(s, i) == next_open(s, j),
    decreases j - i,
{
    if i < j {
        scan_over_plain(s, i + 1, j, open);
    }
}

proof fn last_at_found(s: Seq<char>, at: int, n: int)
    requires
        0 < at < n <= s.len(),
        s[at] == '@',
        forall|j: int| at < j < n ==> s[j] != '@',
    ensures
        last_at(s, n) == Some(at),
    decreases n,
{
    if n - 1 > at {
        last_at_found(s, at, n - 1);
    }
}

/// A key that the grammar can spell parses back from its canonical form:
/// `parse` undoes `canonical`.
pub proof fn parsed_canonical(k: KeyModel, depth: int)
    requires
        0 <= depth <= MAX_PEER_DEPTH,
        spellable(k, MAX_PEER_DEPTH - depth),
    ensures
        parse_key(canonical_text(k), depth) == Ok::<KeyModel, KeyFault>(k),
    decreases k, 1int,
{
    let s = canonical_text(k);
    let at = k.name.len() as int;
    let cut = at + 1 + k.version.len();
    let tail = groups_text(k.peers);
    assert forall|p: int| 0 <= p < cut implies s[p] != '(' && s[p] != ')' by {
        if p < at {
            assert(s[p] == k.name[p]);
        } else if p > at {
            assert(s[p] == k.version[p - at - 1]);
        }
    }
    assert(s[at] == '@');
    assert forall|p: int| at < p < cut implies s[p] != '@' by {
        assert(s[p] == k.version[p - at - 1]);
        assert(k.version.contains(k.version[p - at - 1]));
    }
    scan_over_plain(s, 0, cut, 0);
    last_at_found(s, at, cut);
    assert(s.subrange(cut, s.len() as int) =~= tail);
    parsed_groups(s, cut, k.peers, depth);
    if k.peers.len() == 0 {
        assert(tail =~= Seq::<char>::empty());
        assert(next_open(s, cut) == cut);
    } else {
        groups_text_front(k.peers[0], k.peers.drop_first());
        assert(k.peers =~= seq![k.peers[0]] + k.peers.drop_first());
        assert(s[cut] == tail[0]);
        assert(next_open(s, cut) == cut);
    }
    assert(s.subrange(0, at) =~= k.name);
    assert(s.subrange(at + 1, cut) =~= k.version);
}

proof fn parsed_groups(s: Seq<char>, from: int, peers: Seq<KeyModel>, depth: int)
    requires
        0 <= from <= s.len(),
        0 <= depth <= MAX_PEER_DEPTH,
        s.subrange(from, s.len() as int) == groups_text(peers),
        peers.len() > 0 ==> depth < MAX_PEER_DEPTH,
        forall|i: int|
            0 <= i < peers.len() ==> spellable(#[trigger] peers[i], MAX_PEER_DEPTH - depth - 1),
    ensures
        paren_fault(s, from, 0) is None,
        parse_groups(s, from, depth) == Ok::<Seq<KeyModel>, KeyFault>(peers),
    decreases peers, 0int,
{
    if peers.len() == 0 {
        assert(s.subrange(from, s.len() as int).len() == 0);
        assert(peers =~= Seq::<KeyModel>::empty());
    } else {
        let k = peers[0];
        let rest = peers.drop_first();
        assert(peers =~= seq![k] + rest);
        groups_text_front(k, rest);
        let inner = canonical_text(k);
        let tail = s.subrange(from, s.len() as int);
        let c = from + 1 + inner.len();
        assert(tail == seq!['('] + inner + seq![')'] + groups_text(rest));
        assert(s[from] == tail[0]);
        assert(s[c] == tail[c - from]);
        assert(s.subrange(from + 1, c) =~= inner) by {
            assert forall|i: int| 0 <= i < inner.len() implies s[from + 1 + i] == inner[i] by {
                assert(s[from + 1 + i] == tail[1 + i]);
            }
        }
        assert(s.subrange(c + 1, s.len() as int) =~= groups_text(rest)) by {
            assert forall|i: int| 0 <= i < groups_text(rest).len() implies s[c + 1 + i] == groups_text(rest)[i] by {
                assert(s[c + 1 + i] == tail[c + 1 - from + i]);
            }
        }
        assert(decreases_to!(peers => k));
        parsed_canonical(k, depth + 1);
        assert(paren_fault(inner, 0, 0) is None);
        scan_over_balanced(s, from + 1, c, from + 1, 0, 1);
        assert(close_of(s, from + 1, 1) == c);
        assert forall|i: int| 0 <= i < rest.len() implies spellable(#[trigger] rest[i], MAX_PEER_DEPTH - depth - 1) by {
            assert(rest[i] == peers[i + 1]);
        }
        parsed_groups(s, c + 1, rest, depth);
    }
}

/// How many of the first `n` characters are a `(` right behind a `)`.
pub open spec fn reopened(s: Seq<char>, n: int) -> int
    decreases n,
{
    if n <= 1 {
        0
    } else if s[n - 1] == '(' && s[n - 2] == ')' {
        reopened(s, n - 1) + 1
    } else {
        reopened(s, n - 1)
    }
}

/// A closing paren at the very end.
pub open spec fn closes_at_the_end(s: Seq<char>, j: int) -> bool {
    j == s.len() - 1 && s[j] == ')'
}

proof fn flattened_places(s: Seq<char>, i: int)
    requires
        0 <= i <= s.len(),
        0 < i < s.len() ==> !(s[i] == '(' && s[i - 1] == ')'),
    ensures
        flattened(s, i).len() == s.len() - i - (reopened(s, s.len() as int) - reopened(s, i)) - (
        if i < s.len() && closes_at_the_end(s, s.len() - 1) {
            1int
        } else {
            0int
        }),
        forall|j: int|
            i <= j < s.len() && !closes_at_the_end(s, j) ==> {
                let p = j - i - (#[trigger] reopened(s, j + 1) - reopened(s, i));
                &&& 0 <= p < flattened(s, i).len()
                &&& flattened(s, i)[p] == if s[j] == '(' || s[j] == ')' {
                    '_'
                } else {
                    s[j]
                }
            },
    decreases s.len() - i,
{
    let all = flattened(s, i);
    if i < s.len() && !closes_at_the_end(s, i) {
        assert(reopened(s, i + 1) == reopened(s, i));
        let step = if s[i] == ')' && s[i + 1] == '(' { 2int } else { 1int };
        if step == 2 {
            assert(reopened(s, i + 2) == reopened(s, i) + 1);
        }
        let rest = flattened(s, i + step);
        flattened_places(s, i + step);
        assert(all.len() == rest.len() + 1);
        assert forall|j: int| i <= j < s.len() && !closes_at_the_end(s, j) implies {
            let p = j - i - (#[trigger] reopened(s, j + 1) - reopened(s, i));
            &&& 0 <= p < all.len()
            &&& all[p] == if s[j] == '(' || s[j] == ')' {
                '_'
            } else {
                s[j]
            }
        } by {
            let p = j - i - (reopened(s, j + 1) - reopened(s, i));
            if j < i + step {
                assert(p == 0);
            } else {
                let q = j - (i + step) - (reopened(s, j + 1) - reopened(s, i + step));
                assert(p == q + 1);
                assert(all[p] == rest[q]);
            }
        }
    }
}

proof fn plussed_reopens(s: Seq<char>, n: int)
    requires
        n <= s.len(),
    ensures
        reopened(plussed(s), n) == reopened(s, n),
    decreases n,
{
    if n > 1 {
        plussed_reopens(s, n - 1);
    }
}

/// The characters that a directory name cannot hold.
pub open spec fn unfit_for_names() -> Seq<char> {
    seq!['\\', '/', ':', '*', '?', '"', '<', '>', '|', '#']
}

proof fn unfit_are_replaced(c: char)
    ensures
        unfit_for_names().contains(c) <==> replaced_in_names(c),
{
    let list = unfit_for_names();
    assert(list[0] == '\\' && list[1] == '/' && list[2] == ':' && list[3] == '*' && list[4] == '?'
        && list[5] == '"' && list[6] == '<' && list[7] == '>' && list[8] == '|' && list[9] == '#');
}

/// What stands where in the name of a key, before it is shortened. Every character keeps
/// its place but for the pairs `)(` before it, each of which counts once. There a character
/// that is unfit for names stands as `+` and any other as itself. In a key that opens a
/// paren, every paren stands as `_`, but one that closes at the very end, which is dropped;
/// a key that opens none keeps its length.
pub proof fn every_character_has_its_place(key: Seq<char>, j: int)
    requires
        0 <= j < key.len(),
    ensures
        key.contains('(') ==> long_name(key).len() == key.len() - reopened(key, key.len() as int) - (
        if key.last() == ')' {
            1int
        } else {
            0int
        }),
        key.contains('(') && !closes_at_the_end(key, j) ==> {
            let p = j - reopened(key, j + 1);
            &&& 0 <= p < long_name(key).len()
            &&& key[j] == '(' || key[j] == ')' ==> long_name(key)[p] == '_'
            &&& unfit_for_names().contains(key[j]) ==> long_name(key)[p] == '+'
            &&& key[j] != '(' && key[j] != ')' && !unfit_for_names().contains(key[j])
                ==> long_name(key)[p] == key[j]
        },
        !key.contains('(') ==> long_name(key).len() == key.len(),
        !key.contains('(') && unfit_for_names().contains(key[j]) ==> long_name(key)[j] == '+',
        !key.contains('(') && !unfit_for_names().contains(key[j]) ==> long_name(key)[j] == key[j],
{
    let p = plussed(key);
    unfit_are_replaced(key[j]);
    plussed_keeps_open(key);
    plussed_reopens(key, j + 1);
    plussed_reopens(key, key.len() as int);
    flattened_places(p, 0);
    assert(p.last() == p[key.len() - 1]);
}

proof fn plussed_keeps_open(key: Seq<char>)
    ensures
        plussed(key).contains('(') <==> key.contains('('),
{
    let p = plussed(key);
    if key.contains('(') {
        assert(p[key.index_of('(')] == '(');
    }
    if p.contains('(') {
        assert(key[p.index_of('(')] == '(');
    }
}

/// A name is kept as it is where it has at most 120 characters and no upper-case ASCII
/// letter, or starts with `file+`. Any other is cut to 87 characters, with `_` and the
/// digest of the whole in 32 digits behind it.
pub proof fn only_unsafe_names_are_shortened(key: Seq<char>)
    ensures
        ({
            let name = long_name(key);
            let cased = exists|i: int| 0 <= i < name.len() && 'A' <= #[trigger] name[i] <= 'Z';
            let kept = if name.len() < 87 { name.len() as int } else { 87 };
            let digest = sha256(vstd::utf8::encode_utf8(name));
            let r = target_text(key);
            &&& name.len() <= 120 && (!cased || "file+"@.is_prefix_of(name)) ==> r == name
            &&& name.len() > 120 || (cased && !"file+"@.is_prefix_of(name)) ==> {
                &&& r.len() == kept + 33
                &&& r.take(kept) == name.take(kept)
                &&& r[kept] == '_'
                &&& r.skip(kept + 1) == hex_text(Seq::new(16, |i: int| digest[i]))
            }
        }),
{
    let name = long_name(key);
    let digest = sha256(vstd::utf8::encode_utf8(name));
    let kept = if name.len() < 87 { name.len() as int } else { 87 };
    let r = target_text(key);
    if needs_hash(name) {
        assert(r.take(kept) =~= name.take(kept));
        assert(r.skip(kept + 1) =~= short_hash(digest));
    }
}

proof fn reopened_grows(s: Seq<char>, t: Seq<char>, n: int)
    requires
        n <= s.len(),
        n <= t.len(),
        forall|i: int| 0 <= i < n ==> s[i] == t[i],
    ensures
        reopened(s, n) == reopened(t, n),
    decreases n,
{
    if n > 1 {
        reopened_grows(s, t, n - 1);
    }
}

/// It tells in the name where a nested group closes: two keys that agree up to a closing
/// paren, of which one then closes another group before it opens the next and the other
/// does not, have different names.
pub proof fn where_a_group_closes_tells(
    head: Seq<char>,
    c: char,
    a: Seq<char>,
    b: Seq<char>,
)
    requires
        head.len() > 0,
        head.last() == ')',
        c != '(' && c != ')' && c != '_',
    ensures
        long_name(head + seq![')', '(', c] + a) != long_name(head + seq!['(', c] + b),
{
    let x = head + seq![')', '(', c] + a;
    let y = head + seq!['(', c] + b;
    let n = head.len() as int;
    assert(x[n + 1] == '(' && y[n] == '(');
    assert(x.contains('(') && y.contains('('));
    reopened_grows(x, y, n);
    assert(x[n] == ')' && x[n + 2] == c);
    assert(y[n + 1] == c);
    assert(x[n - 1] == ')' && y[n - 1] == ')');
    assert(reopened(x, n + 1) == reopened(x, n));
    assert(reopened(x, n + 2) == reopened(x, n) + 1);
    assert(reopened(y, n + 1) == reopened(y, n) + 1);
    assert(reopened(y, n + 2) == reopened(y, n) + 1);
    every_character_has_its_place(x, n + 1);
    every_character_has_its_place(y, n + 1);
}

/// How many parens are open before the place `i`.
pub open spec fn level(s: Seq<char>, i: int) -> int
    decreases i,
{
    if i <= 0 {
        0
    } else {
        level(s, i - 1) + if s[i - 1] == '(' {
            1int
        } else if s[i - 1] == ')' {
            -1int
        } else {
            0int
        }
    }
}

proof fn paren_fault_is(s: Seq<char>, i: int)
    requires
        0 <= i <= s.len(),
        forall|j: int| 0 <= j <= i ==> #[trigger] level(s, j) >= 0,
    ensures
        match paren_fault(s, i, level(s, i)) {
            None => level(s, s.len() as int) == 0 && forall|j: int|
                0 <= j <= s.len() ==> #[trigger] level(s, j) >= 0,
            Some(f) => {
                &&& i <= f.at <= s.len()
                &&& f.at < s.len() ==> s[f.at] == ')' && level(s, f.at) == 0
                &&& f.at == s.len() ==> level(s, s.len() as int) > 0
                &&& forall|j: int| 0 <= j <= f.at ==> #[trigger] level(s, j) >= 0
            },
        },
    decreases s.len() - i,
{
    if i < s.len() && !(s[i] == ')' && level(s, i) == 0) {
        assert(level(s, i + 1) >= 0);
        paren_fault_is(s, i + 1);
    }
}

/// A key whose parens do not pair up is refused at the first one that closes nothing, or
/// at its end where one is left open.
pub proof fn unpaired_parens_are_refused(s: Seq<char>, depth: int)
    ensures
        (exists|j: int| 0 <= j <= s.len() && #[trigger] level(s, j) < 0) || level(
            s,
            s.len() as int,
        ) != 0 ==> parse_key(s, depth) is Err && {
            let at = parse_key(s, depth)->Err_0.at;
            &&& 0 <= at <= s.len()
            &&& at < s.len() ==> s[at] == ')' && level(s, at) == 0
            &&& at == s.len() ==> level(s, s.len() as int) > 0
            &&& forall|j: int| 0 <= j <= at ==> #[trigger] level(s, j) >= 0
        },
{
    assert(level(s, 0) == 0);
    paren_fault_is(s, 0);
    if paren_fault(s, 0, 0) is Some {
        let f = paren_fault(s, 0, 0)->Some_0;
        assert(parse_key(s, depth) == Err::<KeyModel, KeyFault>(f));
    }
}

/// A key with its parens paired up is refused outright where no `@` stands behind its
/// first character and before its peers, and behind the last such `@` where no version
/// follows.
pub proof fn a_key_needs_a_name_and_a_version(s: Seq<char>, depth: int)
    requires
        forall|j: int| 0 <= j <= s.len() ==> #[trigger] level(s, j) >= 0,
        level(s, s.len() as int) == 0,
    ensures
        ({
            let cut = next_open(s, 0);
            let named = exists|j: int| 0 < j < cut && #[trigger] s[j] == '@';
            &&& !named ==> parse_key(s, depth) is Err && parse_key(s, depth)->Err_0.at == 0
            &&& named && s[cut - 1] == '@' ==> parse_key(s, depth) is Err && parse_key(
                s,
                depth,
            )->Err_0.at == cut
            &&& named && s[cut - 1] != '@' && cut == s.len() ==> parse_key(s, depth) is Ok
        }),
{
    assert(level(s, 0) == 0);
    paren_fault_is(s, 0);
    assert(paren_fault(s, 0, 0) is None) by {
        if let Some(f) = paren_fault(s, 0, 0) {
            if f.at < s.len() {
                assert(level(s, f.at + 1) < 0);
            }
        }
    }
    let cut = next_open(s, 0);
    next_open_skips(s, 0);
    last_at_splits(s, cut);
    if let Some(at) = last_at(s, cut) {
        assert(s[at] == '@');
    }
}

} // verus!
