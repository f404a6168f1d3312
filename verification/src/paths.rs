//! Paths as text, with `/` between their components.

use vstd::prelude::*;

use crate::text::{chars_of, join, join_with, same, split, split_joined, split_on, split_plain};

verus! {

/// A path component that names a directory entry.
pub open spec fn is_entry(c: Seq<char>) -> bool {
    c.len() > 0 && c != seq!['.'] && c != seq!['.', '.']
}

/// A path all of whose components name directory entries.
pub open spec fn is_plain_path(p: Seq<char>) -> bool {
    forall|i: int| 0 <= i < split_on(p, '/').len() ==> is_entry(#[trigger] split_on(p, '/')[i])
}

/// Where one ends up from a directory by following path components, if that does
/// not climb above the root.
pub open spec fn follow(dir: Seq<Seq<char>>, components: Seq<Seq<char>>) -> Option<Seq<Seq<char>>>
    decreases components.len(),
{
    if components.len() == 0 {
        Some(dir)
    } else {
        match follow(dir, components.drop_last()) {
            None => None,
            Some(at) => {
                let c = components.last();
                if c.len() == 0 || c == seq!['.'] {
                    Some(at)
                } else if c == seq!['.', '.'] {
                    if at.len() == 0 {
                        None
                    } else {
                        Some(at.drop_last())
                    }
                } else {
                    Some(at.push(c))
                }
            },
        }
    }
}

/// Following two lists of components is following one after the other.
pub proof fn follow_concat(dir: Seq<Seq<char>>, a: Seq<Seq<char>>, b: Seq<Seq<char>>)
    ensures
        follow(dir, a + b) == match follow(dir, a) {
            None => None,
            Some(at) => follow(at, b),
        },
    decreases b.len(),
{
    if b.len() == 0 {
        assert(a + b =~= a);
    } else {
        assert((a + b).drop_last() =~= a + b.drop_last());
        follow_concat(dir, a, b.drop_last());
    }
}

/// Following components that name entries descends by them.
pub proof fn follow_plain(dir: Seq<Seq<char>>, comps: Seq<Seq<char>>)
    requires
        forall|i: int| 0 <= i < comps.len() ==> is_entry(#[trigger] comps[i]),
    ensures
        follow(dir, comps) == Some(dir + comps),
    decreases comps.len(),
{
    if comps.len() == 0 {
        assert(dir + comps =~= dir);
    } else {
        let front = comps.drop_last();
        assert forall|i: int| 0 <= i < front.len() implies is_entry(#[trigger] front[i]) by {
            assert(front[i] == comps[i]);
        }
        follow_plain(dir, front);
        assert(is_entry(comps[comps.len() - 1]));
        assert((dir + front).push(comps.last()) =~= dir + comps);
    }
}

/// `n` steps up.
pub open spec fn ups(n: nat) -> Seq<Seq<char>> {
    Seq::new(n, |i: int| seq!['.', '.'])
}

/// Climbing `n` times leaves out the last `n` entries.
pub proof fn follow_up(dir: Seq<Seq<char>>, n: nat)
    requires
        n <= dir.len(),
    ensures
        follow(dir, ups(n)) == Some(dir.take(dir.len() - n)),
    decreases n,
{
    if n == 0 {
        assert(dir.take(dir.len() as int) =~= dir);
    } else {
        let m = (n - 1) as nat;
        assert(ups(n).drop_last() =~= ups(m));
        follow_up(dir, m);
        assert(dir.take(dir.len() - m).drop_last() =~= dir.take(dir.len() - n));
    }
}

/// Whether all components of a path name directory entries.
pub fn plain_path(p: &str) -> (r: bool)
    ensures
        r == is_plain_path(p@),
{
    let parts = split(p, '/');
    let ghost ps = split_on(p@, '/');
    proof {
        reveal_strlit(".");
        reveal_strlit("..");
        assert("."@ =~= seq!['.']);
        assert(".."@ =~= seq!['.', '.']);
    }
    let mut i: usize = 0;
    while i < parts.len()
        invariant
            ps == parts.deep_view(),
            ps == split_on(p@, '/'),
            "."@ == seq!['.'],
            ".."@ == seq!['.', '.'],
            i <= ps.len(),
            forall|k: int| 0 <= k < i ==> is_entry(#[trigger] ps[k]),
        decreases ps.len() - i,
    {
        let part = parts[i].as_str();
        assert(ps[i as int] == part@);
        if part.is_empty() || same(part, ".") || same(part, "..") {
            assert(!is_entry(split_on(p@, '/')[i as int]));
            return false;
        }
        i += 1;
    }
    true
}

/// A package-relative path without its `.` and `..` components, unless it is
/// empty or leads out of the package.
pub open spec fn contained_text(rel: Seq<char>) -> Option<Seq<char>> {
    match follow(Seq::empty(), split_on(rel, '/')) {
        Some(parts) => if parts.len() > 0 {
            Some(join_with(parts, seq!['/']))
        } else {
            None
        },
        None => None,
    }
}

/// Normalize a package-relative path, returning `None` when it escapes the
/// package root or comes to nothing.
///
/// A leading `/` is not an escape: the path is joined onto the package.
pub fn contained_path(rel: &str) -> (r: Option<String>)
    ensures
        match r {
            Some(p) => contained_text(rel@) == Some(p@),
            None => contained_text(rel@) is None,
        },
{
    let parts = split(rel, '/');
    let ghost ps = split_on(rel@, '/');
    let mut out: Vec<String> = Vec::new();
    let mut i: usize = 0;
    assert(ps.take(0) =~= Seq::<Seq<char>>::empty());
    assert(out.deep_view() =~= Seq::<Seq<char>>::empty());
    proof {
        reveal_strlit(".");
        reveal_strlit("..");
        assert("."@ =~= seq!['.']);
        assert(".."@ =~= seq!['.', '.']);
    }
    while i < parts.len()
        invariant
            ps == parts.deep_view(),
            ps == split_on(rel@, '/'),
            "."@ == seq!['.'],
            ".."@ == seq!['.', '.'],
            i <= ps.len(),
            follow(Seq::empty(), ps.take(i as int)) == Some(out.deep_view()),
        decreases ps.len() - i,
    {
        let part = parts[i].as_str();
        let ghost at = out.deep_view();
        proof {
            assert(ps[i as int] == part@);
            assert(ps.take(i + 1).drop_last() =~= ps.take(i as int));
        }
        if part.is_empty() || same(part, ".") {
        } else if same(part, "..") {
            if out.len() == 0 {
                proof {
                    assert(at =~= Seq::<Seq<char>>::empty());
                    follow_fails(ps, i as int);
                }
                return None;
            }
            let _ = out.pop();
            assert(out.deep_view() =~= at.drop_last());
        } else {
            out.push(part.to_owned());
            assert(out.deep_view() =~= at.push(part@));
        }
        i += 1;
    }
    assert(ps.take(i as int) =~= ps);
    if out.len() == 0 {
        return None;
    }
    proof {
        reveal_strlit("/");
        assert("/"@ =~= seq!['/']);
    }
    Some(join(&out, "/"))
}

proof fn follow_fails(ps: Seq<Seq<char>>, i: int)
    requires
        0 <= i < ps.len(),
        follow(Seq::empty(), ps.take(i)) == Some(Seq::<Seq<char>>::empty()),
        ps[i] == seq!['.', '.'],
    ensures
        follow(Seq::empty(), ps) is None,
{
    let head = ps.take(i + 1);
    assert(head.drop_last() =~= ps.take(i));
    assert(head.last() == ps[i]);
    assert(ps =~= head + ps.skip(i + 1));
    follow_concat(Seq::empty(), head, ps.skip(i + 1));
}

/// Where one ends up is made of the components that name entries.
proof fn followed_are_entries(comps: Seq<Seq<char>>, c: Seq<char>)
    requires
        follow(Seq::empty(), comps) is Some,
        follow(Seq::empty(), comps)->Some_0.contains(c),
    ensures
        is_entry(c),
        comps.contains(c),
    decreases comps.len(),
{
    let none = Seq::<Seq<char>>::empty();
    if comps.len() > 0 {
        let front = comps.drop_last();
        let at = follow(none, front)->Some_0;
        let now = follow(none, comps)->Some_0;
        let i = now.index_of(c);
        if i < at.len() && now[i] == at[i] {
            assert(at.contains(c));
            followed_are_entries(front, c);
            let j = front.index_of(c);
            assert(comps[j] == c);
        } else {
            assert(c == comps.last());
            assert(comps[comps.len() - 1] == c);
        }
    }
}

/// A piece of a split text does not hold the separator.
pub proof fn pieces_hold_no_separator(s: Seq<char>, sep: char, i: int)
    requires
        0 <= i < split_on(s, sep).len(),
    ensures
        !split_on(s, sep)[i].contains(sep),
    decreases s.len(),
{
    let parts = split_on(s, sep);
    if s.len() > 0 {
        let before = split_on(s.drop_last(), sep);
        crate::text::split_not_empty(s.drop_last(), sep);
        if i < before.len() - 1 {
            assert(parts[i] == before[i]);
            pieces_hold_no_separator(s.drop_last(), sep, i);
        } else if s.last() == sep {
            if i == before.len() - 1 {
                assert(parts[i] == before[i]);
                pieces_hold_no_separator(s.drop_last(), sep, i);
            }
        } else {
            pieces_hold_no_separator(s.drop_last(), sep, i);
            if parts[i].contains(sep) {
                let k = parts[i].index_of(sep);
                if k < before[i].len() {
                    assert(before[i][k] == sep);
                }
            }
        }
    }
}

proof fn split_of_joined(parts: Seq<Seq<char>>, sep: char)
    requires
        parts.len() > 0,
        forall|i: int| 0 <= i < parts.len() ==> !(#[trigger] parts[i]).contains(sep),
    ensures
        split_on(join_with(parts, seq![sep]), sep) == parts,
    decreases parts.len(),
{
    if parts.len() == 1 {
        split_plain(parts[0], sep);
        assert(seq![parts[0]] =~= parts);
    } else {
        let front = parts.drop_last();
        assert forall|i: int| 0 <= i < front.len() implies !(#[trigger] front[i]).contains(sep) by {
            assert(front[i] == parts[i]);
        }
        split_of_joined(front, sep);
        assert(!parts[parts.len() - 1].contains(sep));
        split_plain(parts.last(), sep);
        split_joined(join_with(front, seq![sep]), parts.last(), sep);
        assert(front + seq![parts.last()] =~= parts);
    }
}

/// A contained path never leaves the package: it has no empty, `.` or `..`
/// component left.
pub proof fn contained_is_plain(rel: Seq<char>)
    requires
        contained_text(rel) is Some,
    ensures
        is_plain_path(contained_text(rel)->Some_0),
{
    let comps = split_on(rel, '/');
    let parts = follow(Seq::empty(), comps)->Some_0;
    assert forall|i: int| 0 <= i < parts.len() implies !(#[trigger] parts[i]).contains('/') && is_entry(parts[i]) by {
        assert(parts.contains(parts[i]));
        followed_are_entries(comps, parts[i]);
        let j = comps.index_of(parts[i]);
        pieces_hold_no_separator(rel, '/', j);
    }
    split_of_joined(parts, '/');
}

/// A relative path below a directory.
pub open spec fn joined(dir: Seq<char>, rel: Seq<char>) -> Seq<char> {
    if dir.len() == 0 {
        rel
    } else if dir.last() == '/' {
        dir + rel
    } else {
        dir + seq!['/'] + rel
    }
}

/// Puts a relative path below a directory.
pub fn join_path(dir: &str, rel: &str) -> (r: String)
    ensures
        r@ == joined(dir@, rel@),
{
    let chars = chars_of(dir);
    let mut out = dir.to_owned();
    if chars.len() > 0 && chars[chars.len() - 1] != '/' {
        out.push('/');
    }
    out.append(rel);
    assert(out@ =~= joined(dir@, rel@));
    out
}

/// `s` with `/` in place of `\`.
pub open spec fn slashed(s: Seq<char>) -> Seq<char> {
    Seq::new(
        s.len(),
        |i: int|
            if s[i] == '\\' {
                '/'
            } else {
                s[i]
            },
    )
}

/// Writes a path with `/` in place of `\`.
pub fn slash_path(path: &str) -> (r: String)
    ensures
        r@ == slashed(path@),
{
    let chars = chars_of(path);
    let mut out = String::new();
    let mut i: usize = 0;
    while i < chars.len()
        invariant
            chars@ == path@,
            i <= chars.len(),
            out@ == slashed(path@).take(i as int),
        decreases chars.len() - i,
    {
        if chars[i] == '\\' {
            out.push('/');
        } else {
            out.push(chars[i]);
        }
        i += 1;
        assert(slashed(path@).take(i as int) =~= slashed(path@).take(i - 1).push(slashed(path@)[i - 1]));
    }
    assert(slashed(path@).take(i as int) =~= slashed(path@));
    out
}

/// An absolute path all of whose components name directory entries, spelled without
/// a character that separates components or names a drive on some systems only.
pub open spec fn is_rooted(p: Seq<char>) -> bool {
    &&& p.len() > 0
    &&& p[0] == '/'
    &&& p.len() == 1 || is_plain_path(p.skip(1))
    &&& !p.contains('\\')
    &&& !p.contains(':')
}

/// The entries that an absolute path leads through.
pub open spec fn steps(p: Seq<char>) -> Seq<Seq<char>> {
    if p.len() <= 1 {
        Seq::empty()
    } else {
        split_on(p.skip(1), '/')
    }
}

/// How many steps two ways have in common before they part.
pub open spec fn shared(a: Seq<Seq<char>>, b: Seq<Seq<char>>) -> nat
    decreases a.len(),
{
    if a.len() == 0 || b.len() == 0 || a[0] != b[0] {
        0
    } else {
        1 + shared(a.skip(1), b.skip(1))
    }
}

/// The way from one directory to another place: up to where the two ways part, then
/// down.
pub open spec fn way(from: Seq<Seq<char>>, to: Seq<Seq<char>>) -> Seq<Seq<char>> {
    let k = shared(from, to);
    ups((from.len() - k) as nat) + to.skip(k as int)
}

/// The relative path that leads from `base` to `path`.
pub open spec fn relative(path: Seq<char>, base: Seq<char>) -> Seq<char> {
    join_with(way(steps(base), steps(path)), "/"@)
}

/// `pathdiff::diff_paths`: the relative path that leads from `base` to `path`. Of two
/// absolute paths of plain components it climbs from `base` to where they part and
/// descends from there, with the system's separator. Nothing is said of other paths:
/// how they fall into components depends on the system.
#[verifier::external_body]
pub(crate) fn diff_paths(path: &str, base: &str) -> (r: Option<String>)
    ensures
        is_rooted(path@) && is_rooted(base@) ==> r is Some && slashed(r->Some_0@) == relative(
            path@,
            base@,
        ),
{
    match pathdiff::diff_paths(path, base) {
        Some(p) => Some(p.to_string_lossy().into_owned()),
        None => None,
    }
}

proof fn shared_is_common(a: Seq<Seq<char>>, b: Seq<Seq<char>>)
    ensures
        shared(a, b) <= a.len(),
        shared(a, b) <= b.len(),
        a.take(shared(a, b) as int) == b.take(shared(a, b) as int),
    decreases a.len(),
{
    let k = shared(a, b) as int;
    if a.len() == 0 || b.len() == 0 || a[0] != b[0] {
        assert(a.take(0) =~= b.take(0));
    } else {
        shared_is_common(a.skip(1), b.skip(1));
        let rest = a.skip(1).take(k - 1);
        assert(a.take(k) =~= seq![a[0]] + rest);
        assert(b.take(k) =~= seq![b[0]] + b.skip(1).take(k - 1));
    }
}

/// The way from one directory to another place leads there.
pub proof fn the_way_leads_there(from: Seq<Seq<char>>, to: Seq<Seq<char>>)
    requires
        forall|i: int| 0 <= i < to.len() ==> is_entry(#[trigger] to[i]),
    ensures
        follow(from, way(from, to)) == Some(to),
{
    let k = shared(from, to) as int;
    let up = (from.len() - k) as nat;
    shared_is_common(from, to);
    follow_up(from, up);
    follow_concat(from, ups(up), to.skip(k));
    assert forall|i: int| 0 <= i < to.skip(k).len() implies is_entry(#[trigger] to.skip(k)[i]) by {
        assert(is_entry(to[i + k]));
    }
    follow_plain(from.take(k), to.skip(k));
    assert(from.take(k) + to.skip(k) =~= to);
}

/// A plain path is contained as it is.
pub proof fn plain_paths_are_contained(p: Seq<char>)
    requires
        is_plain_path(p),
    ensures
        contained_text(p) == Some(p),
{
    let comps = split_on(p, '/');
    crate::text::split_not_empty(p, '/');
    follow_plain(Seq::empty(), comps);
    assert(Seq::<Seq<char>>::empty() + comps =~= comps);
    crate::text::join_split(p, '/');
}

/// In front of a plain path `./` counts for nothing, and `../` leads out.
pub proof fn dots_count_for_what_they_mean(p: Seq<char>)
    requires
        is_plain_path(p),
    ensures
        contained_text(seq!['.', '/'] + p) == Some(p),
        contained_text(seq!['/'] + p) == Some(p),
        contained_text(seq!['.', '.', '/'] + p) is None,
{
    let comps = split_on(p, '/');
    let none = Seq::<Seq<char>>::empty();
    let dot = seq!['.'];
    let dots = seq!['.', '.'];
    let nothing = Seq::<char>::empty();
    crate::text::split_not_empty(p, '/');
    follow_plain(none, comps);
    assert(none + comps =~= comps);
    crate::text::join_split(p, '/');
    split_plain(dot, '/');
    split_plain(dots, '/');
    split_plain(nothing, '/');
    split_joined(dot, p, '/');
    split_joined(dots, p, '/');
    split_joined(nothing, p, '/');
    assert(dot + seq!['/'] + p =~= seq!['.', '/'] + p);
    assert(dots + seq!['/'] + p =~= seq!['.', '.', '/'] + p);
    assert(nothing + seq!['/'] + p =~= seq!['/'] + p);
    follow_concat(none, seq![dot], comps);
    follow_concat(none, seq![dots], comps);
    follow_concat(none, seq![nothing], comps);
    assert((seq![dot]).drop_last() =~= none);
    assert((seq![dots]).drop_last() =~= none);
    assert((seq![nothing]).drop_last() =~= none);
    reveal_with_fuel(follow, 2);
}

/// A path is written with `/` wherever it has a backslash, and otherwise as it is.
pub proof fn backslashes_become_slashes(s: Seq<char>, i: int)
    requires
        0 <= i < s.len(),
    ensures
        slashed(s).len() == s.len(),
        s[i] == '\\' ==> slashed(s)[i] == '/',
        s[i] != '\\' ==> slashed(s)[i] == s[i],
{
}

/// A path below a directory is the directory, one `/` and the path; below no directory it
/// is itself.
pub proof fn a_path_stands_below_its_directory(dir: Seq<char>, rel: Seq<char>)
    ensures
        joined(Seq::empty(), rel) == rel,
        dir.len() > 0 && dir.last() != '/' ==> joined(dir, rel) == dir + seq!['/'] + rel,
        joined(dir + seq!['/'], rel) == dir + seq!['/'] + rel,
{
}

} // verus!
