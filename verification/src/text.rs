//! Text as a sequence of characters: its order, and the primitives that read
//! and build it.

use vstd::prelude::*;

verus! {

/// `String::push` appends one character.
pub assume_specification[ String::push ](s: &mut String, c: char)
    ensures
        final(s)@ == old(s)@.push(c),
;

/// How one text stands to another.
#[derive(Debug, Clone, Copy, PartialEq, Eq, Structural)]
pub enum Rank {
    Before,
    Same,
    After,
}

/// `a` comes strictly before `b`: character by character, a proper prefix first.
pub open spec fn text_lt(a: Seq<char>, b: Seq<char>) -> bool
    decreases a.len(),
{
    if b.len() == 0 {
        false
    } else if a.len() == 0 {
        true
    } else if a[0] != b[0] {
        a[0] < b[0]
    } else {
        text_lt(a.drop_first(), b.drop_first())
    }
}

/// No text comes before itself.
pub proof fn text_lt_irreflexive(a: Seq<char>)
    ensures
        !text_lt(a, a),
    decreases a.len(),
{
    if a.len() > 0 {
        text_lt_irreflexive(a.drop_first());
    }
}

/// The order is transitive.
pub proof fn text_lt_transitive(a: Seq<char>, b: Seq<char>, c: Seq<char>)
    requires
        text_lt(a, b),
        text_lt(b, c),
    ensures
        text_lt(a, c),
    decreases a.len(),
{
    if a.len() > 0 && a[0] == b[0] && b[0] == c[0] {
        text_lt_transitive(a.drop_first(), b.drop_first(), c.drop_first());
    }
}

/// Two texts that differ are ordered one way or the other.
pub proof fn text_lt_total(a: Seq<char>, b: Seq<char>)
    ensures
        a == b || text_lt(a, b) || text_lt(b, a),
    decreases a.len(),
{
    if a.len() == 0 && b.len() == 0 {
        assert(a =~= b);
    } else if a.len() > 0 && b.len() > 0 && a[0] == b[0] {
        text_lt_total(a.drop_first(), b.drop_first());
        if a.drop_first() == b.drop_first() {
            assert(a =~= seq![a[0]] + a.drop_first());
            assert(b =~= seq![b[0]] + b.drop_first());
        }
    }
}

/// Compares two texts.
pub fn rank(a: &str, b: &str) -> (r: Rank)
    ensures
        r is Same <==> a@ == b@,
        r is Before <==> text_lt(a@, b@),
        r is After <==> text_lt(b@, a@),
{
    let mut x = a.chars();
    let mut y = b.chars();
    let ghost mut i: int = 0;
    proof {
        assert(a@.skip(0) =~= a@);
        assert(b@.skip(0) =~= b@);
        text_lt_total(a@, b@);
        text_lt_irreflexive(a@);
        if text_lt(a@, b@) && text_lt(b@, a@) {
            text_lt_transitive(a@, b@, a@);
        }
    }
    loop
        invariant
            0 <= i <= a@.len(),
            i <= b@.len(),
            vstd::std_specs::iter::IteratorSpec::remaining(&x) == a@.skip(i),
            vstd::std_specs::iter::IteratorSpec::remaining(&y) == b@.skip(i),
            a@.take(i) == b@.take(i),
            text_lt(a@, b@) == text_lt(a@.skip(i), b@.skip(i)),
            text_lt(b@, a@) == text_lt(b@.skip(i), a@.skip(i)),
            a@ == b@ || text_lt(a@, b@) || text_lt(b@, a@),
            a@ == b@ ==> !text_lt(a@, b@) && !text_lt(b@, a@),
            !(text_lt(a@, b@) && text_lt(b@, a@)),
        decreases a@.len() - i,
    {
        let p = x.next();
        let q = y.next();
        match (p, q) {
            (None, None) => {
                proof {
                    assert(a@.take(i) =~= a@);
                    assert(b@.take(i) =~= b@);
                }
                return Rank::Same;
            },
            (None, Some(_)) => {
                return Rank::Before;
            },
            (Some(_), None) => {
                return Rank::After;
            },
            (Some(c), Some(d)) => {
                if c < d {
                    return Rank::Before;
                }
                if d < c {
                    return Rank::After;
                }
                proof {
                    assert(a@.skip(i).drop_first() =~= a@.skip(i + 1));
                    assert(b@.skip(i).drop_first() =~= b@.skip(i + 1));
                    assert(a@.take(i + 1) =~= a@.take(i).push(c));
                    assert(b@.take(i + 1) =~= b@.take(i).push(d));
                    i = i + 1;
                }
            },
        }
    }
}

/// How many bytes the UTF-8 form of `s` takes.
pub open spec fn byte_len(s: Seq<char>) -> nat {
    vstd::utf8::encode_utf8(s).len()
}

/// The byte lengths of two texts put together add up.
pub proof fn byte_len_concat(a: Seq<char>, b: Seq<char>)
    ensures
        byte_len(a + b) == byte_len(a) + byte_len(b),
    decreases a.len(),
{
    if a.len() == 0 {
        assert(a + b =~= b);
    } else {
        assert((a + b).drop_first() =~= a.drop_first() + b);
        byte_len_concat(a.drop_first(), b);
    }
}

/// The byte length of a prefix is at most that of the whole.
pub proof fn byte_len_prefix(s: Seq<char>, i: int)
    requires
        0 <= i <= s.len(),
    ensures
        byte_len(s.take(i)) <= byte_len(s),
{
    assert(s =~= s.take(i) + s.skip(i));
    byte_len_concat(s.take(i), s.skip(i));
}

/// How many bytes the UTF-8 form of one character takes.
pub fn char_width(c: char) -> (r: usize)
    ensures
        r == byte_len(seq![c]),
{
    let v: u32 = c as u32;
    proof {
        assert(seq![c].drop_first() =~= Seq::<char>::empty());
        assert(vstd::utf8::encode_utf8(Seq::<char>::empty()).len() == 0);
        vstd::utf8::char_is_scalar(c);
    }
    if v <= 0x7f {
        1
    } else if v <= 0x7ff {
        2
    } else if v <= 0xffff {
        3
    } else {
        4
    }
}

/// For each index into the text, and for its end, the byte at which it stands.
pub fn byte_offsets(s: &str, chars: &Vec<char>) -> (r: Vec<usize>)
    requires
        chars@ == s@,
    ensures
        r.len() == chars.len() + 1,
        forall|i: int| 0 <= i <= chars.len() ==> #[trigger] r@[i] == byte_len(s@.take(i)),
{
    let total: usize = s.as_bytes().len();
    let mut r: Vec<usize> = Vec::new();
    let mut at: usize = 0;
    proof {
        assert(s@.take(0) =~= Seq::<char>::empty());
    }
    r.push(at);
    let mut i: usize = 0;
    while i < chars.len()
        invariant
            chars@ == s@,
            i <= chars.len(),
            r.len() == i + 1,
            total == byte_len(s@),
            at == byte_len(s@.take(i as int)),
            forall|k: int| 0 <= k <= i ==> #[trigger] r@[k] == byte_len(s@.take(k)),
        decreases chars.len() - i,
    {
        let w: usize = char_width(chars[i]);
        proof {
            assert(s@.take(i + 1) =~= s@.take(i as int) + seq![chars@[i as int]]);
            byte_len_concat(s@.take(i as int), seq![chars@[i as int]]);
            byte_len_prefix(s@, i + 1);
        }
        at += w;
        r.push(at);
        i += 1;
    }
    r
}

/// Whether two texts are the same.
pub fn same(a: &str, b: &str) -> (r: bool)
    ensures
        r == (a@ == b@),
{
    match rank(a, b) {
        Rank::Same => true,
        _ => false,
    }
}

/// Whether one text comes strictly before another.
pub fn precedes(a: &str, b: &str) -> (r: bool)
    ensures
        r == text_lt(a@, b@),
{
    match rank(a, b) {
        Rank::Before => true,
        _ => false,
    }
}

/// The characters of a text.
pub fn chars_of(s: &str) -> (r: Vec<char>)
    ensures
        r@ == s@,
{
    let mut r: Vec<char> = Vec::new();
    for c in it: s.chars()
        invariant
            r@ == it.seq().take(it.index()),
            it.seq() == s@,
    {
        r.push(c);
        proof {
            assert(it.seq().take(it.index() + 1) =~= it.seq().take(it.index()).push(c));
        }
    }
    proof {
        assert(s@.take(s@.len() as int) =~= s@);
    }
    r
}

/// The text made of `chars[from..to]`.
pub fn text_of(chars: &Vec<char>, from: usize, to: usize) -> (r: String)
    requires
        from <= to <= chars.len(),
    ensures
        r@ == chars@.subrange(from as int, to as int),
{
    let mut r = String::new();
    let mut i: usize = from;
    while i < to
        invariant
            from <= i <= to <= chars.len(),
            r@ == chars@.subrange(from as int, i as int),
        decreases to - i,
    {
        r.push(chars[i]);
        i += 1;
        proof {
            assert(chars@.subrange(from as int, i as int) =~= chars@.subrange(from as int, i - 1).push(chars@[i - 1]));
        }
    }
    r
}

/// Whether `s` starts with `p`.
pub fn starts_with(s: &str, p: &str) -> (r: bool)
    ensures
        r == p@.is_prefix_of(s@),
{
    let a = chars_of(s);
    let b = chars_of(p);
    if b.len() > a.len() {
        return false;
    }
    let mut i: usize = 0;
    while i < b.len()
        invariant
            i <= b.len() <= a.len(),
            a@ == s@,
            b@ == p@,
            forall|k: int| 0 <= k < i ==> a@[k] == b@[k],
        decreases b.len() - i,
    {
        if a[i] != b[i] {
            proof {
                assert(s@.subrange(0, p@.len() as int)[i as int] == s@[i as int]);
            }
            return false;
        }
        i += 1;
    }
    proof {
        assert(s@.subrange(0, p@.len() as int) =~= p@);
    }
    true
}

/// What follows `p` in `s`, if `s` starts with `p`.
pub fn strip_prefix(s: &str, p: &str) -> (r: Option<String>)
    ensures
        match r {
            Some(t) => p@.is_prefix_of(s@) && t@ == s@.skip(p@.len() as int),
            None => !p@.is_prefix_of(s@),
        },
{
    if !starts_with(s, p) {
        return None;
    }
    let a = chars_of(s);
    let n: usize = chars_of(p).len();
    let r = text_of(&a, n, a.len());
    proof {
        assert(r@ =~= s@.skip(p@.len() as int));
    }
    Some(r)
}

/// The decimal digit for a number below ten.
pub open spec fn digit(n: int) -> char
    recommends
        0 <= n < 10,
{
    ('0' as int + n) as char
}

/// A number in decimal.
pub open spec fn decimal_text(n: nat) -> Seq<char>
    decreases n,
{
    if n < 10 {
        seq![digit(n as int)]
    } else {
        decimal_text(n / 10).push(digit((n % 10) as int))
    }
}

/// Writes a number in decimal.
pub fn decimal(n: u64) -> (r: String)
    ensures
        r@ == decimal_text(n as nat),
    decreases n,
{
    let low: u64 = n % 10;
    let d = match low {
        0 => '0',
        1 => '1',
        2 => '2',
        3 => '3',
        4 => '4',
        5 => '5',
        6 => '6',
        7 => '7',
        8 => '8',
        _ => '9',
    };
    assert(d == digit(low as int));
    let mut out = if n < 10 {
        String::new()
    } else {
        decimal(n / 10)
    };
    out.push(d);
    proof {
        if n < 10 {
            assert(out@ =~= seq![digit(n as int)]);
        }
    }
    out
}

/// The pieces of `s` between the separators: one more than there are of those.
pub open spec fn split_on(s: Seq<char>, sep: char) -> Seq<Seq<char>>
    decreases s.len(),
{
    if s.len() == 0 {
        seq![Seq::<char>::empty()]
    } else {
        let before = split_on(s.drop_last(), sep);
        if s.last() == sep {
            before.push(Seq::empty())
        } else {
            before.drop_last().push(before.last().push(s.last()))
        }
    }
}

/// There is at least one piece.
pub proof fn split_not_empty(s: Seq<char>, sep: char)
    ensures
        split_on(s, sep).len() > 0,
    decreases s.len(),
{
    if s.len() > 0 {
        split_not_empty(s.drop_last(), sep);
    }
}

/// A text without the separator is its own only piece.
pub proof fn split_plain(s: Seq<char>, sep: char)
    requires
        !s.contains(sep),
    ensures
        split_on(s, sep) == seq![s],
    decreases s.len(),
{
    if s.len() == 0 {
        assert(s =~= Seq::<char>::empty());
    } else {
        assert(s.contains(s.last()));
        assert forall|i: int| 0 <= i < s.drop_last().len() implies s.drop_last()[i] != sep by {
            assert(s.contains(s[i]));
        }
        split_plain(s.drop_last(), sep);
        assert(s.drop_last().push(s.last()) =~= s);
        assert(split_on(s, sep) =~= seq![s]);
    }
}

/// Splitting two texts joined by the separator gives the pieces of both.
pub proof fn split_joined(a: Seq<char>, b: Seq<char>, sep: char)
    ensures
        split_on(a + seq![sep] + b, sep) == split_on(a, sep) + split_on(b, sep),
    decreases b.len(),
{
    let s = a + seq![sep] + b;
    split_not_empty(a, sep);
    split_not_empty(b, sep);
    if b.len() == 0 {
        assert(s.drop_last() =~= a);
        assert(split_on(s, sep) =~= split_on(a, sep) + split_on(b, sep));
    } else {
        assert(s.drop_last() =~= a + seq![sep] + b.drop_last());
        assert(s.last() == b.last());
        split_joined(a, b.drop_last(), sep);
        split_not_empty(b.drop_last(), sep);
        assert(split_on(s, sep) =~= split_on(a, sep) + split_on(b, sep));
    }
}

/// Pieces put together with the separator between them.
pub open spec fn join_with(parts: Seq<Seq<char>>, sep: Seq<char>) -> Seq<char>
    decreases parts.len(),
{
    if parts.len() == 0 {
        Seq::empty()
    } else if parts.len() == 1 {
        parts[0]
    } else {
        join_with(parts.drop_last(), sep) + sep + parts.last()
    }
}

/// Joining the pieces of a text gives the text back.
pub proof fn join_split(s: Seq<char>, sep: char)
    ensures
        join_with(split_on(s, sep), seq![sep]) == s,
    decreases s.len(),
{
    let parts = split_on(s, sep);
    if s.len() == 0 {
        assert(parts[0] =~= s);
    } else {
        let before = split_on(s.drop_last(), sep);
        split_not_empty(s.drop_last(), sep);
        join_split(s.drop_last(), sep);
        assert(s =~= s.drop_last().push(s.last()));
        if s.last() == sep {
            assert(parts.drop_last() =~= before);
            assert(join_with(parts, seq![sep]) =~= s);
        } else {
            assert(parts.drop_last() =~= before.drop_last());
            assert(join_with(parts, seq![sep]) =~= s);
        }
    }
}

/// Splits a text at each separator.
pub fn split(s: &str, sep: char) -> (r: Vec<String>)
    ensures
        r.deep_view() == split_on(s@, sep),
        r.len() > 0,
{
    let mut parts: Vec<String> = Vec::new();
    let mut cur = String::new();
    let chars = chars_of(s);
    let mut i: usize = 0;
    proof {
        assert(s@.take(0) =~= Seq::<char>::empty());
        assert(parts.deep_view().push(cur@) =~= seq![Seq::<char>::empty()]);
    }
    while i < chars.len()
        invariant
            chars@ == s@,
            i <= chars.len(),
            split_on(s@.take(i as int), sep) == parts.deep_view().push(cur@),
        decreases chars.len() - i,
    {
        let ghost done = parts.deep_view();
        let ghost piece = cur@;
        proof {
            assert(s@.take(i + 1).drop_last() =~= s@.take(i as int));
            assert(s@.take(i + 1).last() == chars@[i as int]);
            assert(done.push(piece).drop_last() =~= done);
        }
        if chars[i] == sep {
            parts.push(cur);
            cur = String::new();
            proof {
                assert(parts.deep_view() =~= done.push(piece));
            }
        } else {
            cur.push(chars[i]);
        }
        i += 1;
        proof {
            assert(split_on(s@.take(i as int), sep) =~= parts.deep_view().push(cur@));
        }
    }
    let ghost done = parts.deep_view();
    let ghost piece = cur@;
    parts.push(cur);
    proof {
        assert(s@.take(i as int) =~= s@);
        assert(parts.deep_view() =~= done.push(piece));
    }
    parts
}

/// Joins the first `n` pieces with a separator between them.
pub fn join_first(parts: &Vec<String>, n: usize, sep: &str) -> (r: String)
    requires
        n <= parts.len(),
    ensures
        r@ == join_with(parts.deep_view().take(n as int), sep@),
{
    let ghost ps = parts.deep_view();
    if n == 0 {
        return String::new();
    }
    let mut out = parts[0].clone();
    let mut i: usize = 1;
    assert(ps.take(1).len() == 1 && ps.take(1)[0] == parts@[0]@);
    while i < n
        invariant
            ps == parts.deep_view(),
            1 <= i <= n <= ps.len(),
            out@ == join_with(ps.take(i as int), sep@),
        decreases n - i,
    {
        out.append(sep);
        out.append(parts[i].as_str());
        i += 1;
        proof {
            assert(ps.take(i as int).drop_last() =~= ps.take(i - 1));
            assert(ps.take(i as int).last() == parts@[i - 1]@);
        }
    }
    out
}

/// Joins pieces with a separator between them.
pub fn join(parts: &Vec<String>, sep: &str) -> (r: String)
    ensures
        r@ == join_with(parts.deep_view(), sep@),
{
    assert(parts.deep_view().take(parts.len() as int) =~= parts.deep_view());
    join_first(parts, parts.len(), sep)
}

/// Whether a character is a letter or a digit in Unicode's sense.
pub uninterp spec fn unicode_alphanumeric(c: char) -> bool;

/// Whether a character has Unicode's property of being white space.
pub uninterp spec fn unicode_whitespace(c: char) -> bool;

/// `char::is_alphanumeric` depends on the character alone.
pub assume_specification[ char::is_alphanumeric ](c: char) -> (r: bool)
    ensures
        r == unicode_alphanumeric(c),
;

/// `char::is_whitespace` depends on the character alone.
pub assume_specification[ char::is_whitespace ](c: char) -> (r: bool)
    ensures
        r == unicode_whitespace(c),
;

/// An ASCII letter or digit.
pub open spec fn is_ascii_alnum(c: char) -> bool {
    ||| 'a' <= c <= 'z'
    ||| 'A' <= c <= 'Z'
    ||| '0' <= c <= '9'
}

/// Whether a character is an ASCII letter or digit.
pub fn ascii_alnum(c: char) -> (r: bool)
    ensures
        r == is_ascii_alnum(c),
{
    ('a' <= c && c <= 'z') || ('A' <= c && c <= 'Z') || ('0' <= c && c <= '9')
}

/// A character that can be part of an identifier.
pub open spec fn is_word_char(c: char) -> bool {
    if c <= '\x7f' {
        is_ascii_alnum(c) || c == '_'
    } else {
        unicode_alphanumeric(c)
    }
}

/// Whether a character can be part of an identifier.
pub fn word_char(c: char) -> (r: bool)
    ensures
        r == is_word_char(c),
{
    if c <= '\x7f' {
        ascii_alnum(c) || c == '_'
    } else {
        c.is_alphanumeric()
    }
}

/// White space: in ASCII the space and the five characters from tab to carriage
/// return.
pub open spec fn is_space(c: char) -> bool {
    if c <= '\x7f' {
        c == ' ' || '\t' <= c <= '\r'
    } else {
        unicode_whitespace(c)
    }
}

/// Whether a character is white space.
pub fn space(c: char) -> (r: bool)
    ensures
        r == is_space(c),
{
    if c <= '\x7f' {
        c == ' ' || ('\t' <= c && c <= '\r')
    } else {
        c.is_whitespace()
    }
}

/// The first position in `s` at or after `i` that holds no white space, or its
/// end.
pub open spec fn skip_space(s: Seq<char>, i: int) -> int
    decreases s.len() - i,
{
    if i < 0 || i >= s.len() {
        s.len() as int
    } else if is_space(s[i]) {
        skip_space(s, i + 1)
    } else {
        i
    }
}

/// The first position of `chars[..hi]` at or after `i` that holds no white space,
/// or `hi`.
pub fn after_space(chars: &Vec<char>, hi: usize, i: usize) -> (r: usize)
    requires
        i <= hi <= chars.len(),
    ensures
        i <= r <= hi,
        r == skip_space(chars@.take(hi as int), i as int),
{
    let ghost s = chars@.take(hi as int);
    let mut k: usize = i;
    while k < hi && space(chars[k])
        invariant
            s == chars@.take(hi as int),
            i <= k <= hi <= chars.len(),
            skip_space(s, i as int) == skip_space(s, k as int),
        decreases hi - k,
    {
        assert(s[k as int] == chars@[k as int]);
        k += 1;
    }
    assert(k < hi ==> s[k as int] == chars@[k as int]);
    k
}

/// `p` stands in `s` at `i`.
pub open spec fn occurs_at(s: Seq<char>, p: Seq<char>, i: int) -> bool {
    0 <= i && i + p.len() <= s.len() && s.subrange(i, i + p.len()) == p
}

/// The first place at or after `i` where `p` stands in `s`.
pub open spec fn find_from(s: Seq<char>, p: Seq<char>, i: int) -> Option<int>
    decreases s.len() + 1 - i,
{
    if i < 0 || i + p.len() > s.len() {
        None
    } else if occurs_at(s, p, i) {
        Some(i)
    } else {
        find_from(s, p, i + 1)
    }
}

/// How many times `p` stands in `s` from `i` on, without overlap.
pub open spec fn count_from(s: Seq<char>, p: Seq<char>, i: int) -> nat
    decreases s.len() - i,
{
    if i < 0 || i >= s.len() || p.len() == 0 {
        0
    } else if occurs_at(s, p, i) {
        1 + count_from(s, p, i + p.len())
    } else {
        count_from(s, p, i + 1)
    }
}

/// Whether `p` stands in `chars[..hi]` at `i`.
pub fn occurs(chars: &Vec<char>, hi: usize, p: &Vec<char>, i: usize) -> (r: bool)
    requires
        i <= hi <= chars.len(),
    ensures
        r == occurs_at(chars@.take(hi as int), p@, i as int),
{
    let ghost s = chars@.take(hi as int);
    if p.len() > hi - i {
        return false;
    }
    let mut k: usize = 0;
    while k < p.len()
        invariant
            s == chars@.take(hi as int),
            i <= hi <= chars.len(),
            k <= p.len() <= hi - i,
            forall|j: int| 0 <= j < k ==> chars@[i + j] == p@[j],
        decreases p.len() - k,
    {
        if chars[i + k] != p[k] {
            proof {
                assert(s.subrange(i as int, i + p.len())[k as int] == chars@[i + k]);
            }
            return false;
        }
        k += 1;
    }
    assert(s.subrange(i as int, i + p.len()) =~= p@);
    true
}

/// The first place at or after `i` where `p` stands in `chars[..hi]`.
pub fn find(chars: &Vec<char>, hi: usize, p: &Vec<char>, i: usize) -> (r: Option<usize>)
    requires
        i <= hi <= chars.len(),
        p.len() > 0,
    ensures
        match r {
            Some(k) => i <= k && k + p.len() <= hi && find_from(chars@.take(hi as int), p@, i as int)
                == Some(k as int),
            None => find_from(chars@.take(hi as int), p@, i as int) is None,
        },
{
    let ghost s = chars@.take(hi as int);
    let mut k: usize = i;
    while p.len() <= hi - k
        invariant
            s == chars@.take(hi as int),
            p.len() > 0,
            i <= k <= hi <= chars.len(),
            find_from(s, p@, i as int) == find_from(s, p@, k as int),
        decreases hi - k,
    {
        if occurs(chars, hi, p, k) {
            return Some(k);
        }
        k += 1;
    }
    None
}

/// How many times `p` stands in `chars`, without overlap.
pub fn count(chars: &Vec<char>, p: &Vec<char>) -> (r: usize)
    requires
        p.len() > 0,
    ensures
        r == count_from(chars@, p@, 0),
{
    let mut n: usize = 0;
    let mut i: usize = 0;
    assert(chars@.take(chars.len() as int) =~= chars@);
    while i < chars.len()
        invariant
            p.len() > 0,
            i <= chars.len(),
            n <= i,
            chars@.take(chars.len() as int) == chars@,
            n + count_from(chars@, p@, i as int) == count_from(chars@, p@, 0),
        decreases chars.len() - i,
    {
        if occurs(chars, chars.len(), p, i) {
            n += 1;
            i += p.len();
        } else {
            i += 1;
        }
    }
    n
}

/// The first place found from `i` on is the first there is.
pub proof fn find_from_first(s: Seq<char>, p: Seq<char>, i: int)
    requires
        0 <= i,
    ensures
        match find_from(s, p, i) {
            Some(k) => i <= k && occurs_at(s, p, k) && (forall|j: int| i <= j < k ==> !occurs_at(s, p, j)),
            None => forall|j: int| i <= j ==> !occurs_at(s, p, j),
        },
    decreases s.len() + 1 - i,
{
    if i + p.len() <= s.len() && !occurs_at(s, p, i) {
        find_from_first(s, p, i + 1);
    }
}

/// The first place found is the first there is.
pub proof fn find_is_first(s: Seq<char>, p: Seq<char>)
    ensures
        match find_from(s, p, 0) {
            Some(k) => 0 <= k && occurs_at(s, p, k) && (forall|j: int| 0 <= j < k ==> !occurs_at(s, p, j)),
            None => forall|j: int| !occurs_at(s, p, j),
        },
{
    find_from_first(s, p, 0);
}

/// Nothing is counted exactly where nothing stands.
pub proof fn count_none(s: Seq<char>, p: Seq<char>, i: int)
    requires
        0 <= i,
        p.len() > 0,
    ensures
        count_from(s, p, i) == 0 <==> forall|j: int| i <= j ==> !occurs_at(s, p, j),
    decreases s.len() - i,
{
    if i < s.len() {
        if !occurs_at(s, p, i) {
            count_none(s, p, i + 1);
        }
    }
}

/// `p` stands in `s` at `k` and nowhere else.
pub open spec fn sole_at(s: Seq<char>, p: Seq<char>, k: int) -> bool {
    occurs_at(s, p, k) && forall|j: int| occurs_at(s, p, j) ==> j == k
}

/// A pattern whose first character stands in it only once cannot overlap itself.
pub open spec fn no_overlap(p: Seq<char>) -> bool {
    p.len() > 0 && forall|i: int| 0 < i < p.len() ==> #[trigger] p[i] != p[0]
}

proof fn no_straddle(s: Seq<char>, p: Seq<char>, i: int)
    requires
        no_overlap(p),
        occurs_at(s, p, i),
    ensures
        forall|j: int| i < j < i + p.len() ==> !occurs_at(s, p, j),
{
    assert forall|j: int| i < j < i + p.len() implies !occurs_at(s, p, j) by {
        if occurs_at(s, p, j) {
            assert(s.subrange(j, j + p.len())[0] == s[j]);
            assert(s.subrange(i, i + p.len())[j - i] == s[j]);
        }
    }
}

/// `p` stands at `k` and nowhere else from `i` on.
spec fn sole_from(s: Seq<char>, p: Seq<char>, i: int, k: int) -> bool {
    i <= k && occurs_at(s, p, k) && forall|j: int| i <= j && occurs_at(s, p, j) ==> j == k
}

proof fn sole_if_counted_once(s: Seq<char>, p: Seq<char>, i: int) -> (k: int)
    requires
        0 <= i,
        no_overlap(p),
        count_from(s, p, i) == 1,
    ensures
        sole_from(s, p, i, k),
    decreases s.len() - i,
{
    if occurs_at(s, p, i) {
        count_none(s, p, i + p.len());
        no_straddle(s, p, i);
        i
    } else {
        sole_if_counted_once(s, p, i + 1)
    }
}

proof fn counted_once_if_sole(s: Seq<char>, p: Seq<char>, i: int, k: int)
    requires
        0 <= i,
        no_overlap(p),
        sole_from(s, p, i, k),
    ensures
        count_from(s, p, i) == 1,
    decreases s.len() - i,
{
    if i == k {
        count_none(s, p, i + p.len());
    } else {
        assert(!occurs_at(s, p, i));
        counted_once_if_sole(s, p, i + 1, k);
    }
}

/// A pattern that cannot overlap itself is counted once exactly where it stands
/// once, and then it is found there.
pub proof fn counted_once_is_sole(s: Seq<char>, p: Seq<char>)
    requires
        no_overlap(p),
    ensures
        count_from(s, p, 0) == 1 <==> exists|k: int| #[trigger] sole_at(s, p, k),
        forall|k: int| #[trigger] sole_at(s, p, k) ==> find_from(s, p, 0) == Some(k),
{
    find_is_first(s, p);
    if count_from(s, p, 0) == 1 {
        let k = sole_if_counted_once(s, p, 0);
        assert(sole_at(s, p, k));
    }
    if exists|k: int| #[trigger] sole_at(s, p, k) {
        let k = choose|k: int| #[trigger] sole_at(s, p, k);
        counted_once_if_sole(s, p, 0, k);
    }
    assert forall|k: int| #[trigger] sole_at(s, p, k) implies find_from(s, p, 0) == Some(k) by {
        assert(occurs_at(s, p, k));
    }
}

/// The first place at or after `i` that holds `c`, or the end.
pub open spec fn index_from(s: Seq<char>, c: char, i: int) -> int
    decreases s.len() - i,
{
    if i < 0 || i >= s.len() {
        s.len() as int
    } else if s[i] == c {
        i
    } else {
        index_from(s, c, i + 1)
    }
}

/// A character is found where it stands, and not found where it does not.
pub proof fn index_from_finds(s: Seq<char>, c: char, i: int)
    requires
        0 <= i <= s.len(),
    ensures
        index_from(s, c, i) < s.len() <==> exists|k: int| i <= k < s.len() && s[k] == c,
        i == 0 ==> (index_from(s, c, i) < s.len() <==> s.contains(c)),
        i <= index_from(s, c, i) <= s.len(),
    decreases s.len() - i,
{
    if i < s.len() {
        if s[i] != c {
            index_from_finds(s, c, i + 1);
        }
    }
}

/// The first place at or after `i` that holds `c`, or the end.
pub fn find_char(chars: &Vec<char>, c: char, i: usize) -> (r: usize)
    requires
        i <= chars.len(),
    ensures
        i <= r <= chars.len(),
        r == index_from(chars@, c, i as int),
{
    let mut k: usize = i;
    while k < chars.len() && chars[k] != c
        invariant
            i <= k <= chars.len(),
            index_from(chars@, c, i as int) == index_from(chars@, c, k as int),
        decreases chars.len() - k,
    {
        k += 1;
    }
    k
}

/// Where `s` ends without the `c`s behind it.
pub open spec fn trim_end_at(s: Seq<char>, c: char, n: int) -> int
    decreases n,
{
    if n > 0 && s[n - 1] == c {
        trim_end_at(s, c, n - 1)
    } else {
        n
    }
}

/// `s` without the `c`s at its end.
pub open spec fn trimmed_of(s: Seq<char>, c: char) -> Seq<char> {
    s.take(trim_end_at(s, c, s.len() as int))
}

/// Drops every `c` from the end of a text.
pub fn trim_end(s: &str, c: char) -> (r: String)
    ensures
        r@ == trimmed_of(s@, c),
{
    let chars = chars_of(s);
    let mut n: usize = chars.len();
    while n > 0 && chars[n - 1] == c
        invariant
            chars@ == s@,
            n <= chars.len(),
            trim_end_at(s@, c, s@.len() as int) == trim_end_at(s@, c, n as int),
        decreases n,
    {
        n -= 1;
    }
    let r = text_of(&chars, 0, n);
    assert(r@ =~= trimmed_of(s@, c));
    r
}

/// Where `s[lo..n]` ends without the white space behind it.
pub open spec fn space_end(s: Seq<char>, lo: int, n: int) -> int
    decreases n - lo,
{
    if n > lo && is_space(s[n - 1]) {
        space_end(s, lo, n - 1)
    } else {
        n
    }
}

/// `s` without the white space at either end.
pub open spec fn stripped(s: Seq<char>) -> Seq<char> {
    let lo = skip_space(s, 0);
    s.subrange(lo, space_end(s, lo, s.len() as int))
}

/// Drops the white space at either end of a text.
pub fn trim(s: &str) -> (r: String)
    ensures
        r@ == stripped(s@),
{
    let chars = chars_of(s);
    assert(chars@.take(chars.len() as int) =~= s@);
    let lo = after_space(&chars, chars.len(), 0);
    let mut n: usize = chars.len();
    while n > lo && space(chars[n - 1])
        invariant
            chars@ == s@,
            lo <= n <= chars.len(),
            space_end(s@, lo as int, s@.len() as int) == space_end(s@, lo as int, n as int),
        decreases n,
    {
        n -= 1;
    }
    text_of(&chars, lo, n)
}

/// A flag in words.
pub open spec fn flag_text(b: bool) -> Seq<char> {
    if b {
        "true"@
    } else {
        "false"@
    }
}

/// Writes a flag in words.
pub fn flag(b: bool) -> (r: String)
    ensures
        r@ == flag_text(b),
{
    if b {
        "true".to_owned()
    } else {
        "false".to_owned()
    }
}

/// `p` stands somewhere in `s`.
pub open spec fn stands_in(s: Seq<char>, p: Seq<char>) -> bool {
    exists|i: int| occurs_at(s, p, i)
}

/// What stands between two texts stands in the whole.
pub proof fn stands_between(a: Seq<char>, p: Seq<char>, b: Seq<char>)
    ensures
        stands_in(a + p + b, p),
{
    let s = a + p + b;
    assert(s.subrange(a.len() as int, a.len() as int + p.len()) =~= p);
    assert(occurs_at(s, p, a.len() as int));
}

/// What stands in a part stands in the whole.
pub proof fn stands_inside(a: Seq<char>, q: Seq<char>, b: Seq<char>, p: Seq<char>)
    requires
        stands_in(q, p),
    ensures
        stands_in(a + q + b, p),
{
    let i = choose|i: int| occurs_at(q, p, i);
    let s = a + q + b;
    assert(s.subrange(a.len() + i, a.len() + i + p.len()) =~= q.subrange(i, i + p.len()));
    assert(occurs_at(s, p, a.len() + i));
}

/// What a decimal digit is worth.
pub open spec fn digit_value(c: char) -> int {
    c as int - '0' as int
}

/// What digits are worth, read from the left.
pub open spec fn digits_value(s: Seq<char>) -> int
    decreases s.len(),
{
    if s.len() == 0 {
        0
    } else {
        10 * digits_value(s.drop_last()) + digit_value(s.last())
    }
}

/// A number is written in decimal digits that are worth the number, with no zero before
/// them.
pub proof fn decimal_reads_back(n: nat)
    ensures
        decimal_text(n).len() > 0,
        forall|i: int|
            0 <= i < decimal_text(n).len() ==> '0' <= #[trigger] decimal_text(n)[i] <= '9',
        digits_value(decimal_text(n)) == n,
        n > 0 ==> decimal_text(n)[0] != '0',
    decreases n,
{
    let t = decimal_text(n);
    if n < 10 {
        assert(t.drop_last() =~= Seq::<char>::empty());
        assert(digits_value(t.drop_last()) == 0);
        assert(digit_value(t.last()) == n);
    } else {
        let front = decimal_text(n / 10);
        decimal_reads_back(n / 10);
        assert(t.drop_last() =~= front);
        assert(t[0] == front[0]);
        assert forall|i: int| 0 <= i < t.len() implies '0' <= #[trigger] t[i] <= '9' by {
            if i < front.len() {
                assert(t[i] == front[i]);
            }
        }
    }
}

/// Trimming drops exactly the trailing characters: what is left does not end in one, and
/// nothing but such characters was dropped.
pub proof fn trimming_drops_the_end(s: Seq<char>, c: char)
    ensures
        trimmed_of(s, c).is_prefix_of(s),
        trimmed_of(s, c).len() > 0 ==> trimmed_of(s, c).last() != c,
        forall|i: int| trimmed_of(s, c).len() <= i < s.len() ==> #[trigger] s[i] == c,
{
    trim_end_is(s, c, s.len() as int);
    let n = trim_end_at(s, c, s.len() as int);
    assert(trimmed_of(s, c) =~= s.subrange(0, n));
}

proof fn trim_end_is(s: Seq<char>, c: char, n: int)
    requires
        0 <= n <= s.len(),
    ensures
        0 <= trim_end_at(s, c, n) <= n,
        trim_end_at(s, c, n) > 0 ==> s[trim_end_at(s, c, n) - 1] != c,
        forall|i: int| trim_end_at(s, c, n) <= i < n ==> #[trigger] s[i] == c,
    decreases n,
{
    if n > 0 && s[n - 1] == c {
        trim_end_is(s, c, n - 1);
    }
}

/// A character that stands at `p` and not before is found there.
pub proof fn index_from_is(s: Seq<char>, c: char, i: int, p: int)
    requires
        0 <= i <= p <= s.len(),
        forall|k: int| i <= k < p ==> s[k] != c,
        p < s.len() ==> s[p] == c,
    ensures
        index_from(s, c, i) == p,
    decreases p - i,
{
    if i < p {
        index_from_is(s, c, i + 1, p);
    }
}

/// The place found holds the character, and none before it does.
pub proof fn index_from_first(s: Seq<char>, c: char, i: int)
    requires
        0 <= i <= s.len(),
    ensures
        i <= index_from(s, c, i) <= s.len(),
        index_from(s, c, i) < s.len() ==> s[index_from(s, c, i)] == c,
        forall|k: int| i <= k < index_from(s, c, i) ==> #[trigger] s[k] != c,
    decreases s.len() - i,
{
    if i < s.len() && s[i] != c {
        index_from_first(s, c, i + 1);
    }
}

/// Skipping white space stops at the first character that is none.
pub proof fn skip_space_stops(s: Seq<char>, i: int)
    requires
        0 <= i <= s.len(),
    ensures
        i <= skip_space(s, i) <= s.len(),
        skip_space(s, i) < s.len() ==> !is_space(s[skip_space(s, i)]),
        forall|j: int| i <= j < skip_space(s, i) ==> is_space(#[trigger] s[j]),
    decreases s.len() - i,
{
    if i < s.len() && is_space(s[i]) {
        skip_space_stops(s, i + 1);
    }
}

/// Stripping a text drops the white space at its ends and nothing else: what is left has
/// none there, and all that was dropped is white space.
pub proof fn stripping_drops_the_blanks(s: Seq<char>)
    ensures
        exists|lo: int, hi: int|
            {
                &&& 0 <= lo <= hi <= s.len()
                &&& stripped(s) == #[trigger] s.subrange(lo, hi)
                &&& forall|i: int| 0 <= i < lo ==> is_space(#[trigger] s[i])
                &&& forall|i: int| hi <= i < s.len() ==> is_space(#[trigger] s[i])
            },
        stripped(s).len() > 0 ==> !is_space(stripped(s)[0]) && !is_space(stripped(s).last()),
{
    let lo = skip_space(s, 0);
    skip_space_stops(s, 0);
    space_end_is(s, lo, s.len() as int);
    let hi = space_end(s, lo, s.len() as int);
    assert(stripped(s) == s.subrange(lo, hi));
}

proof fn space_end_is(s: Seq<char>, lo: int, n: int)
    requires
        0 <= lo <= n <= s.len(),
    ensures
        lo <= space_end(s, lo, n) <= n,
        space_end(s, lo, n) > lo ==> !is_space(s[space_end(s, lo, n) - 1]),
        forall|i: int| space_end(s, lo, n) <= i < n ==> is_space(#[trigger] s[i]),
    decreases n - lo,
{
    if n > lo && is_space(s[n - 1]) {
        space_end_is(s, lo, n - 1);
    }
}

/// Each piece stands in what they are joined to.
pub proof fn joined_pieces_stand(parts: Seq<Seq<char>>, sep: Seq<char>, i: int)
    requires
        0 <= i < parts.len(),
    ensures
        stands_in(join_with(parts, sep), parts[i]),
    decreases parts.len(),
{
    let none = Seq::<char>::empty();
    let all = join_with(parts, sep);
    if parts.len() == 1 {
        assert(all =~= none + parts[0] + none);
        stands_between(none, parts[0], none);
    } else {
        let front = join_with(parts.drop_last(), sep);
        if i < parts.len() - 1 {
            joined_pieces_stand(parts.drop_last(), sep, i);
            assert(all =~= none + front + (sep + parts.last()));
            stands_inside(none, front, sep + parts.last(), parts[i]);
        } else {
            assert(all =~= (front + sep) + parts[i] + none);
            stands_between(front + sep, parts[i], none);
        }
    }
}

/// Two texts are ordered by the first place where they differ, and where one ends first it
/// comes first.
pub proof fn the_first_difference_decides(a: Seq<char>, b: Seq<char>, k: int)
    requires
        0 <= k <= a.len(),
        k <= b.len(),
        forall|i: int| 0 <= i < k ==> #[trigger] a[i] == b[i],
    ensures
        k < a.len() && k < b.len() && a[k] != b[k] ==> (text_lt(a, b) <==> a[k] < b[k]),
        k == a.len() && k < b.len() ==> text_lt(a, b),
        k == b.len() ==> !text_lt(a, b),
    decreases k,
{
    if k > 0 {
        let x = a.drop_first();
        let y = b.drop_first();
        assert(a[0] == b[0]);
        assert forall|i: int| 0 <= i < k - 1 implies #[trigger] x[i] == y[i] by {
            assert(a[i + 1] == b[i + 1]);
        }
        the_first_difference_decides(x, y, k - 1);
    }
}

} // verus!
