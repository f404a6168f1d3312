//! Rendering third-party data into Starlark.
//!
//! A package's root, and the keys and values of its `bin`, come from its own
//! tarball, so nothing of them may end a literal or corrupt a line.

use vstd::prelude::*;

use crate::error::BuckError;
use crate::tarball::{hex_char, hex_digit};
use crate::text::chars_of;

verus! {

/// A control character.
pub open spec fn is_control(c: char) -> bool {
    c <= '\x1f' || ('\x7f' <= c && c <= '\u{9f}')
}

/// How a character is written inside a double-quoted literal.
pub open spec fn escape(c: char) -> Seq<char> {
    if c == '"' {
        seq!['\\', '"']
    } else if c == '\\' {
        seq!['\\', '\\']
    } else if c == '\n' {
        seq!['\\', 'n']
    } else if c == '\r' {
        seq!['\\', 'r']
    } else if c == '\t' {
        seq!['\\', 't']
    } else if is_control(c) {
        seq!['\\', 'x', hex_digit(c as int / 16), hex_digit(c as int % 16)]
    } else {
        seq![c]
    }
}

/// The characters of `s` from `i` on, each as it is written in a literal.
pub open spec fn escaped(s: Seq<char>, i: int) -> Seq<char>
    decreases s.len() - i,
{
    if i < 0 || i >= s.len() {
        Seq::empty()
    } else {
        escape(s[i]) + escaped(s, i + 1)
    }
}

/// A double-quoted Starlark literal for `s`.
pub open spec fn literal(s: Seq<char>) -> Seq<char> {
    seq!['"'] + escaped(s, 0) + seq!['"']
}

fn push_escaped(out: &mut String, c: char)
    ensures
        final(out)@ == old(out)@ + escape(c),
{
    let ghost before = out@;
    if c == '"' || c == '\\' {
        out.push('\\');
        out.push(c);
    } else if c == '\n' {
        out.push('\\');
        out.push('n');
    } else if c == '\r' {
        out.push('\\');
        out.push('r');
    } else if c == '\t' {
        out.push('\\');
        out.push('t');
    } else if c <= '\x1f' || ('\x7f' <= c && c <= '\u{9f}') {
        let v: u8 = (c as u32) as u8;
        out.push('\\');
        out.push('x');
        out.push(hex_char(v / 16));
        out.push(hex_char(v % 16));
    } else {
        out.push(c);
    }
    assert(out@ =~= before + escape(c));
}

/// A complete double-quoted Starlark string literal, quotes included.
///
/// Starlark source is UTF-8, so non-ASCII is emitted verbatim. Only what would
/// end the literal or corrupt the line is escaped.
pub fn starlark_string(s: &str) -> (r: String)
    ensures
        r@ == literal(s@),
{
    let chars = chars_of(s);
    let mut out = String::new();
    out.push('"');
    let mut i: usize = 0;
    assert(out@ =~= seq!['"']);
    while i < chars.len()
        invariant
            chars@ == s@,
            i <= chars.len(),
            seq!['"'] + escaped(s@, 0) == out@ + escaped(s@, i as int),
        decreases chars.len() - i,
    {
        let ghost before = out@;
        push_escaped(&mut out, chars[i]);
        i += 1;
        assert(out@ + escaped(s@, i as int) =~= before + escaped(s@, i - 1));
    }
    assert(out@ + escaped(s@, i as int) =~= out@);
    out.push('"');
    assert(out@ =~= literal(s@));
    out
}

/// A character that Buck2 takes in a sub-target's name.
pub open spec fn is_addressable(c: char) -> bool {
    ||| 'a' <= c <= 'z'
    ||| 'A' <= c <= 'Z'
    ||| '0' <= c <= '9'
    ||| c == '.' || c == '+' || c == '-' || c == '_'
}

/// A bin name that Buck2 can address as a sub-target.
pub open spec fn is_bin_name(name: Seq<char>) -> bool {
    name.len() > 0 && forall|i: int| 0 <= i < name.len() ==> is_addressable(#[trigger] name[i])
}

/// Reject a bin name Buck2 could not address as a sub-target.
///
/// npm's rule is wider: it admits `! ~ * ' ( )`, every one of which Buck2's
/// target-pattern parser rejects without naming the package.
pub fn validate_bin_name(package: &str, name: &str) -> (r: Result<(), BuckError>)
    ensures
        match r {
            Ok(_) => is_bin_name(name@),
            Err(e) => !is_bin_name(name@)
                && e.deep_view() == crate::error::BuckErrorModel::UnrepresentableBinName {
                package: package@,
                name: name@,
            },
        },
{
    let chars = chars_of(name);
    let mut ok = chars.len() > 0;
    let mut i: usize = 0;
    while i < chars.len()
        invariant
            chars@ == name@,
            i <= chars.len(),
            ok <==> chars.len() > 0 && forall|k: int| 0 <= k < i ==> is_addressable(#[trigger] name@[k]),
        decreases chars.len() - i,
    {
        let c = chars[i];
        let good = ('a' <= c && c <= 'z') || ('A' <= c && c <= 'Z') || ('0' <= c && c <= '9') || c == '.'
            || c == '+' || c == '-' || c == '_';
        if !good {
            assert(!is_addressable(name@[i as int]));
            ok = false;
        }
        i += 1;
    }
    if ok {
        Ok(())
    } else {
        Err(BuckError::UnrepresentableBinName { package: package.to_owned(), name: name.to_owned() })
    }
}

// --- Laws -----------------------------------------------------------------------

/// The value of a lowercase hexadecimal digit.
pub open spec fn hex_value(c: char) -> int {
    if '0' <= c <= '9' {
        c as int - '0' as int
    } else {
        c as int - 'a' as int + 10
    }
}

/// What the inside of a double-quoted literal stands for.
pub open spec fn unescaped(t: Seq<char>) -> Seq<char>
    decreases t.len(),
{
    if t.len() == 0 {
        Seq::empty()
    } else if t[0] == '\\' && t.len() >= 4 && t[1] == 'x' {
        seq![(16 * hex_value(t[2]) + hex_value(t[3])) as char] + unescaped(t.skip(4))
    } else if t[0] == '\\' && t.len() >= 2 {
        let c = if t[1] == 'n' {
            '\n'
        } else if t[1] == 'r' {
            '\r'
        } else if t[1] == 't' {
            '\t'
        } else {
            t[1]
        };
        seq![c] + unescaped(t.skip(2))
    } else {
        seq![t[0]] + unescaped(t.skip(1))
    }
}

proof fn unescape_one(c: char, rest: Seq<char>)
    ensures
        unescaped(escape(c) + rest) == seq![c] + unescaped(rest),
{
    let t = escape(c) + rest;
    if c == '"' || c == '\\' || c == '\n' || c == '\r' || c == '\t' {
        assert(t.skip(2) =~= rest);
    } else if is_control(c) {
        let hi = c as int / 16;
        let lo = c as int % 16;
        assert(t.skip(4) =~= rest);
        assert(t[2] == hex_digit(hi) && t[3] == hex_digit(lo));
        assert(hex_value(hex_digit(hi)) == hi);
        assert(hex_value(hex_digit(lo)) == lo);
    } else {
        assert(t.skip(1) =~= rest);
    }
}

/// Reading a literal gives back what was written: no text is mistaken for
/// another, whatever it holds.
pub proof fn literal_reads_back(s: Seq<char>, i: int)
    requires
        0 <= i <= s.len(),
    ensures
        unescaped(escaped(s, i)) == s.skip(i),
    decreases s.len() - i,
{
    if i < s.len() {
        unescape_one(s[i], escaped(s, i + 1));
        literal_reads_back(s, i + 1);
        assert(s.skip(i) =~= seq![s[i]] + s.skip(i + 1));
    } else {
        assert(s.skip(i) =~= Seq::<char>::empty());
    }
}

proof fn digit_is_plain(n: int)
    requires
        0 <= n < 16,
    ensures
        !is_control(hex_digit(n)),
{
    if n < 10 {
        assert(('0' as int + n) as char >= '0');
    } else {
        assert(('a' as int + n - 10) as char >= 'a');
    }
}

proof fn escape_is_plain(c: char)
    ensures
        forall|k: int| 0 <= k < escape(c).len() ==> !is_control(#[trigger] escape(c)[k]),
{
    if is_control(c) {
        digit_is_plain(c as int / 16);
        digit_is_plain(c as int % 16);
    }
}

/// The inside of a literal holds no control character, so it never breaks a
/// line.
pub proof fn literal_is_one_line(s: Seq<char>, i: int)
    requires
        0 <= i <= s.len(),
    ensures
        forall|k: int| 0 <= k < escaped(s, i).len() ==> !is_control(#[trigger] escaped(s, i)[k]),
    decreases s.len() - i,
{
    if i < s.len() {
        literal_is_one_line(s, i + 1);
        escape_is_plain(s[i]);
        let head = escape(s[i]);
        let rest = escaped(s, i + 1);
        let all = escaped(s, i);
        assert forall|k: int| 0 <= k < all.len() implies !is_control(#[trigger] all[k]) by {
            if k < head.len() {
                assert(all[k] == head[k]);
            } else {
                assert(all[k] == rest[k - head.len()]);
            }
        }
    }
}

/// Where the literal that is open at `i` ends: at the first `"` that no backslash takes.
pub open spec fn closing_quote(t: Seq<char>, i: int) -> int
    decreases t.len() + 1 - i,
{
    if i < 0 || i >= t.len() {
        t.len() as int
    } else if t[i] == '"' {
        i
    } else if t[i] == '\\' {
        closing_quote(t, i + 2)
    } else {
        closing_quote(t, i + 1)
    }
}

proof fn escaped_does_not_close(t: Seq<char>, s: Seq<char>, i: int, at: int)
    requires
        0 <= i <= s.len(),
        0 <= at,
        at + escaped(s, i).len() < t.len(),
        t.subrange(at, at + escaped(s, i).len()) == escaped(s, i),
        t[at + escaped(s, i).len()] == '"',
    ensures
        closing_quote(t, at) == at + escaped(s, i).len(),
    decreases s.len() - i,
{
    if i < s.len() {
        let head = escape(s[i]);
        let rest = escaped(s, i + 1);
        let all = escaped(s, i);
        let cut = t.subrange(at, at + all.len());
        assert(all == head + rest);
        assert forall|k: int| 0 <= k < head.len() implies t[at + k] == #[trigger] head[k] by {
            assert(cut[k] == t[at + k]);
        }
        assert(t.subrange(at + head.len(), at + all.len()) =~= rest) by {
            assert forall|k: int| 0 <= k < rest.len() implies t[at + head.len() + k] == #[trigger] rest[k] by {
                assert(cut[head.len() + k] == t[at + head.len() + k]);
            }
        }
        escaped_does_not_close(t, s, i + 1, at + head.len());
        assert(t[at] == head[0]);
        if s[i] != '"' && s[i] != '\\' && is_control(s[i]) && s[i] != '\n' && s[i] != '\r' && s[i]
            != '\t' {
            control_digits_are_no_quotes(s[i]);
            assert(t[at + 1] == head[1] && t[at + 2] == head[2] && t[at + 3] == head[3]);
            assert(closing_quote(t, at + 3) == closing_quote(t, at + 4));
            assert(closing_quote(t, at + 2) == closing_quote(t, at + 3));
        }
    }
}

proof fn control_digits_are_no_quotes(c: char)
    requires
        is_control(c),
    ensures
        hex_digit(c as int / 16) != '"' && hex_digit(c as int / 16) != '\\',
        hex_digit(c as int % 16) != '"' && hex_digit(c as int % 16) != '\\',
{
    digit_is_no_quote(c as int / 16);
    digit_is_no_quote(c as int % 16);
}

proof fn digit_is_no_quote(n: int)
    requires
        0 <= n < 16,
    ensures
        hex_digit(n) != '"',
        hex_digit(n) != '\\',
{
}

/// Nothing in a text ends its literal early: whatever follows it, a literal opens with a
/// quote, the quote that closes it is its last character, and what stands between the two
/// reads as the text.
pub proof fn a_literal_ends_where_it_ends(s: Seq<char>, behind: Seq<char>)
    ensures
        literal(s).len() >= 2,
        literal(s)[0] == '"',
        closing_quote(literal(s) + behind, 1) == literal(s).len() - 1,
        unescaped(literal(s).subrange(1, literal(s).len() - 1)) == s,
        forall|k: int|
            0 <= k < literal(s).len() ==> ' ' <= #[trigger] literal(s)[k] && !('\x7f' <= literal(
                s,
            )[k] <= '\u{9f}'),
{
    let t = literal(s) + behind;
    let inside = escaped(s, 0);
    assert(t.subrange(1, 1 + inside.len() as int) =~= inside);
    assert(t[1 + inside.len() as int] == '"');
    escaped_does_not_close(t, s, 0, 1);
    literal_reads_back(s, 0);
    literal_is_one_line(s, 0);
    assert forall|k: int| 0 <= k < literal(s).len() implies ' ' <= #[trigger] literal(s)[k] && !(
    '\x7f' <= literal(s)[k] <= '\u{9f}') by {
        if 0 < k < literal(s).len() - 1 {
            assert(literal(s)[k] == inside[k - 1]);
        }
    }
    assert(literal(s).subrange(1, literal(s).len() - 1) =~= inside);
    assert(s.skip(0) =~= s);
}

/// A command can be addressed exactly where its name is not empty and holds nothing but
/// ASCII letters, digits and the four marks `.`, `+`, `-` and `_`.
pub proof fn addressable_names_are_plain(name: Seq<char>)
    ensures
        is_bin_name(name) <==> name.len() > 0 && forall|i: int|
            0 <= i < name.len() ==> {
                ||| 'a' <= #[trigger] name[i] <= 'z'
                ||| 'A' <= name[i] <= 'Z'
                ||| '0' <= name[i] <= '9'
                ||| (seq!['.', '+', '-', '_']).contains(name[i])
            },
{
    let marks = seq!['.', '+', '-', '_'];
    assert(marks[0] == '.' && marks[1] == '+' && marks[2] == '-' && marks[3] == '_');
    assert forall|c: char| marks.contains(c) <==> c == '.' || c == '+' || c == '-' || c == '_' by {}
    assert forall|i: int| 0 <= i < name.len() implies (is_addressable(#[trigger] name[i]) <==> {
        ||| 'a' <= name[i] <= 'z'
        ||| 'A' <= name[i] <= 'Z'
        ||| '0' <= name[i] <= '9'
        ||| marks.contains(name[i])
    }) by {}
}

} // verus!
